use gh_copilot_pricing_tui::data::{Price, ReleaseStatus, Tier};
use gh_copilot_pricing_tui::error::GhLlmCostError;

/// The two-decimal form of an amount, as the program shows it.
fn two_decimals(amount: &str) -> (String, u64) {
    amount
        .parse::<f64>()
        .map(|v| (format!("{v:.2}"), v.to_bits()))
        .unwrap_or_default()
}

fn amount_value(price: &Price) -> Option<f64> {
    price.amount_text().and_then(|t| t.parse::<f64>().ok())
}

#[test]
fn price_parses_dollar_amount() -> Result<(), GhLlmCostError> {
    let price = Price::parse("$1.75", &two_decimals)?;
    assert!((amount_value(&price).unwrap_or(f64::NAN) - 1.75).abs() < f64::EPSILON);
    Ok(())
}

#[test]
fn price_parses_not_applicable() -> Result<(), GhLlmCostError> {
    let price = Price::parse("Not applicable", &two_decimals)?;
    assert!(amount_value(&price).is_none());
    Ok(())
}

#[test]
fn price_rejects_negative() {
    let result = Price::parse("$-1.00", &two_decimals);
    assert!(result.is_err());
}

#[test]
fn tier_parsing() -> Result<(), GhLlmCostError> {
    assert_eq!(Tier::try_from("Default")?, Tier::Default);
    assert_eq!(Tier::try_from("Long context")?, Tier::LongContext);
    assert_eq!(Tier::try_from("Not applicable")?, Tier::NotApplicable);
    Ok(())
}

#[test]
fn release_status_parsing() -> Result<(), GhLlmCostError> {
    assert_eq!(
        ReleaseStatus::try_from("Public preview")?,
        ReleaseStatus::PublicPreview
    );
    Ok(())
}
