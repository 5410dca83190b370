use gh_copilot_pricing_tui::data::{Price, ReleaseStatus, Tier};
use gh_copilot_pricing_tui::error::GhLlmCostError;

fn two_decimals(amount: &str) -> (String, u64) {
    amount
        .parse::<f64>()
        .map(|v| (format!("{v:.2}"), v.to_bits()))
        .unwrap_or_default()
}

fn parse_message(result: Result<Price, GhLlmCostError>) -> String {
    match result {
        Err(GhLlmCostError::Parse(m)) => m,
        other => panic!("expected a parse error, got {other:?}"),
    }
}

#[test]
fn price_with_thousands_separator() {
    let price = Price::parse(" $1,250.5 ", &two_decimals).unwrap();
    assert_eq!(price.amount_text().as_deref(), Some("1250.5"));
    assert_eq!(price.display(), "$1250.50");
}

#[test]
fn price_not_applicable_in_any_case_or_empty() {
    for text in ["Not applicable", "  not APPLICABLE ", "", "   "] {
        let price = Price::parse(text, &two_decimals).unwrap();
        assert_eq!(price.amount_text(), None);
        assert_eq!(price.display(), "N/A");
    }
}

#[test]
fn price_error_messages() {
    assert_eq!(
        parse_message(Price::parse("1.75", &two_decimals)),
        "Missing '$' in price: 1.75"
    );
    assert_eq!(
        parse_message(Price::parse(" $ ", &two_decimals)),
        format!(
            "Invalid price '$': {}",
            "".parse::<f64>().unwrap_err()
        )
    );
    assert_eq!(
        parse_message(Price::parse("$abc", &two_decimals)),
        format!(
            "Invalid price '$abc': {}",
            "abc".parse::<f64>().unwrap_err()
        )
    );
    assert_eq!(
        parse_message(Price::parse("$-0", &two_decimals)),
        "Negative prices are not allowed: $-0"
    );
}

#[test]
fn price_accepts_finite_amounts_only() {
    let price = Price::parse("$1e3", &two_decimals).unwrap();
    assert_eq!(price.display(), "$1000.00");
    for text in ["$inf", "$NaN", "$+Infinity", "$INF"] {
        let t = text.trim();
        assert_eq!(
            parse_message(Price::parse(text, &two_decimals)),
            format!("Invalid price '{t}': not a finite amount")
        );
    }
    assert_eq!(
        parse_message(Price::parse("$-inf", &two_decimals)),
        "Negative prices are not allowed: $-inf"
    );
}

const LIMIT: &str = "179769313486231580793728971405303415079934132710037826936173778980444968292764750946649017977587207096330286416692887910946555547851940402630657488671505820681908902000708383676273854845817711531764475730270069855571366959622842914819860834936475292719074168444365510704342711559699508093042880177904174497792";
const BELOW_LIMIT: &str = "179769313486231580793728971405303415079934132710037826936173778980444968292764750946649017977587207096330286416692887910946555547851940402630657488671505820681908902000708383676273854845817711531764475730270069855571366959622842914819860834936475292719074168444365510704342711559699508093042880177904174497791";

#[test]
fn price_rejects_amounts_too_large_for_f64() {
    for text in ["$1e400", "$1.8e308", "$1,797,693,134,862,315,808e290", "$0.0000000000000000000000000000000000002e347"] {
        assert_eq!(
            parse_message(Price::parse(text, &two_decimals)),
            format!("Invalid price '{text}': not a finite amount")
        );
    }
    let at_limit = format!("${LIMIT}");
    assert_eq!(
        parse_message(Price::parse(&at_limit, &two_decimals)),
        format!("Invalid price '{at_limit}': not a finite amount")
    );
    let below_limit = format!("${BELOW_LIMIT}");
    assert!(Price::parse(&below_limit, &two_decimals).is_ok());
    assert!(Price::parse("$1.7976931348623157e308", &two_decimals).is_ok());
    assert!(Price::parse("$1.7976931348623158e308", &two_decimals).is_ok());
    assert!(Price::parse("$1e-400", &two_decimals).is_ok());
    assert!(Price::parse("$0e99999999999999999999999999999999999", &two_decimals).is_ok());
}

#[test]
fn price_is_accepted_exactly_when_f64_reads_a_finite_amount() {
    let limit_scaled_down = format!("{}.{}e2", &LIMIT[..306], &LIMIT[306..]);
    let limit_with_zeros = format!("000{LIMIT}.000");
    let below_with_point = format!("{}.{}", &BELOW_LIMIT[..100], &BELOW_LIMIT[100..]);
    let limit_fraction = format!("0.{LIMIT}e309");
    let limit_shifted = format!("{LIMIT}0e-1");
    let corpus = [
        "1", "0", "0.5", ".5", "5.", "1e308", "9e308", "1e309", "17976931348623157e292",
        "17976931348623158e292", "17976931348623159e292", "1797693134862315807e289",
        "1797693134862315808e289", "1e+308", "10e307", "100e306", "0.1e310", "0.01e310",
        "1e-99999999999999999999999999999999", "1e99999999999999999999999999999999",
        "0001e308", "1E308", "2E308", "179.7693134862315807937289714053e306",
        "179.7693134862315807937289714054e306", &limit_scaled_down, &limit_with_zeros,
        &below_with_point, &limit_fraction, &limit_shifted, LIMIT, BELOW_LIMIT,
    ];
    for amount in corpus {
        let finite = amount.parse::<f64>().map(|v| v.is_finite()).unwrap_or(false);
        let accepted = Price::parse(&format!("${amount}"), &two_decimals).is_ok();
        assert_eq!(accepted, finite, "{amount}");
    }
}

#[test]
fn labels_read_back() {
    for tier in [Tier::Default, Tier::LongContext] {
        assert_eq!(Tier::try_from(tier.as_str()).unwrap(), tier);
    }
    assert_eq!(Tier::NotApplicable.as_str(), "N/A");
    for status in [
        ReleaseStatus::Ga,
        ReleaseStatus::PublicPreview,
        ReleaseStatus::Preview,
    ] {
        assert_eq!(ReleaseStatus::try_from(status.as_str()).unwrap(), status);
    }
}

#[test]
fn unknown_labels_are_errors() {
    match Tier::try_from("  Premium ") {
        Err(GhLlmCostError::Parse(m)) => assert_eq!(m, "Unknown tier: Premium"),
        other => panic!("{other:?}"),
    }
    match ReleaseStatus::try_from("Beta") {
        Err(GhLlmCostError::Parse(m)) => assert_eq!(m, "Unknown release status: Beta"),
        other => panic!("{other:?}"),
    }
}

#[test]
fn prices_are_equal_when_their_amounts_are_the_same_number() {
    let parse = |text: &str| Price::parse(text, &two_decimals).unwrap();
    assert_eq!(parse("$1.0"), parse("$1.00"));
    assert_eq!(parse("$1e3"), parse("$1,000"));
    assert_eq!(parse("$0.1"), parse("$0.10000000000000000001"));
    assert_eq!(parse(""), parse("Not applicable"));
    assert_eq!(parse("$0"), parse("$1e-400"));
    assert_ne!(parse("$1"), parse("$2"));
    assert_ne!(parse("$0"), parse("Not applicable"));
}
