use gh_copilot_pricing_tui::app::AppState;
use gh_copilot_pricing_tui::data::{LlmCostEntry, Price, ReleaseStatus, Tier};
use gh_copilot_pricing_tui::error::GhLlmCostError;

fn two_decimals(amount: &str) -> (String, u64) {
    amount
        .parse::<f64>()
        .map(|v| (format!("{v:.2}"), v.to_bits()))
        .unwrap_or_default()
}

fn sample_entry() -> Result<LlmCostEntry, GhLlmCostError> {
    Ok(LlmCostEntry {
        provider: "OpenAI".to_owned(),
        model: "GPT-5 mini".to_owned(),
        release_status: ReleaseStatus::Ga,
        category: "Lightweight".to_owned(),
        tier: Tier::Default,
        threshold: "Not applicable".to_owned(),
        input: Price::parse("$0.25", &two_decimals)?,
        cached_input: Price::parse("$0.025", &two_decimals)?,
        cache_write: Price::parse("Not applicable", &two_decimals)?,
        output: Price::parse("$2.00", &two_decimals)?,
    })
}

fn dummy_entries(count: usize) -> Result<Vec<LlmCostEntry>, GhLlmCostError> {
    let base = LlmCostEntry {
        provider: "Test".to_owned(),
        model: "Model".to_owned(),
        release_status: ReleaseStatus::Ga,
        category: "Cat".to_owned(),
        tier: Tier::Default,
        threshold: "N/A".to_owned(),
        input: Price::parse("$1.00", &two_decimals)?,
        cached_input: Price::parse("$0.10", &two_decimals)?,
        cache_write: Price::parse("Not applicable", &two_decimals)?,
        output: Price::parse("$2.00", &two_decimals)?,
    };
    Ok(vec![base; count])
}

#[test]
fn app_state_navigation() -> Result<(), GhLlmCostError> {
    let entries = vec![sample_entry()?; 5];
    let mut state = AppState::new(entries);

    assert_eq!(state.selected(), 0);
    state.next();
    assert_eq!(state.selected(), 1);
    state.previous();
    assert_eq!(state.selected(), 0);
    state.go_to_bottom();
    assert_eq!(state.selected(), 4);
    state.next();
    assert_eq!(state.selected(), 4);
    Ok(())
}

#[test]
fn headers_match_row_length() -> Result<(), GhLlmCostError> {
    let entry = sample_entry()?;
    assert_eq!(LlmCostEntry::headers().len(), entry.row().len());
    Ok(())
}

#[test]
fn empty_state_stays_at_zero() {
    let state = AppState::new(vec![]);
    assert_eq!(state.selected(), 0);
}

#[test]
fn navigation_bounds() -> Result<(), GhLlmCostError> {
    let mut state = AppState::new(dummy_entries(3)?);
    assert_eq!(state.selected(), 0);
    state.previous();
    assert_eq!(state.selected(), 0);
    state.go_to_bottom();
    assert_eq!(state.selected(), 2);
    state.next();
    assert_eq!(state.selected(), 2);
    Ok(())
}
