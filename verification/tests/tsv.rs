use gh_copilot_pricing_tui::data::{LlmCostEntry, Price, ReleaseStatus, Tier};
use gh_copilot_pricing_tui::error::GhLlmCostError;
use gh_copilot_pricing_tui::ui::build_table_tsv;
use gh_copilot_pricing_tui::ui::clipboard::build_tsv;

fn two_decimals(amount: &str) -> (String, u64) {
    amount
        .parse::<f64>()
        .map(|v| (format!("{v:.2}"), v.to_bits()))
        .unwrap_or_default()
}

fn sample_entry() -> Result<LlmCostEntry, GhLlmCostError> {
    Ok(LlmCostEntry {
        provider: "OpenAI".to_owned(),
        model: "GPT-5 mini".to_owned(),
        release_status: ReleaseStatus::Ga,
        category: "Lightweight".to_owned(),
        tier: Tier::Default,
        threshold: "Not applicable".to_owned(),
        input: Price::parse("$0.25", &two_decimals)?,
        cached_input: Price::parse("$0.025", &two_decimals)?,
        cache_write: Price::parse("Not applicable", &two_decimals)?,
        output: Price::parse("$2.00", &two_decimals)?,
    })
}

#[test]
fn tsv_includes_headers_and_rows() -> Result<(), GhLlmCostError> {
    let entries = vec![sample_entry()?];
    let tsv = build_tsv(&entries);

    let lines: Vec<&str> = tsv.lines().collect();
    assert_eq!(lines.len(), 2);
    assert_eq!(
        lines[0],
        "Provider\tModel\tRelease status\tCategory\tTier\tThreshold\tInput\tCached input\tCache write\tOutput"
    );
    assert!(lines[1].starts_with("OpenAI\tGPT-5 mini\tGA"));
    Ok(())
}

#[test]
fn tsv_escapes_tabs_and_newlines() -> Result<(), GhLlmCostError> {
    let mut entry = sample_entry()?;
    entry.provider = "Open\tAI".to_owned();
    entry.model = "GPT\n5".to_owned();

    let tsv = build_tsv(&[entry]);
    let row = tsv.lines().nth(1).unwrap_or_default();
    let cells: Vec<&str> = row.split('\t').collect();

    assert_eq!(cells[0], "Open AI");
    assert_eq!(cells[1], "GPT 5");
    Ok(())
}

#[test]
fn tsv_strips_dollar_prefix() -> Result<(), GhLlmCostError> {
    let entries = vec![sample_entry()?];
    let tsv = build_tsv(&entries);
    let row = tsv.lines().nth(1).unwrap_or_default();
    let cells: Vec<&str> = row.split('\t').collect();

    assert_eq!(cells[6], "0.25");
    assert_eq!(cells[7], "0.03");
    assert_eq!(cells[8], "N/A");
    assert_eq!(cells[9], "2.00");
    Ok(())
}

#[test]
fn empty_table_has_only_header_row() {
    let tsv = build_table_tsv(&[]);
    assert_eq!(tsv.lines().count(), 1);
}
