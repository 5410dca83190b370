use gh_copilot_pricing_tui::data::parse::{normalize_header, parse_documentation};
use gh_copilot_pricing_tui::data::Tier;

fn two_decimals(amount: &str) -> (String, u64) {
    amount
        .parse::<f64>()
        .map(|v| (format!("{v:.2}"), v.to_bits()))
        .unwrap_or_default()
}

const SAMPLE: &str = r#"
### OpenAI

| Model      | Release status | Category | Tier         | Threshold (input tokens) |  Input | Cached input | Cache write | Output |
| ---------- | -------------- | -------- | ------------ | ------------------------ | -----: | -----------: | ----------: | -----: |
| GPT-5 mini | GA             | Lightweight | Default   | Not applicable           |  $0.25 |       $0.025 | Not applicable |  $2.00 |

### Moonshot AI

| Model          | Release status | Category  | Input | Cached input | Output |
| -------------- | -------------- | --------- | ----: | -----------: | -----: |
| Kimi K2.7 Code | GA             | Versatile | $0.95 |        $0.19 |  $4.00 |
"#;

#[test]
fn parse_sample_documentation() {
    let data = parse_documentation(SAMPLE, &two_decimals).unwrap();
    assert_eq!(data.len(), 2);

    let openai = data
        .entries
        .iter()
        .find(|e| e.provider == "OpenAI")
        .unwrap();
    assert_eq!(openai.model, "GPT-5 mini");
    assert_eq!(openai.tier, Tier::Default);
    let input: f64 = openai.input.amount_text().unwrap().parse().unwrap();
    assert!((input - 0.25).abs() < f64::EPSILON);
    assert!(openai.cache_write.amount_text().is_none());

    let moonshot = data
        .entries
        .iter()
        .find(|e| e.provider == "Moonshot AI")
        .unwrap();
    assert_eq!(moonshot.model, "Kimi K2.7 Code");
    assert_eq!(moonshot.tier, Tier::NotApplicable);
}

#[test]
fn normalize_header_strips_punctuation_and_spaces() {
    assert_eq!(
        normalize_header("Threshold (input tokens)"),
        "threshold_input_tokens"
    );
    assert_eq!(normalize_header("Cached input"), "cached_input");
}
