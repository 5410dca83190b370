use gh_copilot_pricing_tui::data::parse::{
    build_entry, normalize_header, parse_documentation, parse_events, MarkdownEvent,
};
use gh_copilot_pricing_tui::data::{PricingData, ReleaseStatus, Tier};
use gh_copilot_pricing_tui::error::GhLlmCostError;

fn two_decimals(amount: &str) -> (String, u64) {
    amount
        .parse::<f64>()
        .map(|v| (format!("{v:.2}"), v.to_bits()))
        .unwrap_or_default()
}

fn columns(titles: &[&str]) -> Vec<(String, usize)> {
    titles
        .iter()
        .enumerate()
        .map(|(i, t)| (normalize_header(t), i))
        .collect()
}

fn cells(values: &[&str]) -> Vec<String> {
    values.iter().map(|v| v.to_string()).collect()
}

fn parse_error(result: Result<PricingData, GhLlmCostError>) -> String {
    match result {
        Err(GhLlmCostError::Parse(m)) => m,
        other => panic!("expected a parse error, got {other:?}"),
    }
}

#[test]
fn normalize_header_lowercases_non_ascii() {
    assert_eq!(normalize_header("  ÉCHELLE (Σ) "), "échelle_σ");
}

#[test]
fn normalized_headers_hold_no_space_or_parenthesis() {
    for title in ["Threshold (input tokens)", " a (b) c ", "((x))", "Cache  write"] {
        let n = normalize_header(title);
        assert!(!n.contains(' ') && !n.contains('(') && !n.contains(')'), "{n}");
    }
}

#[test]
fn separator_rows_give_no_entry() {
    let cols = columns(&["Model", "Release status", "Category", "Input", "Cached input", "Output"]);
    let row = cells(&["---", " -- ", "|", "", "-", "\u{a0}-"]);
    let entry = build_entry("OpenAI", &row, &cols, &two_decimals).unwrap();
    assert!(entry.is_none());
}

#[test]
fn entry_errors() {
    let cols = columns(&["Model", "Release status", "Category", "Input", "Cached input", "Output"]);
    let row = cells(&["M", "GA", "C", "$1", "$2", "$3"]);
    match build_entry("  ", &row, &cols, &two_decimals) {
        Err(GhLlmCostError::Parse(m)) => {
            assert_eq!(m, "Pricing entry found without a provider heading")
        }
        other => panic!("{other:?}"),
    }
    let short = cells(&["M", "GA", "C", "$1", "$2"]);
    match build_entry("P", &short, &cols, &two_decimals) {
        Err(GhLlmCostError::Parse(m)) => assert_eq!(m, "Row too short, missing output"),
        other => panic!("{other:?}"),
    }
    let few = columns(&["Model", "Release status", "Category", "Input", "Output"]);
    match build_entry("P", &row, &few, &two_decimals) {
        Err(GhLlmCostError::Parse(m)) => assert_eq!(m, "Missing column: cached_input"),
        other => panic!("{other:?}"),
    }
}

#[test]
fn entry_defaults_for_optional_columns() {
    let cols = columns(&["Model", "Release status", "Category", "Input", "Cached input", "Output"]);
    let row = cells(&[" M ", "Preview", "C", "$1", "$0.5", "$3"]);
    let entry = build_entry(" P ", &row, &cols, &two_decimals).unwrap().unwrap();
    assert_eq!(entry.provider, "P");
    assert_eq!(entry.model, "M");
    assert_eq!(entry.release_status, ReleaseStatus::Preview);
    assert_eq!(entry.tier, Tier::NotApplicable);
    assert_eq!(entry.threshold, "N/A");
    assert_eq!(entry.cache_write.amount_text(), None);
    assert_eq!(entry.cached_input.display(), "$0.50");
}

#[test]
fn later_titles_win() {
    let mut cols = columns(&["Model", "Release status", "Category", "Input", "Cached input", "Output"]);
    cols.push(("model".to_owned(), 2));
    let row = cells(&["M", "GA", "C", "$1", "$2", "$3"]);
    let entry = build_entry("P", &row, &cols, &two_decimals).unwrap().unwrap();
    assert_eq!(entry.model, "C");
}

#[test]
fn no_table_is_no_data() {
    match parse_documentation("# Pricing\n\nNothing here.\n", &two_decimals) {
        Err(GhLlmCostError::NoData) => {}
        other => panic!("{other:?}"),
    }
}

#[test]
fn row_without_heading_is_an_error() {
    let doc = "| Model | Release status | Category | Input | Cached input | Output |\n| - | - | - | - | - | - |\n| M | GA | C | $1 | $2 | $3 |\n";
    assert_eq!(
        parse_error(parse_documentation(doc, &two_decimals)),
        "Pricing entry found without a provider heading"
    );
}

#[test]
fn bad_price_in_table_is_an_error() {
    let doc = "### P\n\n| Model | Release status | Category | Input | Cached input | Output |\n| - | - | - | - | - | - |\n| M | GA | C | 1 | $2 | $3 |\n";
    assert_eq!(
        parse_error(parse_documentation(doc, &two_decimals)),
        "Missing '$' in price: 1"
    );
}

#[test]
fn heading_text_and_code_form_the_provider() {
    let doc = "### Open `AI`\n\n| Model | Release status | Category | Input | Cached input | Output |\n| - | - | - | - | - | - |\n| **M** x | GA | C | $1 | $2 | $3 |\n";
    let data = parse_documentation(doc, &two_decimals).unwrap();
    assert_eq!(data.entries[0].provider, "Open AI");
    assert_eq!(data.entries[0].model, "M x");
}

#[test]
fn events_are_read_in_order() {
    let text = |s: &str| MarkdownEvent::Text(s.to_owned());
    let start = |s: &str| MarkdownEvent::Start(s.to_owned());
    let end = |s: &str| MarkdownEvent::End(s.to_owned());
    let mut events = vec![
        start("Heading(H2)"),
        text("Ignored"),
        end("Heading(H2)"),
        start("Heading(H3)"),
        text("Ac"),
        MarkdownEvent::Code("me".to_owned()),
        end("Heading(H3)"),
        start("Table"),
        start("TableHead"),
    ];
    for title in ["Model", "Release status", "Category", "Input", "Cached input", "Output"] {
        events.push(start("TableCell"));
        events.push(text(title));
        events.push(end("TableCell"));
    }
    events.push(end("TableHead"));
    events.push(start("TableRow"));
    for value in ["Rocket", "GA", "Fast", "$1", "$2", "$3"] {
        events.push(start("TableCell"));
        events.push(start("Emphasis"));
        events.push(text(value));
        events.push(end("Emphasis"));
        events.push(MarkdownEvent::SoftBreak);
        events.push(MarkdownEvent::InlineHtml("<br>".to_string()));
        events.push(MarkdownEvent::Rule);
        events.push(end("TableCell"));
    }
    events.push(end("TableRow"));
    events.push(end("Table"));
    let data = parse_events(&events, &two_decimals).unwrap();
    assert_eq!(data.len(), 1);
    assert_eq!(data.entries[0].provider, "Acme");
    assert_eq!(data.entries[0].model, "Rocket");
    assert_eq!(data.entries[0].output.display(), "$3.00");
}

#[test]
fn only_level_three_headings_name_providers() {
    let doc = "## Overview

| Model | Release status | Category | Input | Cached input | Output |
| - | - | - | - | - | - |
| M | GA | C | $1 | $2 | $3 |
";
    assert_eq!(
        parse_error(parse_documentation(doc, &two_decimals)),
        "Pricing entry found without a provider heading"
    );
}

#[test]
fn lookup_keys_are_fixed_points() {
    for key in ["model", "release_status", "category", "tier", "threshold_input_tokens", "input", "cached_input", "cache_write", "output"] {
        assert_eq!(normalize_header(key), key);
    }
    for title in ["Cache write", "Threshold (input tokens)", "Release status"] {
        let key = normalize_header(title);
        assert_eq!(normalize_header(&key), key);
    }
}

#[test]
fn providers_are_grouped_in_order() {
    let doc = "### A\n\n| Model | Release status | Category | Input | Cached input | Output |\n| - | - | - | - | - | - |\n| m1 | GA | C | $1 | $2 | $3 |\n| m2 | GA | C | $1 | $2 | $3 |\n\n### B\n\n| Model | Release status | Category | Input | Cached input | Output |\n| - | - | - | - | - | - |\n| m3 | GA | C | $1 | $2 | $3 |\n\n### A\n\n| Model | Release status | Category | Input | Cached input | Output |\n| - | - | - | - | - | - |\n| m4 | GA | C | $1 | $2 | $3 |\n";
    let data = parse_documentation(doc, &two_decimals).unwrap();
    assert!(!data.is_empty());
    let groups = data.provider_boundaries();
    assert_eq!(
        groups,
        vec![("A".to_owned(), vec![0, 1, 3]), ("B".to_owned(), vec![2])]
    );
}

#[test]
fn first_bad_row_decides() {
    let doc = "### P\n\n| Model | Release status | Category | Input | Cached input | Output |\n| - | - | - | - | - | - |\n| a | GA | C | $1 | $2 | $3 |\n| b | Beta | C | $1 | $2 | $3 |\n| c | GA | C | $1 | $2 | 3 |\n";
    assert_eq!(
        parse_error(parse_documentation(doc, &two_decimals)),
        "Unknown release status: Beta"
    );
}
