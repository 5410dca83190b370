use gh_copilot_pricing_tui::app::{help_text, AppState, Key, KeyOutcome};
use gh_copilot_pricing_tui::data::{LlmCostEntry, Price, ReleaseStatus, Tier};
use gh_copilot_pricing_tui::ui::build_table_tsv;
use gh_copilot_pricing_tui::ui::clipboard::{cleanup_cell, strip_dollar};

fn two_decimals(amount: &str) -> (String, u64) {
    amount
        .parse::<f64>()
        .map(|v| (format!("{v:.2}"), v.to_bits()))
        .unwrap_or_default()
}

fn entry(provider: &str) -> LlmCostEntry {
    LlmCostEntry {
        provider: provider.to_owned(),
        model: "M\tx".to_owned(),
        release_status: ReleaseStatus::PublicPreview,
        category: "C\n".to_owned(),
        tier: Tier::LongContext,
        threshold: "> 200K".to_owned(),
        input: Price::parse("$1", &two_decimals).unwrap(),
        cached_input: Price::parse("$0.015", &two_decimals).unwrap(),
        cache_write: Price::parse("Not applicable", &two_decimals).unwrap(),
        output: Price::parse("$12.5", &two_decimals).unwrap(),
    }
}

#[test]
fn tsv_has_one_line_per_entry_and_ten_cells_per_line() {
    let entries = vec![entry("A"), entry("B\nC"), entry("D")];
    let tsv = build_table_tsv(&entries);
    let lines: Vec<&str> = tsv.split('\n').collect();
    assert_eq!(lines.len(), entries.len() + 1);
    for line in lines {
        assert_eq!(line.split('\t').count(), LlmCostEntry::headers().len());
    }
}

#[test]
fn row_shows_labels_and_prices() {
    let row = entry("A").row();
    assert_eq!(
        row,
        vec!["A", "M\tx", "Public preview", "C\n", "Long context", "> 200K", "$1.00", "$0.01", "N/A", "$12.50"]
    );
}

#[test]
fn cell_helpers() {
    assert_eq!(strip_dollar("$4.00 "), "4.00");
    assert_eq!(strip_dollar("$$4"), "$4");
    assert_eq!(strip_dollar(" N/A "), " N/A ");
    assert_eq!(strip_dollar("  $4.00 "), "  $4.00 ");
    assert_eq!(cleanup_cell("a\tb\nc"), "a b c");
    assert_eq!(cleanup_cell(&cleanup_cell("a\tb")), cleanup_cell("a\tb"));
}

#[test]
fn keys_move_the_cursor() {
    let mut state = AppState::new(vec![entry("A"); 30]);
    assert_eq!(state.handle_key(Key::PageDown), KeyOutcome::Redraw);
    assert_eq!(state.selected(), 20);
    assert_eq!(state.handle_key(Key::PageDown), KeyOutcome::Redraw);
    assert_eq!(state.selected(), 29);
    assert_eq!(state.handle_key(Key::Char('k')), KeyOutcome::Redraw);
    assert_eq!(state.selected(), 28);
    assert_eq!(state.handle_key(Key::PageUp), KeyOutcome::Redraw);
    assert_eq!(state.selected(), 8);
    assert_eq!(state.handle_key(Key::PageUp), KeyOutcome::Redraw);
    assert_eq!(state.selected(), 0);
    assert_eq!(state.handle_key(Key::End), KeyOutcome::Redraw);
    assert_eq!(state.selected(), 29);
    assert_eq!(state.handle_key(Key::Home), KeyOutcome::Redraw);
    assert_eq!(state.selected(), 0);
    assert_eq!(state.handle_key(Key::Char('j')), KeyOutcome::Redraw);
    assert_eq!(state.selected(), 1);
    assert_eq!(state.handle_key(Key::Char('x')), KeyOutcome::Ignored);
    assert_eq!(state.handle_key(Key::Char('c')), KeyOutcome::Copy);
    assert_eq!(state.handle_key(Key::Esc), KeyOutcome::Quit);
    assert_eq!(state.handle_key(Key::Char('q')), KeyOutcome::Quit);
    assert_eq!(state.selected(), 1);
}

#[test]
fn empty_table_keeps_cursor_at_zero() {
    let mut state = AppState::new(vec![]);
    for key in [Key::Down, Key::End, Key::PageDown, Key::Up, Key::PageUp] {
        state.handle_key(key);
        assert_eq!(state.selected(), 0);
    }
}

#[test]
fn copy_status_is_shown_once() {
    let mut state = AppState::new(vec![entry("A"); 12]);
    state.record_copy(Ok(()));
    let status = state.take_status();
    assert_eq!(status.as_deref(), Some("Copied 12 rows to clipboard"));
    assert_eq!(state.take_status(), None);
    state.record_copy(Err("no clipboard".to_owned()));
    assert_eq!(
        help_text(state.take_status()),
        "Failed to copy: no clipboard | q/Esc: quit | ↑/k ↓/j: move | PgUp/PgDown: page | Home/End: top/bottom | c: copy"
    );
    assert_eq!(
        help_text(None),
        "q/Esc: quit | ↑/k ↓/j: move | PgUp/PgDown: page | Home/End: top/bottom | c: copy"
    );
}

#[test]
fn copy_status_counts_rows() {
    let mut state = AppState::new(vec![]);
    state.record_copy(Ok(()));
    assert_eq!(state.take_status().as_deref(), Some("Copied 0 rows to clipboard"));
    let mut state = AppState::new(vec![entry("A"); 100]);
    state.record_copy(Ok(()));
    assert_eq!(state.take_status().as_deref(), Some("Copied 100 rows to clipboard"));
}
