use gh_copilot_pricing_tui::data::amount::is_float_text;
use gh_copilot_pricing_tui::text::{is_whitespace, trim};

#[test]
fn whitespace_matches_char_is_whitespace() {
    for code in 0u32..=0x10FFFF {
        if let Some(c) = char::from_u32(code) {
            assert_eq!(is_whitespace(c), c.is_whitespace(), "U+{code:04X}");
        }
    }
}

#[test]
fn trim_matches_str_trim() {
    for s in ["", "  ", " a ", "\u{3000}x\u{85}", "\tab c\n", "x", "\u{a0} y \u{2028}"] {
        assert_eq!(trim(s), s.trim());
    }
}

fn float_corpus() -> Vec<String> {
    let alphabet = ['1', '0', '.', 'e', 'E', '-', '+', 'x', '_'];
    let mut out: Vec<String> = vec![String::new()];
    let mut layer: Vec<String> = vec![String::new()];
    for _ in 0..4 {
        let mut next = Vec::new();
        for s in &layer {
            for c in alphabet {
                let mut t = s.clone();
                t.push(c);
                next.push(t);
            }
        }
        out.extend(next.iter().cloned());
        layer = next;
    }
    for s in [
        "inf", "INF", "Infinity", "infinity", "-inf", "+Infinity", "nan", "NaN", "-nan", "+nan",
        "in", "infinit", "infinityy", "nana", "1.75", "0.025", " 1", "1 ", "12e-3", ".5", "5.",
        "1e", "1e+", "0x10", "1_000", "--1", "+-1", "1.2.3", "e5", "\u{661}",
    ] {
        out.push(s.to_owned());
    }
    out
}

#[test]
fn float_grammar_matches_f64_parsing() {
    for s in float_corpus() {
        assert_eq!(is_float_text(&s), s.parse::<f64>().is_ok(), "{s:?}");
    }
}

#[test]
fn negative_sign_matches_f64_sign() {
    for s in float_corpus() {
        if let Ok(v) = s.parse::<f64>() {
            assert_eq!(s.starts_with('-'), v.is_sign_negative(), "{s:?}");
        }
    }
}
