use resume_builder::settings::{settings_or_default, LlmSettings};
use resume_builder::text::{contains_text, is_whitespace, parse_i32, render_i32, trim, trim_end_char};

#[test]
fn default_settings() {
    let s = LlmSettings::default();
    assert_eq!(s.mode, "cloud");
    assert_eq!(s.ollama_model.as_deref(), Some("qwen3.5:9b"));
    assert_eq!(s.ollama_url.as_deref(), Some("http://localhost:11434"));
    assert_eq!(s.api_key, None);
    assert_eq!(s.cloud_model.as_deref(), Some("gemini-2.5-flash"));
}

#[test]
fn stored_settings_win_over_defaults() {
    let stored = LlmSettings {
        mode: "local".to_string(),
        ollama_model: None,
        ollama_url: None,
        api_key: Some("SECRET-REDACTED".to_string()),
        cloud_model: Some("gemini-pro".to_string()),
    };
    let s = settings_or_default(Some(stored));
    assert_eq!(s.mode, "local");
    assert_eq!(s.api_key.as_deref(), Some("SECRET-REDACTED"));
    assert_eq!(s.ollama_model, None);
    let d = settings_or_default(None);
    assert_eq!(d.mode, "cloud");
    assert_eq!(d.cloud_model.as_deref(), Some("gemini-2.5-flash"));
}

#[test]
fn trim_matches_std() {
    for s in ["", "   ", " a ", "\t\nab c\r\n", "\u{A0}x\u{3000}", "no-space", " é "] {
        assert_eq!(trim(s), s.trim());
    }
}

#[test]
fn trim_end_char_strips_only_the_end() {
    assert_eq!(trim_end_char("//a//", '/'), "//a");
    assert_eq!(trim_end_char("////", '/'), "");
    assert_eq!(trim_end_char("abc", '/'), "abc");
}

#[test]
fn decimal_round_trip() {
    for n in [0, 7, 10, 8192, -1, -45, i32::MAX, i32::MIN] {
        assert_eq!(render_i32(n), n.to_string());
        assert_eq!(parse_i32(&render_i32(n)), Some(n));
    }
}

#[test]
fn parse_i32_matches_std() {
    for s in ["", "+", "-", "12", "+12", "-12", "007", "1 ", "1_000", "2147483647", "2147483648",
        "-2147483648", "-2147483649", "99999999999999999999", "٣"] {
        assert_eq!(parse_i32(s), s.parse::<i32>().ok(), "input {:?}", s);
    }
}

#[test]
fn contains_text_compares_whole_strings() {
    let v = vec!["ab".to_string(), "c".to_string()];
    assert!(contains_text(&v, &"c".to_string()));
    assert!(!contains_text(&v, &"a".to_string()));
    assert!(!contains_text(&vec![], &"a".to_string()));
}

#[test]
fn is_whitespace_matches_std_on_every_char() {
    for u in 0u32..=0x10FFFF {
        if let Some(c) = char::from_u32(u) {
            assert_eq!(is_whitespace(c), c.is_whitespace(), "U+{:04X}", u);
        }
    }
}

#[test]
fn trim_is_idempotent() {
    for s in ["  2\n", "\u{3000}a b\u{85}", "   ", "x"] {
        assert_eq!(trim(&trim(s)), trim(s));
    }
    assert_eq!(trim("  2\n"), "2");
}
