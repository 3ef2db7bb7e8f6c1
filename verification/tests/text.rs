use arch_run::text::{
    chars_of, decimal_text, head_before, join_texts, same, skip_leading, space, split_lines, split_words, strip_text,
    trimmed,
};

fn samples() -> Vec<&'static str> {
    vec![
        "", " ", "\n", "\r\n", "\r", "a", " a", "a ", "a b", "  a \t b\u{a0}c ", "a\nb", "a\r\nb\r\n", "a\r", "a\n\nb\n",
        "\n\n", "\u{3000}x\u{2003}y\u{2028}z", "na\u{ef}ve \u{1f600} text", "a\rb\n", "x\u{200b}y", "\u{85}q",
    ]
}

#[test]
fn white_space_agrees_with_std() {
    for u in 0..0x110000u32 {
        if let Some(c) = char::from_u32(u) {
            assert_eq!(space(c), c.is_whitespace(), "{u:x}");
        }
    }
}

#[test]
fn splitting_agrees_with_std() {
    for s in samples() {
        let words: Vec<String> = s.split_whitespace().map(|w| w.to_string()).collect();
        assert_eq!(split_words(s), words, "{s:?}");
        let lines: Vec<String> = s.lines().map(|w| w.to_string()).collect();
        assert_eq!(split_lines(s), lines, "{s:?}");
        assert_eq!(trimmed(s), s.trim(), "{s:?}");
        let chars: Vec<char> = s.chars().collect();
        assert_eq!(chars_of(s), chars, "{s:?}");
    }
}

#[test]
fn cutting_agrees_with_std() {
    for s in [":0", ":0.1", "0", "", "::1.2.3", "host:0.0", ".5", ":.", "\u{e9}.x"] {
        assert_eq!(skip_leading(s, ':'), s.trim_start_matches(':'), "{s:?}");
        assert_eq!(head_before(s, '.'), s.split('.').next().unwrap_or("0"), "{s:?}");
        assert_eq!(strip_text(s, ":0"), s.strip_prefix(":0").map(|r| r.to_string()), "{s:?}");
    }
    assert_eq!(strip_text("abc", ""), Some("abc".to_string()));
    assert_eq!(strip_text("a", "abc"), None);
}

#[test]
fn joining_puts_separators_between() {
    assert_eq!(join_texts(&vec![], ", "), "");
    assert_eq!(join_texts(&vec!["a".to_string()], ", "), "a");
    assert_eq!(join_texts(&vec!["a".to_string(), String::new(), "c".to_string()], ", "), "a, , c");
}

#[test]
fn numbers_are_written_in_decimal() {
    for n in [0usize, 7, 9, 10, 19, 100, 90210, usize::MAX] {
        assert_eq!(decimal_text(n), n.to_string());
    }
}

#[test]
fn equal_texts_are_the_same() {
    assert!(same("x", "x"));
    assert!(!same("x", "X"));
    assert!(!same("x", ""));
}
