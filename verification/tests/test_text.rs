use ouou_dictation::text::{is_white_space_char, join_words, parse_usize, trim};

#[test]
fn trim_removes_surrounding_whitespace() {
    assert_eq!(trim("  hello world \n"), "hello world");
    assert_eq!(trim("\t\r\n"), "");
    assert_eq!(trim(""), "");
    assert_eq!(trim("\u{3000}学生\u{3000}"), "学生");
    assert_eq!(trim("a b"), "a b");
}

#[test]
fn trim_agrees_with_std() {
    for s in ["  x ", "\u{85}y\u{a0}", "\u{2009}z\u{200b}", " \u{1680}", "q\n"] {
        assert_eq!(trim(s), s.trim());
    }
}

#[test]
fn trim_is_idempotent() {
    let once = trim("  dictation\t");
    assert_eq!(trim(&once), once);
}

#[test]
fn white_space_property() {
    assert!(is_white_space_char(' '));
    assert!(is_white_space_char('\u{3000}'));
    assert!(!is_white_space_char('\u{200b}'));
    assert!(!is_white_space_char('a'));
}

#[test]
fn parse_usize_agrees_with_std() {
    for s in [
        "0", "7", "+7", "007", "", "+", "-1", "-0", "1a", " 1", "18446744073709551615",
        "18446744073709551616", "99999999999999999999999", "++1",
    ] {
        assert_eq!(parse_usize(s), s.parse::<usize>().ok(), "input {s:?}");
    }
}

#[test]
fn parse_usize_values() {
    assert_eq!(parse_usize("42"), Some(42));
    assert_eq!(parse_usize("+3"), Some(3));
    assert_eq!(parse_usize("q"), None);
}

#[test]
fn join_words_with_spaces() {
    let words = vec!["a".to_string(), "bc".to_string(), "d".to_string()];
    assert_eq!(join_words(&words, " "), "a bc d");
    assert_eq!(join_words(&Vec::new(), " "), "");
    assert_eq!(join_words(&vec!["one".to_string()], " "), "one");
}
