use tabjson::error::prefixed;
use tabjson::text::{push_escaped, push_escaped_char, same_text};

fn escaped(s: &str) -> String {
    let mut out = String::new();
    push_escaped(&mut out, s);
    out
}

#[test]
fn plain_text_is_not_changed() {
    assert_eq!(escaped("plain text 123"), "plain text 123");
    assert_eq!(escaped(""), "");
    assert_eq!(escaped("it's / fine"), "it's / fine");
}

#[test]
fn quotes_and_backslashes_are_escaped() {
    assert_eq!(escaped(r#"a"b"#), r#"a\"b"#);
    assert_eq!(escaped(r"a\b"), r"a\\b");
    assert_eq!(escaped(r#"\""#), r#"\\\""#);
}

#[test]
fn control_characters_are_escaped() {
    assert_eq!(escaped("\n\r\t"), r"\n\r\t");
    assert_eq!(escaped("\u{8}\u{c}"), r"\b\f");
    assert_eq!(escaped("\u{0}"), r"\u0000");
    assert_eq!(escaped("\u{1}\u{b}\u{1f}"), r"\u0001\u000b\u001f");
    assert_eq!(escaped("\u{1a}"), r"\u001a");
}

#[test]
fn characters_from_space_on_stand_as_they_are() {
    assert_eq!(escaped(" \u{7f}é日本€😀"), " \u{7f}é日本€😀");
}

#[test]
fn escaping_appends_to_what_is_there() {
    let mut out = String::from("k:");
    push_escaped(&mut out, "a\"");
    assert_eq!(out, "k:a\\\"");
    push_escaped_char(&mut out, '\n');
    push_escaped_char(&mut out, 'z');
    assert_eq!(out, "k:a\\\"\\nz");
}

#[test]
fn escaped_text_is_read_back_by_a_json_parser() {
    for s in ["a\"b\\c", "line\nbreak\ttab", "\u{0}\u{1f}\u{8}\u{c}", "é日本 ' /"] {
        let literal = format!("\"{}\"", escaped(s));
        assert_eq!(serde_json::from_str::<String>(&literal).unwrap(), s);
    }
}

#[test]
fn same_text_compares_characters() {
    assert!(same_text("abc", "abc"));
    assert!(same_text("", ""));
    assert!(!same_text("abc", "abd"));
    assert!(!same_text("abc", "ABC"));
    assert!(!same_text("abc", "ab"));
}

#[test]
fn prefixed_joins_two_texts() {
    assert_eq!(prefixed("Flattening error: ", "why"), "Flattening error: why");
    assert_eq!(prefixed("", ""), "");
}
