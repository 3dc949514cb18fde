use sel_deploy::util::{command_line, ellipsize, prefix};

#[test]
fn prefix_never_panics() {
    assert_eq!(prefix("abcdef", 3), "abc");
    assert_eq!(prefix("ab", 8), "ab");
    assert_eq!(prefix("", 4), "");
}

#[test]
fn ellipsize_short_is_unchanged() {
    assert_eq!(ellipsize("hello", 10), "hello");
    assert_eq!(ellipsize("hello world", 8), "hello...");
}

#[test]
fn prefix_counts_characters() {
    // "é" is one character of two bytes.
    assert_eq!(prefix("éa", 1), "é");
    assert_eq!(prefix("é", 1), "é");
    assert_eq!(prefix("aé", 1), "a");
    assert_eq!(prefix("日本語テキスト", 3), "日本語");
}

#[test]
fn ellipsize_tiny_width_keeps_only_dots() {
    assert_eq!(ellipsize("abcdef", 2), "...");
    assert_eq!(ellipsize("abcdef", 6), "abcdef");
    assert_eq!(ellipsize("abcdefg", 6), "abc...");
}

#[test]
fn command_line_joins_or_shows_a_dash() {
    assert_eq!(command_line(&[]), "\u{2014}");
    assert_eq!(command_line(&["kubectl".to_string(), "apply".to_string()]), "kubectl apply");
}
