use supervisor::json::json_escape;

#[test]
fn escapes_quotes_backslashes_and_controls() {
    assert_eq!(json_escape("a\"b\\c\nd\re\tf"), "a\\\"b\\\\c\\nd\\re\\tf");
    assert_eq!(json_escape("\u{0}\u{1f}\u{8}"), "\\u0000\\u001f\\u0008");
}

#[test]
fn plain_text_is_kept() {
    assert_eq!(json_escape("plain é \u{7f}"), "plain é \u{7f}");
    assert_eq!(json_escape(""), "");
}

#[test]
fn what_is_escaped_reads_back() {
    let all: String = (0u32..0x300).filter_map(char::from_u32).collect();
    let quoted = format!("\"{}\"", json_escape(&all));
    let back: String = serde_json::from_str(&quoted).unwrap();
    assert_eq!(back, all);
}
