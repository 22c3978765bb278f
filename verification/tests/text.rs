use supervisor::text::{
    chars_of, contains, cut, decimal, glue, is_white, join, less, same, strip_prefix, trim,
};

#[test]
fn numbers_in_decimal() {
    assert_eq!(decimal(0), "0");
    assert_eq!(decimal(9), "9");
    assert_eq!(decimal(10), "10");
    assert_eq!(decimal(u64::MAX), u64::MAX.to_string());
}

#[test]
fn occurrences() {
    assert!(contains("is already TLS now", "already TLS"));
    assert!(contains("x", ""));
    assert!(contains("", ""));
    assert!(!contains("", "x"));
    assert!(!contains("already tls", "already TLS"));
    assert!(contains("aab", "ab"));
}

#[test]
fn prefixes() {
    assert_eq!(strip_prefix("~/a", "~/"), Some("a".to_string()));
    assert_eq!(strip_prefix("ab", "ab"), Some(String::new()));
    assert_eq!(strip_prefix("a", "ab"), None);
    assert_eq!(strip_prefix("éa", "é"), Some("a".to_string()));
}

#[test]
fn white_space_is_trimmed_as_std_does() {
    for s in ["", " ", " a b ", "\u{2003}x\u{85}", "\u{200b}x", "a"] {
        assert_eq!(trim(s), s.trim());
    }
    for u in 0..0x3100u32 {
        if let Some(c) = char::from_u32(u) {
            assert_eq!(is_white(c), c.is_whitespace());
        }
    }
}

#[test]
fn cuts() {
    assert_eq!(cut("a/b?c", &['?', '/']), "a");
    assert_eq!(cut("abc", &['/']), "abc");
    assert_eq!(cut("/abc", &['/']), "");
}

#[test]
fn joins() {
    let parts = vec!["a".to_string(), String::new(), "b".to_string()];
    assert_eq!(join(&parts, ", "), "a, , b");
    assert_eq!(join(&vec![], ","), "");
    assert_eq!(glue("a", "b"), "ab");
}

#[test]
fn order() {
    let words = ["", "a", "ab", "b", "é", "𝄞"];
    for (i, x) in words.iter().enumerate() {
        for (j, y) in words.iter().enumerate() {
            assert_eq!(less(x, y), i < j);
            assert_eq!(same(x, y), i == j);
        }
    }
    assert_eq!(chars_of("é𝄞"), vec!['é', '𝄞']);
}
