use lispbm_lsp::text::{chars_of, clean_comment_text, is_whitespace, str_ends_with, str_eq};

#[test]
fn comment_cleaning() {
    assert_eq!(clean_comment_text("; hello"), "hello");
    assert_eq!(clean_comment_text(";;; a b  "), "a b");
    assert_eq!(clean_comment_text(";"), "");
    assert_eq!(clean_comment_text("  ; not stripped"), "; not stripped");
    assert_eq!(clean_comment_text(";\u{a0}nbsp\u{3000}"), "nbsp");
    assert_eq!(clean_comment_text(";x;"), "x;");
}

#[test]
fn whitespace_matches_std() {
    for c in ['\t', '\n', '\u{b}', '\u{c}', '\r', ' ', '\u{85}', '\u{a0}', '\u{1680}', '\u{2000}', '\u{200a}', '\u{2028}', '\u{2029}', '\u{202f}', '\u{205f}', '\u{3000}', 'a', ';', '\u{200b}', '\u{feff}'] {
        assert_eq!(is_whitespace(c), c.is_whitespace(), "{:?}", c);
    }
}

#[test]
fn string_helpers() {
    assert!(str_eq("abc", "abc"));
    assert!(!str_eq("abc", "abd"));
    assert!(str_ends_with("lbm.builtin.ext.toml", ".builtin.ext.toml"));
    assert!(!str_ends_with("toml", ".builtin.ext.toml"));
    assert!(str_ends_with("x", ""));
    assert_eq!(chars_of("héllo"), vec!['h', 'é', 'l', 'l', 'o']);
}
