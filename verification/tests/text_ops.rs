use paramspider::text::char_is_whitespace;
use paramspider::text::{
    chars_of, contains_char, contains_str, replace_str, split_whitespace, string_of, trim_str,
};

#[test]
fn split_whitespace_splits_on_any_white_space() {
    assert_eq!(
        split_whitespace("  a b\n\tc\u{3000}d  "),
        vec!["a".to_string(), "b".to_string(), "c".to_string(), "d".to_string()]
    );
}

#[test]
fn split_whitespace_of_blank_text_is_empty() {
    assert!(split_whitespace("").is_empty());
    assert!(split_whitespace(" \n\t ").is_empty());
}

#[test]
fn split_whitespace_of_one_word_is_that_word() {
    assert_eq!(split_whitespace("https://a.com/?x=1"), vec!["https://a.com/?x=1".to_string()]);
}

#[test]
fn trim_str_removes_outer_white_space() {
    assert_eq!(trim_str("  a b \u{a0}\n"), "a b");
    assert_eq!(trim_str(""), "");
    assert_eq!(trim_str("   "), "");
}

#[test]
fn trim_str_is_idempotent() {
    let once = trim_str("\t x y \r\n");
    assert_eq!(trim_str(&once), once);
}

#[test]
fn replace_str_replaces_from_the_left_without_overlap() {
    assert_eq!(replace_str("aaa", "aa", "b"), "ba");
    assert_eq!(replace_str("https://x https://y", "https://", ""), "x y");
    assert_eq!(replace_str("abc", "z", "q"), "abc");
    assert_eq!(replace_str("hthttp://tp://", "http://", ""), "http://");
}

#[test]
fn contains_str_finds_occurrences() {
    assert!(contains_str("socks5://h:1", "://"));
    assert!(!contains_str("h:1", "://"));
    assert!(contains_str("abc", ""));
    assert!(!contains_str("", "a"));
}

#[test]
fn contains_char_finds_a_character() {
    assert!(contains_char("a?b", '?'));
    assert!(!contains_char("ab", '?'));
}

#[test]
fn chars_round_trip() {
    let v = chars_of("héllo");
    assert_eq!(v, vec!['h', 'é', 'l', 'l', 'o']);
    assert_eq!(string_of(&v), "héllo");
}

#[test]
fn char_is_whitespace_agrees_with_std() {
    for n in 0u32..0x3100 {
        if let Some(c) = char::from_u32(n) {
            assert_eq!(char_is_whitespace(c), c.is_whitespace(), "{n:#x}");
        }
    }
}
