use oxc_svelte_backend::text::{bytes_at, find_bytes, is_name_at, same_text};

#[test]
fn finds_the_first_occurrence() {
    assert_eq!(find_bytes(b"abcabc", 0, b"bc"), Some(1));
    assert_eq!(find_bytes(b"abcabc", 2, b"bc"), Some(4));
    assert_eq!(find_bytes(b"abcabc", 5, b"bc"), None);
    assert_eq!(find_bytes(b"abc", 0, b""), Some(0));
    assert_eq!(find_bytes(b"", 0, b"a"), None);
}

#[test]
fn needle_has_to_fit() {
    assert!(bytes_at(b"abc", 1, b"bc"));
    assert!(!bytes_at(b"abc", 2, b"bc"));
    assert!(!bytes_at(b"abc", 7, b"c"));
    assert!(!bytes_at(b"abc", usize::MAX, b"c"));
    assert!(bytes_at(b"abc", 3, b""));
}

#[test]
fn names_stand_at_character_boundaries() {
    assert!(is_name_at("let count = 1", 4, "count"));
    assert!(is_name_at("counter", 0, "count"));
    assert!(!is_name_at("let count = 1", 3, "count"));
    assert!(!is_name_at("let count", 9, "count"));
    assert!(!is_name_at("let count", u32::MAX, "count"));
    assert!(is_name_at("\u{e9}x", 2, "x"));
    assert!(is_name_at("\u{e9}x", 2, ""));
    assert!(!is_name_at("\u{e9}x", 1, ""));
}

#[test]
fn same_texts_are_equal() {
    assert!(same_text("", ""));
    assert!(same_text("\u{e9}a", "\u{e9}a"));
    assert!(!same_text("a", "ab"));
    assert!(!same_text("ab", "ac"));
}
