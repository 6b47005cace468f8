use oxc_svelte_backend::order::{insert_unique, sort_by_start, Ordered};
use oxc_svelte_backend::{Span, SvelteComment, SvelteCommentKind, SvelteSourceRange};

fn comment(start: u32, text: &str) -> SvelteComment {
    SvelteComment {
        kind: SvelteCommentKind::Html,
        range: SvelteSourceRange::new("", start, start),
        text: text.to_string(),
    }
}

fn texts(comments: &[SvelteComment]) -> Vec<&str> {
    comments.iter().map(|comment| comment.text.as_str()).collect()
}

#[test]
fn sorting_keeps_the_order_of_equal_starts() {
    let mut comments =
        vec![comment(4, "a"), comment(1, "b"), comment(4, "c"), comment(0, "d"), comment(1, "e")];
    sort_by_start(&mut comments);
    assert_eq!(texts(&comments), ["d", "b", "e", "a", "c"]);
    sort_by_start(&mut comments);
    assert_eq!(texts(&comments), ["d", "b", "e", "a", "c"]);
}

#[test]
fn sorting_nothing_gives_nothing() {
    let mut comments: Vec<SvelteComment> = vec![];
    sort_by_start(&mut comments);
    assert!(comments.is_empty());
}

#[test]
fn inserted_values_are_ascending_and_unique() {
    let mut starts: Vec<u32> = vec![];
    for start in [5, 1, 5, 9, 0, 1] {
        insert_unique(&mut starts, start);
    }
    assert_eq!(starts, [0, 1, 5, 9]);

    let mut spans: Vec<Span> = vec![];
    for (start, end) in [(2, 9), (2, 3), (0, 7), (2, 9)] {
        insert_unique(&mut spans, Span::new(start, end));
    }
    assert_eq!(spans, [Span::new(0, 7), Span::new(2, 3), Span::new(2, 9)]);
}

#[test]
fn insertion_order_does_not_matter() {
    let mut one: Vec<String> = vec![];
    let mut other: Vec<String> = vec![];
    for name in ["b", "a", "c"] {
        insert_unique(&mut one, name.to_string());
    }
    for name in ["c", "b", "c", "a"] {
        insert_unique(&mut other, name.to_string());
    }
    assert_eq!(one, other);
}

#[test]
fn texts_are_ordered_by_their_bytes() {
    let before = |a: &str, b: &str| a.to_string().is_before(&b.to_string());
    assert!(before("", "a"));
    assert!(before("a", "ab"));
    assert!(before("B", "a"));
    assert!(before("z", "\u{e9}"));
    assert!(!before("a", "a"));
    assert!(!before("b", "a"));
    assert!(!before("ab", "a"));
    for (a, b) in [("$$props", "$$restProps"), ("\u{ffff}", "\u{10000}"), ("ab", "b")] {
        assert_eq!(before(a, b), a < b);
    }
}
