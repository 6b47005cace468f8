use oxc_svelte_backend::{
    positions_fit, source_position, Span, SvelteSourcePosition, SvelteSourceRange,
};

fn position(line: u32, column: u32) -> SvelteSourcePosition {
    SvelteSourcePosition { line, column }
}

#[test]
fn position_counts_lines_from_one() {
    let source = "a\nbc";
    assert_eq!(source_position(source, 0), position(1, 0));
    assert_eq!(source_position(source, 1), position(1, 1));
    assert_eq!(source_position(source, 2), position(2, 0));
    assert_eq!(source_position(source, 3), position(2, 1));
}

#[test]
fn position_of_empty_source_is_its_start() {
    assert_eq!(source_position("", 0), position(1, 0));
    assert_eq!(source_position("", 7), position(1, 0));
}

#[test]
fn position_behind_the_text_is_its_end() {
    assert_eq!(source_position("a\nbc", 4), position(2, 2));
    assert_eq!(source_position("a\nbc", 5), position(2, 2));
    assert_eq!(source_position("a\nbc", u32::MAX), position(2, 2));
    assert_eq!(source_position("a\n", 2), position(2, 0));
}

#[test]
fn position_counts_bytes_in_columns() {
    let source = "\u{e9}\u{1f600}x";
    assert_eq!(source_position(source, 2), position(1, 2));
    assert_eq!(source_position(source, 6), position(1, 6));
    assert_eq!(source_position(source, 3), position(1, 3));
}

#[test]
fn carriage_returns_stay_in_their_line() {
    let source = "a\r\nb";
    assert_eq!(source_position(source, 2), position(1, 2));
    assert_eq!(source_position(source, 3), position(2, 0));
}

#[test]
fn positions_keep_the_order_of_offsets() {
    let source = "ab\n\ncd\ne";
    let positions: Vec<(u32, u32)> = (0..=8)
        .map(|offset| {
            let position = source_position(source, offset);
            (position.line, position.column)
        })
        .collect();
    let mut sorted = positions.clone();
    sorted.sort();
    sorted.dedup();
    assert_eq!(positions, sorted);
}

#[test]
fn range_has_the_positions_of_its_ends() {
    let range = SvelteSourceRange::new("ab\ncd", 1, 4);
    assert_eq!(range.span, Span { start: 1, end: 4 });
    assert_eq!(range.start, position(1, 1));
    assert_eq!(range.end, position(2, 1));
}

#[test]
fn range_keeps_offsets_behind_the_text() {
    let range = SvelteSourceRange::new("ab", 5, 9);
    assert_eq!(range.span, Span::new(5, 9));
    assert_eq!(range.start, position(1, 2));
    assert_eq!(range.end, position(1, 2));
}

#[test]
fn ordinary_sources_have_fitting_positions() {
    assert!(positions_fit(""));
    assert!(positions_fit("\n\n\n"));
    assert!(positions_fit("<p>text</p>\n"));
}
