//! Byte spans and line / column positions in a source text.

use vstd::prelude::*;
use vstd::utf8::encode_utf8;

verus! {

/// Zero-based, half-open byte span.
#[derive(Debug, Clone, Copy, PartialEq, Eq, Structural)]
pub struct Span {
    pub start: u32,
    pub end: u32,
}

impl Span {
    /// The span from `start` to `end`.
    pub fn new(start: u32, end: u32) -> (r: Span)
        ensures
            r == (Span { start, end }),
    {
        Span { start, end }
    }
}

/// Source position using the Svelte line / column conventions: lines count from
/// one, columns count bytes from zero.
#[derive(Debug, Clone, Copy, PartialEq, Eq, Structural)]
pub struct SvelteSourcePosition {
    pub line: u32,
    pub column: u32,
}

/// Zero-based byte span plus one-based line / zero-based column positions.
#[derive(Debug, Clone, Copy, PartialEq, Eq, Structural)]
pub struct SvelteSourceRange {
    pub span: Span,
    pub start: SvelteSourcePosition,
    pub end: SvelteSourcePosition,
}

/// The byte that ends a line.
pub const NEWLINE: u8 = 10;

/// `offset`, or the end of the text where `offset` lies behind it.
pub open spec fn clamp_offset(bytes: Seq<u8>, offset: int) -> int {
    if offset < bytes.len() {
        offset
    } else {
        bytes.len() as int
    }
}

/// How many of the first `end` bytes are newlines.
pub open spec fn newlines_before(bytes: Seq<u8>, end: int) -> nat
    decreases end,
{
    if end <= 0 {
        0
    } else {
        newlines_before(bytes, end - 1) + (if bytes[end - 1] == NEWLINE {
            1nat
        } else {
            0nat
        })
    }
}

/// Where the line that holds offset `end` starts: behind the last newline before
/// `end`, or at the start of the text where there is none.
pub open spec fn line_start(bytes: Seq<u8>, end: int) -> int
    decreases end,
{
    if end <= 0 {
        0
    } else if bytes[end - 1] == NEWLINE {
        end
    } else {
        line_start(bytes, end - 1)
    }
}

/// The position of byte `offset`; an offset behind the text stands for its end.
pub open spec fn position_at(bytes: Seq<u8>, offset: u32) -> SvelteSourcePosition {
    let at = clamp_offset(bytes, offset as int);
    SvelteSourcePosition {
        line: (1 + newlines_before(bytes, at)) as u32,
        column: (at - line_start(bytes, at)) as u32,
    }
}

/// The range from byte `start` to byte `end`.
pub open spec fn range_at(bytes: Seq<u8>, start: u32, end: u32) -> SvelteSourceRange {
    SvelteSourceRange {
        span: Span { start, end },
        start: position_at(bytes, start),
        end: position_at(bytes, end),
    }
}

/// Whether the number of every line that a `u32` offset can reach fits into a
/// `u32`. Only a text whose first `u32::MAX` bytes are all newlines fails this.
pub open spec fn lines_fit(bytes: Seq<u8>) -> bool {
    newlines_before(bytes, clamp_offset(bytes, u32::MAX as int)) < u32::MAX
}

proof fn lemma_newlines_bounded(bytes: Seq<u8>, end: int)
    requires
        0 <= end,
    ensures
        newlines_before(bytes, end) <= end,
    decreases end,
{
    if end > 0 {
        lemma_newlines_bounded(bytes, end - 1);
    }
}

proof fn lemma_newlines_monotonic(bytes: Seq<u8>, i: int, j: int)
    requires
        i <= j,
    ensures
        newlines_before(bytes, i) <= newlines_before(bytes, j),
    decreases j - i,
{
    if i < j {
        lemma_newlines_monotonic(bytes, i, j - 1);
    }
}

proof fn lemma_same_line_start(bytes: Seq<u8>, i: int, j: int)
    requires
        0 <= i <= j,
        newlines_before(bytes, i) == newlines_before(bytes, j),
    ensures
        line_start(bytes, i) == line_start(bytes, j),
    decreases j - i,
{
    if i < j {
        lemma_newlines_monotonic(bytes, i, j - 1);
        lemma_same_line_start(bytes, i, j - 1);
    }
}

/// A later byte of the text never has an earlier position, and a strictly later
/// byte has a strictly later one: positions order the bytes as offsets do.
pub proof fn law_positions_keep_order(bytes: Seq<u8>, a: u32, b: u32)
    requires
        lines_fit(bytes),
        a < b <= bytes.len(),
    ensures
        ({
            let first = position_at(bytes, a);
            let second = position_at(bytes, b);
            first.line < second.line || (first.line == second.line && first.column < second.column)
        }),
{
    lemma_newlines_monotonic(bytes, a as int, b as int);
    lemma_newlines_monotonic(bytes, b as int, clamp_offset(bytes, u32::MAX as int));
    lemma_line_start_is_behind_newline(bytes, a as int);
    lemma_line_start_is_behind_newline(bytes, b as int);
    if newlines_before(bytes, a as int) == newlines_before(bytes, b as int) {
        lemma_same_line_start(bytes, a as int, b as int);
    }
}

/// A position names one byte: two offsets in the text with the same line and
/// column are the same offset.
pub proof fn law_position_determines_offset(bytes: Seq<u8>, a: u32, b: u32)
    requires
        lines_fit(bytes),
        a <= bytes.len(),
        b <= bytes.len(),
        position_at(bytes, a) == position_at(bytes, b),
    ensures
        a == b,
{
    if a < b {
        law_positions_keep_order(bytes, a, b);
    } else if b < a {
        law_positions_keep_order(bytes, b, a);
    }
}

proof fn lemma_line_start_is_behind_newline(bytes: Seq<u8>, end: int)
    requires
        0 <= end,
    ensures
        0 <= line_start(bytes, end) <= end,
        line_start(bytes, end) == 0 || bytes[line_start(bytes, end) - 1] == NEWLINE,
        forall|i: int| line_start(bytes, end) <= i < end ==> bytes[i] != NEWLINE,
    decreases end,
{
    if end > 0 && bytes[end - 1] != NEWLINE {
        lemma_line_start_is_behind_newline(bytes, end - 1);
    }
}

/// The column counts the bytes back to the start of the line: none of them is a
/// newline, and what precedes them is a newline or the start of the text.
pub proof fn law_column_counts_bytes_of_line(bytes: Seq<u8>, offset: u32)
    requires
        offset <= bytes.len(),
    ensures
        position_at(bytes, offset).column <= offset,
        ({
            let start = offset - position_at(bytes, offset).column;
            &&& start == 0 || bytes[start - 1] == NEWLINE
            &&& forall|i: int| start <= i < offset ==> bytes[i] != NEWLINE
        }),
{
    lemma_line_start_is_behind_newline(bytes, offset as int);
}

/// An offset behind the text has the position of its end.
pub proof fn law_position_clamps(bytes: Seq<u8>, offset: u32)
    requires
        bytes.len() <= offset,
    ensures
        position_at(bytes, offset) == position_at(bytes, bytes.len() as u32),
{
}

/// The text starts at line one, column zero, and no byte has a line before that.
pub proof fn law_first_line_is_one(bytes: Seq<u8>, offset: u32)
    requires
        lines_fit(bytes),
    ensures
        position_at(bytes, 0) == (SvelteSourcePosition { line: 1, column: 0 }),
        1 <= position_at(bytes, offset).line,
{
    lemma_newlines_monotonic(
        bytes,
        clamp_offset(bytes, offset as int),
        clamp_offset(bytes, u32::MAX as int),
    );
}

/// A text of fewer than `u32::MAX` bytes has line numbers that fit.
pub proof fn law_ordinary_texts_fit(bytes: Seq<u8>)
    requires
        bytes.len() < u32::MAX,
    ensures
        lines_fit(bytes),
{
    lemma_newlines_bounded(bytes, bytes.len() as int);
}

/// Behind a newline comes column zero of the next line; behind any other byte comes
/// the next column of the same line.
pub proof fn law_positions_advance_byte_by_byte(bytes: Seq<u8>, offset: u32)
    requires
        lines_fit(bytes),
        offset < bytes.len(),
        offset < u32::MAX,
    ensures
        ({
            let here = position_at(bytes, offset);
            let next = position_at(bytes, (offset + 1) as u32);
            if bytes[offset as int] == 10u8 {
                next.line == here.line + 1 && next.column == 0
            } else {
                next.line == here.line && next.column == here.column + 1
            }
        }),
{
    lemma_newlines_monotonic(bytes, offset + 1, clamp_offset(bytes, u32::MAX as int));
    lemma_line_start_is_behind_newline(bytes, offset as int);
}

proof fn lemma_all_newlines(bytes: Seq<u8>, end: int)
    requires
        0 <= end,
    ensures
        newlines_before(bytes, end) == end <==> (forall|i: int|
            0 <= i < end ==> #[trigger] bytes[i] == 10u8),
    decreases end,
{
    if end > 0 {
        lemma_all_newlines(bytes, end - 1);
        lemma_newlines_bounded(bytes, end - 1);
        if newlines_before(bytes, end) == end {
            assert forall|i: int| 0 <= i < end implies #[trigger] bytes[i] == 10u8 by {
                if i < end - 1 {
                    assert(newlines_before(bytes, end - 1) == end - 1);
                }
            }
        }
        if forall|i: int| 0 <= i < end ==> #[trigger] bytes[i] == 10u8 {
            assert(bytes[end - 1] == 10u8);
        }
    }
}

/// Line numbers fit in every text but those that begin with as many newlines as a
/// `u32` offset can reach.
pub proof fn law_lines_fit_but_for_newlines_alone(bytes: Seq<u8>)
    ensures
        lines_fit(bytes) <==> !(bytes.len() >= u32::MAX && forall|i: int|
            0 <= i < u32::MAX ==> #[trigger] bytes[i] == 10u8),
{
    let limit = clamp_offset(bytes, u32::MAX as int);
    lemma_newlines_bounded(bytes, limit);
    lemma_all_newlines(bytes, limit);
}

/// A range has the offsets that it was made with, and at each end the position of
/// that offset.
pub proof fn law_range_has_its_ends(bytes: Seq<u8>, start: u32, end: u32)
    ensures
        range_at(bytes, start, end).span.start == start,
        range_at(bytes, start, end).span.end == end,
        range_at(bytes, start, end).start == position_at(bytes, start),
        range_at(bytes, start, end).end == position_at(bytes, end),
{
}

/// The position of byte `offset` in `source`.
pub fn source_position(source: &str, offset: u32) -> (r: SvelteSourcePosition)
    requires
        lines_fit(encode_utf8(source@)),
    ensures
        r == position_at(encode_utf8(source@), offset),
{
    let bytes: &[u8] = source.as_bytes();
    let offset: usize = offset as usize;
    let at: usize = if offset < bytes.len() {
        offset
    } else {
        bytes.len()
    };
    let mut line: u32 = 1;
    let mut start: usize = 0;
    let mut index: usize = 0;
    proof {
        lemma_newlines_monotonic(
            bytes@,
            at as int,
            clamp_offset(bytes@, u32::MAX as int),
        );
    }
    while index < at
        invariant
            index <= at <= bytes@.len(),
            newlines_before(bytes@, at as int) < u32::MAX,
            line == 1 + newlines_before(bytes@, index as int),
            start == line_start(bytes@, index as int),
            start <= index,
        decreases at - index,
    {
        proof {
            lemma_newlines_monotonic(bytes@, index + 1, at as int);
        }
        if bytes[index] == NEWLINE {
            line = line + 1;
            start = index + 1;
        }
        index = index + 1;
    }
    SvelteSourcePosition { line, column: (at - start) as u32 }
}

/// Whether line numbers in `source` fit into a `u32`.
pub fn positions_fit(source: &str) -> (r: bool)
    ensures
        r == lines_fit(encode_utf8(source@)),
{
    let bytes: &[u8] = source.as_bytes();
    let limit: usize = if bytes.len() > u32::MAX as usize {
        u32::MAX as usize
    } else {
        bytes.len()
    };
    let mut count: usize = 0;
    let mut index: usize = 0;
    while index < limit
        invariant
            index <= limit <= bytes@.len(),
            count == newlines_before(bytes@, index as int),
            count <= index,
        decreases limit - index,
    {
        if bytes[index] == NEWLINE {
            count = count + 1;
        }
        index = index + 1;
    }
    count < u32::MAX as usize
}

impl SvelteSourceRange {
    /// The range from byte `start` to byte `end` of `source`.
    pub fn new(source: &str, start: u32, end: u32) -> (r: SvelteSourceRange)
        requires
            lines_fit(encode_utf8(source@)),
        ensures
            r == range_at(encode_utf8(source@), start, end),
    {
        SvelteSourceRange {
            span: Span::new(start, end),
            start: source_position(source, start),
            end: source_position(source, end),
        }
    }
}

} // verus!
