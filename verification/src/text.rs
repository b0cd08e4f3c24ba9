//! Positions in a text.
//!
//! A text is a sequence of Unicode scalar values. Every index into it has a
//! byte offset, a line and a column.

use vstd::prelude::*;
use vstd::utf8::{char_is_scalar, encode_scalar, encode_utf8};

use crate::ast::{Position, Span};

verus! {

/// The number of bytes that a character takes in UTF-8.
pub open spec fn utf8_len(c: char) -> nat {
    if c <= '\u{7F}' {
        1
    } else if c <= '\u{7FF}' {
        2
    } else if c <= '\u{FFFF}' {
        3
    } else {
        4
    }
}

/// The number of bytes before the given index.
pub open spec fn offset_at(p: Seq<char>, i: int) -> nat
    decreases i,
{
    if i <= 0 {
        0
    } else {
        offset_at(p, i - 1) + utf8_len(p[i - 1])
    }
}

/// The line of the given index: one more than the number of line feeds
/// before it.
pub open spec fn line_at(p: Seq<char>, i: int) -> nat
    decreases i,
{
    if i <= 0 {
        1
    } else if p[i - 1] == '\n' {
        line_at(p, i - 1) + 1
    } else {
        line_at(p, i - 1)
    }
}

/// The column of the given index: one more than the number of characters
/// between it and the last line feed before it.
pub open spec fn column_at(p: Seq<char>, i: int) -> nat
    decreases i,
{
    if i <= 0 || p[i - 1] == '\n' {
        1
    } else {
        column_at(p, i - 1) + 1
    }
}

/// The position of the given index.
pub open spec fn position_at(p: Seq<char>, i: int) -> Position {
    Position {
        offset: offset_at(p, i) as usize,
        line: line_at(p, i) as usize,
        column: column_at(p, i) as usize,
    }
}

/// The span from one index to another.
pub open spec fn span_between(p: Seq<char>, i: int, j: int) -> Span {
    Span { start: position_at(p, i), end: position_at(p, j) }
}

/// The empty span at the given index.
pub open spec fn span_at(p: Seq<char>, i: int) -> Span {
    span_between(p, i, i)
}

/// The span of the character at the given index.
pub open spec fn char_span_at(p: Seq<char>, i: int) -> Span {
    span_between(p, i, i + 1)
}

/// A text whose positions fit into machine integers.
pub open spec fn fits(p: Seq<char>) -> bool {
    &&& p.len() < usize::MAX
    &&& offset_at(p, p.len() as int) <= usize::MAX
}

/// The text has the given text as a prefix at the given index.
pub open spec fn prefix_at(p: Seq<char>, i: int, s: Seq<char>) -> bool {
    i + s.len() <= p.len() && p.subrange(i, i + s.len()) == s
}

/// Later indices have greater byte offsets.
pub proof fn lemma_offset_monotone(p: Seq<char>, i: int, j: int)
    requires
        0 <= i <= j,
    ensures
        offset_at(p, i) + (j - i) <= offset_at(p, j),
    decreases j - i,
{
    if i < j {
        lemma_offset_monotone(p, i, j - 1);
    }
}

/// Lines and columns are bounded by the index.
pub proof fn lemma_line_column_bound(p: Seq<char>, i: int)
    requires
        0 <= i,
    ensures
        1 <= line_at(p, i) <= i + 1,
        1 <= column_at(p, i) <= i + 1,
    decreases i,
{
    if i > 0 {
        lemma_line_column_bound(p, i - 1);
    }
}

/// The offset in a text whose first character is cut off.
proof fn lemma_offset_drop_first(p: Seq<char>, i: int)
    requires
        0 <= i < p.len(),
    ensures
        offset_at(p, i + 1) == utf8_len(p[0]) + offset_at(p.drop_first(), i),
    decreases i,
{
    if i > 0 {
        lemma_offset_drop_first(p, i - 1);
    } else {
        assert(offset_at(p, 1) == offset_at(p, 0) + utf8_len(p[0]));
    }
}

/// The length of the encoding of one character.
proof fn lemma_encode_scalar_len(c: char)
    ensures
        encode_scalar(c as u32).len() == utf8_len(c),
{
    char_is_scalar(c);
}

/// The offset of the end of a text is the length of its encoding.
pub proof fn lemma_offset_is_encoded_len(p: Seq<char>)
    ensures
        offset_at(p, p.len() as int) == encode_utf8(p).len(),
    decreases p.len(),
{
    if p.len() > 0 {
        let c = p[0];
        lemma_offset_is_encoded_len(p.drop_first());
        lemma_offset_drop_first(p, p.len() - 1);
        lemma_encode_scalar_len(c);
    }
}

/// Returns the number of bytes that the given character takes in UTF-8.
pub fn char_len_utf8(c: char) -> (r: usize)
    ensures
        r == utf8_len(c),
{
    if c <= '\u{7F}' {
        1
    } else if c <= '\u{7FF}' {
        2
    } else if c <= '\u{FFFF}' {
        3
    } else {
        4
    }
}

} // verus!
