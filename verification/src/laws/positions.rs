//! Positions in a text.

use vstd::prelude::*;
use vstd::utf8::encode_utf8;

use crate::ast::Position;
use crate::text::{
    column_at, fits, lemma_line_column_bound, lemma_offset_is_encoded_len, lemma_offset_monotone,
    line_at, offset_at, position_at, utf8_len,
};

verus! {

/// What comes before an index does not depend on what comes behind it.
proof fn lemma_offset_prefix(p: Seq<char>, q: Seq<char>, i: int)
    requires
        0 <= i <= p.len(),
        i <= q.len(),
        forall|k: int| 0 <= k < i ==> #[trigger] p[k] == q[k],
    ensures
        offset_at(p, i) == offset_at(q, i),
    decreases i,
{
    if i > 0 {
        lemma_offset_prefix(p, q, i - 1);
        assert(p[i - 1] == q[i - 1]);
    }
}

/// The offset of a position is the number of bytes that the text before it
/// takes in UTF-8.
pub proof fn law_offsets_are_in_bytes(p: Seq<char>, i: int)
    requires
        fits(p),
        0 <= i <= p.len(),
    ensures
        position_at(p, i).offset == encode_utf8(p.take(i)).len(),
{
    lemma_offset_monotone(p, i, p.len() as int);
    lemma_offset_prefix(p, p.take(i), i);
    lemma_offset_is_encoded_len(p.take(i));
}

proof fn lemma_lines(p: Seq<char>, i: int, j: int)
    requires
        0 <= i <= j <= p.len(),
    ensures
        line_at(p, i) <= line_at(p, j),
        (forall|k: int| i <= k < j ==> #[trigger] p[k] != '\n') ==> {
            &&& line_at(p, j) == line_at(p, i)
            &&& column_at(p, j) == column_at(p, i) + (j - i)
        },
    decreases j - i,
{
    if i < j {
        lemma_lines(p, i, j - 1);
        if forall|k: int| i <= k < j ==> #[trigger] p[k] != '\n' {
            assert(p[j - 1] != '\n');
        }
    }
}

/// Later positions have greater offsets, and lines that are not smaller. On one
/// line, columns count the characters. Behind a line feed, a line starts with
/// its first column.
pub proof fn law_positions_are_ordered(p: Seq<char>, i: int, j: int)
    requires
        fits(p),
        0 <= i < j <= p.len(),
    ensures
        position_at(p, i).offset < position_at(p, j).offset,
        position_at(p, i).line <= position_at(p, j).line,
        (forall|k: int| i <= k < j ==> #[trigger] p[k] != '\n') ==> {
            &&& position_at(p, j).line == position_at(p, i).line
            &&& position_at(p, j).column == position_at(p, i).column + (j - i)
        },
        p[j - 1] == '\n' ==> {
            &&& position_at(p, j).line > position_at(p, i).line
            &&& position_at(p, j).column == 1
        },
{
    lemma_offset_monotone(p, i, j);
    lemma_offset_monotone(p, j, p.len() as int);
    lemma_line_column_bound(p, i);
    lemma_line_column_bound(p, j);
    lemma_lines(p, i, j);
    lemma_lines(p, i, j - 1);
}

/// A text starts with its first byte, its first line and its first column.
/// Behind a line feed the next line starts. Behind any other character the line
/// stays, and the column is the next one.
pub proof fn law_positions_count(p: Seq<char>, i: int)
    requires
        fits(p),
        0 <= i < p.len(),
    ensures
        position_at(p, 0) == (Position { offset: 0, line: 1, column: 1 }),
        ({
            let pos = position_at(p, i);
            let next = position_at(p, i + 1);
            &&& next.offset == pos.offset + encode_utf8(seq![p[i]]).len()
            &&& if p[i] == '\n' {
                next.line == pos.line + 1 && next.column == 1
            } else {
                next.line == pos.line && next.column == pos.column + 1
            }
        }),
{
    let one = seq![p[i]];
    lemma_offset_monotone(p, i, i + 1);
    lemma_offset_monotone(p, i + 1, p.len() as int);
    lemma_line_column_bound(p, i);
    lemma_line_column_bound(p, i + 1);
    reveal_with_fuel(offset_at, 3);
    lemma_offset_is_encoded_len(one);
    assert(one.len() == 1 && one[0] == p[i]);
    assert(offset_at(one, 1) == utf8_len(p[i]));
}

} // verus!
