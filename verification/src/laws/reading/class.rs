//! How classes in brackets are read.

use vstd::prelude::*;

use crate::ast::methods::{
    ascii_kind_of_name, class_set_item_span, class_set_op_span, class_span, union_push,
};
use crate::ast::view::{
    ClassSetItemView, ClassSetOpView, ClassSetUnionView, ClassSetView, ClassView,
};
use crate::ast::{ClassAscii, ClassAsciiKind, ClassSetBinaryOpKind, ClassSetRange, Span};
use crate::chars::{lemma_run_end, lemma_run_end_from, CharSet};
use crate::grammar::class::{
    apply_op, ascii_class, class, class_open, class_range, class_rest, class_step, close_class,
    empty_union, leading_dashes, lemma_ascii_class, lemma_class_open, lemma_class_rest,
    lemma_class_step, lemma_leading_dashes, union_push_class, ClassStep, LeftSide,
};
use crate::grammar::escape::{class_item, lemma_class_item, verbatim};
use crate::grammar::space::{lemma_skip, Cursor};
use crate::laws::reading::leaf::{
    lemma_past, lemma_primitive_reads, lemma_skip_index, lemma_verbatim_reads,
};
use crate::laws::reading::{
    hi, lemma_span_index, literal_reads, lo, past, perl_reads, spans, text, unicode_reads,
};
use crate::text::{fits, span_at, span_between};

verus! {

/// The name of an ASCII class.
pub open spec fn ascii_name(kind: ClassAsciiKind) -> Seq<char> {
    match kind {
        ClassAsciiKind::Alnum => seq!['a', 'l', 'n', 'u', 'm'],
        ClassAsciiKind::Alpha => seq!['a', 'l', 'p', 'h', 'a'],
        ClassAsciiKind::Ascii => seq!['a', 's', 'c', 'i', 'i'],
        ClassAsciiKind::Blank => seq!['b', 'l', 'a', 'n', 'k'],
        ClassAsciiKind::Cntrl => seq!['c', 'n', 't', 'r', 'l'],
        ClassAsciiKind::Digit => seq!['d', 'i', 'g', 'i', 't'],
        ClassAsciiKind::Graph => seq!['g', 'r', 'a', 'p', 'h'],
        ClassAsciiKind::Lower => seq!['l', 'o', 'w', 'e', 'r'],
        ClassAsciiKind::Print => seq!['p', 'r', 'i', 'n', 't'],
        ClassAsciiKind::Punct => seq!['p', 'u', 'n', 'c', 't'],
        ClassAsciiKind::Space => seq!['s', 'p', 'a', 'c', 'e'],
        ClassAsciiKind::Upper => seq!['u', 'p', 'p', 'e', 'r'],
        ClassAsciiKind::Word => seq!['w', 'o', 'r', 'd'],
        ClassAsciiKind::Xdigit => seq!['x', 'd', 'i', 'g', 'i', 't'],
    }
}

/// How an ASCII class is written.
pub open spec fn ascii_text(kind: ClassAsciiKind, negated: bool) -> Seq<char> {
    let open = if negated {
        seq!['[', ':', '^']
    } else {
        seq!['[', ':']
    };
    open + ascii_name(kind) + seq![':', ']']
}

/// The given text stands at the given index.
pub open spec fn stands_at(p: Seq<char>, i: int, s: Seq<char>) -> bool {
    &&& 0 <= i
    &&& i + s.len() <= p.len()
    &&& p.subrange(i, i + s.len()) == s
}

/// An ASCII class stands at the given index.
pub open spec fn ascii_at(p: Seq<char>, i: int) -> bool {
    exists|kind: ClassAsciiKind, negated: bool|
        stands_at(p, i, #[trigger] ascii_text(kind, negated))
}

/// An ASCII class stands for what is written.
pub open spec fn ascii_reads(p: Seq<char>, x: ClassAscii) -> bool {
    spans(p, x.span) && text(p, x.span) == ascii_text(x.kind, x.negated)
}

/// The character that makes an operator when it stands twice.
pub open spec fn op_char(kind: ClassSetBinaryOpKind) -> char {
    match kind {
        ClassSetBinaryOpKind::Intersection => '&',
        ClassSetBinaryOpKind::Difference => '-',
        ClassSetBinaryOpKind::SymmetricDifference => '~',
    }
}

/// What stands at an index is neither a bracket nor an operator.
pub open spec fn plain(p: Seq<char>, i: int) -> bool {
    let twice = i + 1 < p.len() && p[i + 1] == p[i];
    &&& p[i] != '['
    &&& p[i] != ']'
    &&& twice ==> p[i] != '&' && p[i] != '-' && p[i] != '~'
}

/// What follows an item that ends at the given index does not make it a range.
pub open spec fn alone(p: Seq<char>, i: int, verbose: bool) -> bool {
    let j = past(p, i, verbose);
    &&& j < p.len()
    &&& p[j] == '-' ==> j + 1 < p.len() && (p[j + 1] == ']' || p[j + 1] == '-')
}

/// A character that stands for itself.
pub open spec fn is_char(item: ClassSetItemView, c: char) -> bool {
    match item {
        ClassSetItemView::Literal(x) => x.kind is Verbatim && x.c == c,
        _ => false,
    }
}

/// Dashes that stand for themselves, and nothing else.
pub open spec fn all_dashes(items: Seq<ClassSetItemView>) -> bool {
    forall|k: int| 0 <= k < items.len() ==> is_char(#[trigger] items[k], '-')
}

/// A range stands for what is written: two literals with a `-` between them.
pub open spec fn range_reads(p: Seq<char>, x: ClassSetRange, verbose: bool) -> bool {
    let dash = past(p, hi(p, x.start.span), verbose);
    &&& literal_reads(p, x.start, verbose)
    &&& literal_reads(p, x.end, verbose)
    &&& dash + 1 < p.len()
    &&& p[dash] == '-'
    &&& p[dash + 1] != '-'
    &&& p[dash + 1] != ']'
    &&& lo(p, x.end.span) == past(p, dash + 1, verbose)
    &&& x.span == Span { start: x.start.span.start, end: x.end.span.end }
    &&& spans(p, x.span)
}

/// What an item may be followed and preceded by, where it has no special
/// meaning at the start of a class.
pub open spec fn item_fits(p: Seq<char>, item: ClassSetItemView, verbose: bool) -> bool {
    let i = lo(p, class_set_item_span(item));
    let single = plain(p, i) && alone(p, hi(p, class_set_item_span(item)), verbose);
    match item {
        ClassSetItemView::Literal(_) => single,
        ClassSetItemView::Range(_) => plain(p, i),
        ClassSetItemView::Ascii(_) => true,
        ClassSetItemView::Class(x) => match *x {
            ClassView::Bracketed(_) => !ascii_at(p, i),
            _ => single,
        },
    }
}

/// The index behind items that start at the given index.
pub open spec fn items_end(p: Seq<char>, items: Seq<ClassSetItemView>, i: int) -> int {
    if items.len() == 0 {
        i
    } else {
        hi(p, class_set_item_span(items.last()))
    }
}

/// The index behind a set that starts at the given index.
pub open spec fn op_end(p: Seq<char>, op: ClassSetOpView, i: int, verbose: bool) -> int
    decreases op,
{
    match op {
        ClassSetOpView::Union(x) => items_end(p, x.items, i),
        ClassSetOpView::BinaryOp(x) => op_end(
            p,
            *x.rhs,
            past(p, op_end(p, *x.lhs, i, verbose), verbose) + 2,
            verbose,
        ),
    }
}

/// An item stands for what is written.
pub open spec fn item_reads(p: Seq<char>, item: ClassSetItemView, verbose: bool) -> bool
    decreases item,
{
    match item {
        ClassSetItemView::Literal(x) => literal_reads(p, x, verbose),
        ClassSetItemView::Range(x) => range_reads(p, x, verbose),
        ClassSetItemView::Ascii(x) => ascii_reads(p, x),
        ClassSetItemView::Class(x) => class_reads(p, *x, verbose),
    }
}

/// Items stand for what is written from the index `i` on, with nothing but
/// skipped space between them. At the start of a class any number of `-` stand
/// for themselves, and so does a `]` that is the first item.
pub open spec fn members_read(
    p: Seq<char>,
    items: Seq<ClassSetItemView>,
    i: int,
    verbose: bool,
    first: bool,
) -> bool
    decreases items,
{
    if items.len() == 0 {
        true
    } else {
        let front = items.drop_last();
        let item = items.last();
        let start = past(p, items_end(p, front, i), verbose);
        &&& members_read(p, front, i, verbose, first)
        &&& lo(p, class_set_item_span(item)) == start
        &&& item_reads(p, item, verbose)
        &&& {
            ||| first && all_dashes(front) && is_char(item, '-')
            ||| first && front.len() == 0 && is_char(item, ']')
            ||| item_fits(p, item, verbose) && !(first && all_dashes(front) && p[start] == '-')
        }
    }
}

/// The span of items is that from the first to the last of them.
pub open spec fn union_spans(p: Seq<char>, union: ClassSetUnionView, i: int) -> bool {
    if union.items.len() == 0 {
        union.span == span_between(p, i, i)
    } else {
        union.span == Span {
            start: class_set_item_span(union.items[0]).start,
            end: class_set_item_span(union.items.last()).end,
        }
    }
}

/// What follows items at the start of a class is not one more item that has its
/// meaning only there.
pub open spec fn start_over(
    p: Seq<char>,
    items: Seq<ClassSetItemView>,
    i: int,
    verbose: bool,
) -> bool {
    let j = past(p, items_end(p, items, i), verbose);
    &&& all_dashes(items) && j < p.len() ==> p[j] != '-'
    &&& items.len() == 0 && j < p.len() ==> p[j] != ']'
}

/// A set stands for what is written from the index `i` on. Its operators are
/// written as one of `&`, `-` and `~` twice, and are left-associative.
pub open spec fn op_reads(
    p: Seq<char>,
    op: ClassSetOpView,
    i: int,
    verbose: bool,
    first: bool,
) -> bool
    decreases op,
{
    match op {
        ClassSetOpView::Union(x) => {
            &&& members_read(p, x.items, i, verbose, first)
            &&& union_spans(p, x, i)
            &&& first ==> start_over(p, x.items, i, verbose)
        },
        ClassSetOpView::BinaryOp(x) => {
            let j = past(p, op_end(p, *x.lhs, i, verbose), verbose);
            &&& op_reads(p, *x.lhs, i, verbose, first)
            &&& j + 1 < p.len()
            &&& p[j] == op_char(x.kind)
            &&& p[j + 1] == op_char(x.kind)
            &&& *x.rhs is Union
            &&& op_reads(p, *x.rhs, j + 2, verbose, false)
            &&& x.span == Span {
                start: class_set_op_span(*x.lhs).start,
                end: class_set_op_span(*x.rhs).end,
            }
        },
    }
}

/// A class in brackets stands for what is written: it is negated if and only if
/// the first character behind its `[` is a `^`.
pub open spec fn set_reads(p: Seq<char>, set: ClassSetView, verbose: bool) -> bool
    decreases set,
{
    let i = lo(p, set.span);
    let j = past(p, i + 1, verbose);
    let k = if set.negated {
        past(p, j + 1, verbose)
    } else {
        j
    };
    let end = past(p, op_end(p, set.op, k, verbose), verbose);
    &&& spans(p, set.span)
    &&& i < p.len()
    &&& p[i] == '['
    &&& set.negated == (j < p.len() && p[j] == '^')
    &&& op_reads(p, set.op, k, verbose, true)
    &&& end < p.len()
    &&& p[end] == ']'
    &&& hi(p, set.span) == end + 1
}

/// A class stands for what is written.
pub open spec fn class_reads(p: Seq<char>, class: ClassView, verbose: bool) -> bool
    decreases class,
{
    match class {
        ClassView::Perl(x) => perl_reads(p, x),
        ClassView::Unicode(x) => unicode_reads(p, x),
        ClassView::Bracketed(x) => set_reads(p, x, verbose),
    }
}

/// Where the items start behind the opening of a class at the given index.
pub open spec fn inside(p: Seq<char>, open: int, verbose: bool) -> int {
    let j = past(p, open + 1, verbose);
    if j < p.len() && p[j] == '^' {
        past(p, j + 1, verbose)
    } else {
        j
    }
}

/// The index at which the items behind the left side of an operator start, or
/// those of the class, which start at the index `i`, if there is none.
pub open spec fn base(p: Seq<char>, left: Option<LeftSide>, i: int, verbose: bool) -> int {
    match left {
        None => i,
        Some(left) => past(p, op_end(p, left.lhs, i, verbose), verbose) + 2,
    }
}

/// The left side of an operator, if there is one, is read up to the operator.
pub open spec fn left_reads(p: Seq<char>, left: Option<LeftSide>, i: int, verbose: bool) -> bool {
    match left {
        None => true,
        Some(left) => {
            let j = past(p, op_end(p, left.lhs, i, verbose), verbose);
            &&& op_reads(p, left.lhs, i, verbose, true)
            &&& j + 1 < p.len()
            &&& p[j] == op_char(left.kind)
            &&& p[j + 1] == op_char(left.kind)
        },
    }
}

/// What of a class is read up to the index `at`, where its items start at `i`.
pub open spec fn read_so_far(
    p: Seq<char>,
    at: int,
    union: ClassSetUnionView,
    left: Option<LeftSide>,
    i: int,
    verbose: bool,
) -> bool {
    let start = base(p, left, i, verbose);
    &&& left_reads(p, left, i, verbose)
    &&& members_read(p, union.items, start, verbose, left is None)
    &&& union_spans(p, union, start)
    &&& left is None ==> start_over(p, union.items, start, verbose)
    &&& past(p, at, verbose) == past(p, items_end(p, union.items, start), verbose)
}

/// The index behind dashes at the start of a class, and the space that follows
/// each.
pub open spec fn dashes_end(p: Seq<char>, i: int, verbose: bool) -> int
    decreases p.len() - i,
{
    if 0 <= i < p.len() && p[i] == '-' && i < past(p, i + 1, verbose) <= p.len() {
        dashes_end(p, past(p, i + 1, verbose), verbose)
    } else {
        i
    }
}

/// The index behind the opening of the class at the given index, with the items
/// that have their meaning only there.
pub open spec fn open_end(p: Seq<char>, open: int, verbose: bool) -> int {
    let i = inside(p, open, verbose);
    let j = dashes_end(p, i, verbose);
    if j == i && j < p.len() && p[j] == ']' {
        past(p, j + 1, verbose)
    } else {
        j
    }
}

/// The opening of a class, whose items start at `i`.
pub open spec fn open_reads(p: Seq<char>, set: ClassSetView, i: int, verbose: bool) -> bool {
    let open = lo(p, set.span);
    let j = past(p, open + 1, verbose);
    &&& spans(p, set.span)
    &&& hi(p, set.span) == open_end(p, open, verbose)
    &&& open < p.len()
    &&& p[open] == '['
    &&& set.negated == (j < p.len() && p[j] == '^')
    &&& i == if set.negated {
        past(p, j + 1, verbose)
    } else {
        j
    }
}

proof fn lemma_ascii_names()
    ensures
        forall|kind: ClassAsciiKind|
            ascii_kind_of_name(#[trigger] ascii_name(kind)) == Some(kind),
        forall|name: Seq<char>|
            (#[trigger] ascii_kind_of_name(name)) matches Some(kind) ==> name == ascii_name(kind),
        forall|kind: ClassAsciiKind, k: int|
            0 <= k < ascii_name(kind).len() ==> #[trigger] ascii_name(kind)[k] != ':'
                && ascii_name(kind)[k] != '^',
{
    reveal_strlit("alnum");
    reveal_strlit("alpha");
    reveal_strlit("ascii");
    reveal_strlit("blank");
    reveal_strlit("cntrl");
    reveal_strlit("digit");
    reveal_strlit("graph");
    reveal_strlit("lower");
    reveal_strlit("print");
    reveal_strlit("punct");
    reveal_strlit("space");
    reveal_strlit("upper");
    reveal_strlit("word");
    reveal_strlit("xdigit");
    assert("alnum"@ == ascii_name(ClassAsciiKind::Alnum));
    assert("alpha"@ == ascii_name(ClassAsciiKind::Alpha));
    assert("ascii"@ == ascii_name(ClassAsciiKind::Ascii));
    assert("blank"@ == ascii_name(ClassAsciiKind::Blank));
    assert("cntrl"@ == ascii_name(ClassAsciiKind::Cntrl));
    assert("digit"@ == ascii_name(ClassAsciiKind::Digit));
    assert("graph"@ == ascii_name(ClassAsciiKind::Graph));
    assert("lower"@ == ascii_name(ClassAsciiKind::Lower));
    assert("print"@ == ascii_name(ClassAsciiKind::Print));
    assert("punct"@ == ascii_name(ClassAsciiKind::Punct));
    assert("space"@ == ascii_name(ClassAsciiKind::Space));
    assert("upper"@ == ascii_name(ClassAsciiKind::Upper));
    assert("word"@ == ascii_name(ClassAsciiKind::Word));
    assert("xdigit"@ == ascii_name(ClassAsciiKind::Xdigit));
}

/// An ASCII class is found where one stands, and stands for what is written.
pub proof fn lemma_ascii_reads(p: Seq<char>, i: int)
    requires
        fits(p),
        0 <= i < p.len(),
        p[i] == '[',
    ensures
        match ascii_class(p, i) {
            Some((end, cls)) => {
                ascii_reads(p, cls) && cls.span == span_between(p, i, end) && i < end <= p.len()
            },
            None => !ascii_at(p, i),
        },
{
    broadcast use lemma_span_index;

    lemma_ascii_class(p, i);
    lemma_ascii_names();
    match ascii_class(p, i) {
        Some((end, cls)) => {
            let start = if cls.negated {
                i + 3
            } else {
                i + 2
            };
            lemma_run_end(p, start, CharSet::Except(':'));
            let name = p.subrange(start, end - 2);
            assert(name == ascii_name(cls.kind));
            let open = p.subrange(i, start);
            assert(p.subrange(i, end) =~= open + name + p.subrange(end - 2, end));
            assert(open =~= if cls.negated {
                seq!['[', ':', '^']
            } else {
                seq!['[', ':']
            });
            assert(p.subrange(end - 2, end) =~= seq![':', ']']);
        },
        None => {
            assert forall|kind: ClassAsciiKind, negated: bool| !stands_at(
                p,
                i,
                #[trigger] ascii_text(kind, negated),
            ) by {
                let t = ascii_text(kind, negated);
                let name = ascii_name(kind);
                if stands_at(p, i, t) {
                    let n: int = if negated {
                        3
                    } else {
                        2
                    };
                    assert forall|k: int| 0 <= k < t.len() implies p[i + k] == #[trigger] t[k] by {
                        assert(p.subrange(i, i + t.len())[k] == t[k]);
                    }
                    assert(p[i + 1] == t[1]);
                    assert(p[i + 2] == t[2]);
                    if !negated {
                        assert(t[2] == name[0]);
                    }
                    assert forall|k: int| i + n <= k < i + n + name.len() implies
                        CharSet::Except(':').has(#[trigger] p[k]) by {
                        assert(p[i + (k - i)] == t[k - i]);
                        assert(t[k - i] == name[k - i - n]);
                    }
                    assert(p[i + n + name.len()] == t[n + name.len()]);
                    assert(p[i + n + name.len() + 1] == t[n + name.len() + 1]);
                    lemma_run_end_from(p, i + n, i + n + name.len(), CharSet::Except(':'));
                    assert(p.subrange(i + n, i + n + name.len()) =~= name) by {
                        assert forall|k: int| 0 <= k < name.len() implies p[i + n + k]
                            == #[trigger] name[k] by {
                            assert(p[i + (n + k)] == t[n + k]);
                        }
                    }
                }
            }
        },
    }
}

/// An item behind others.
pub proof fn lemma_push(
    p: Seq<char>,
    union: ClassSetUnionView,
    i: int,
    item: ClassSetItemView,
    verbose: bool,
    first: bool,
)
    requires
        members_read(p, union.items, i, verbose, first),
        union_spans(p, union, i),
        lo(p, class_set_item_span(item)) == past(p, items_end(p, union.items, i), verbose),
        item_reads(p, item, verbose),
        ({
            ||| first && all_dashes(union.items) && is_char(item, '-')
            ||| first && union.items.len() == 0 && is_char(item, ']')
            ||| item_fits(p, item, verbose) && !(first && all_dashes(union.items)
                && p[past(p, items_end(p, union.items, i), verbose)] == '-')
        }),
    ensures
        members_read(p, union_push(union, item).items, i, verbose, first),
        union_spans(p, union_push(union, item), i),
        items_end(p, union_push(union, item).items, i) == hi(p, class_set_item_span(item)),
{
    let items = union.items.push(item);
    assert(items.drop_last() =~= union.items);
    assert(items.last() == item);
    if union.items.len() > 0 {
        assert(items[0] == union.items[0]);
    }
}

/// The items that have their meaning only at the start of a class: read so far,
/// up to the cursor.
pub open spec fn dashes_read(
    p: Seq<char>,
    union: ClassSetUnionView,
    i: int,
    c: Cursor,
    verbose: bool,
) -> bool {
    &&& members_read(p, union.items, i, verbose, true)
    &&& union_spans(p, union, i)
    &&& all_dashes(union.items)
    &&& c.index == past(p, items_end(p, union.items, i), verbose)
}

pub proof fn lemma_dashes_read(
    p: Seq<char>,
    verbose: bool,
    c: Cursor,
    union: ClassSetUnionView,
    i: int,
)
    requires
        fits(p),
        0 <= c.index <= p.len(),
        dashes_read(p, union, i, c, verbose),
    ensures
        ({
            let (c1, union1) = leading_dashes(p, verbose, c, union);
            &&& dashes_read(p, union1, i, c1, verbose)
            &&& c1.index < p.len() ==> p[c1.index] != '-'
            &&& c1.index == dashes_end(p, c.index, verbose)
            &&& union1.items.len() >= union.items.len()
            &&& c1.index == c.index <==> union1.items.len() == union.items.len()
        }),
    decreases p.len() - c.index,
{
    broadcast use {lemma_span_index, lemma_skip_index};

    lemma_skip(p, c.at(c.index + 1), verbose);
    if c.index < p.len() && p[c.index] == '-' {
        let item = ClassSetItemView::Literal(verbatim(p, c.index));
        let c1 = c.at(c.index + 1).skip(p, verbose);
        lemma_verbatim_reads(p, c.index, verbose);
        lemma_push(p, union, i, item, verbose, true);
        lemma_dashes_read(p, verbose, c1, union_push(union, item), i);
    }
}

pub proof fn lemma_open_reads(p: Seq<char>, verbose: bool, c: Cursor)
    requires
        fits(p),
        0 <= c.index < p.len(),
        p[c.index] == '[',
    ensures
        match class_open(p, verbose, c) {
            (c1, Ok((set, union))) => {
                let i = inside(p, c.index, verbose);
                &&& set.span == span_between(p, c.index, c1.index)
                &&& open_reads(p, set, i, verbose)
                &&& read_so_far(p, c1.index, union, None, i, verbose)
            },
            (c1, Err(e)) => true,
        },
{
    broadcast use {lemma_skip, lemma_span_index, lemma_skip_index};

    lemma_class_open(p, verbose, c);
    let c1 = c.at(c.index + 1).skip(p, verbose);
    let negated = c1.index < p.len() && p[c1.index] == '^';
    let c2 = if negated {
        c1.at(c1.index + 1).skip(p, verbose)
    } else {
        c1
    };
    let i = c2.index;
    assert(i == inside(p, c.index, verbose));
    lemma_past(p, c.index + 1, verbose);
    if negated {
        lemma_past(p, c1.index + 1, verbose);
    }
    let union = ClassSetUnionView { span: span_at(p, c2.index), items: Seq::empty() };
    lemma_dashes_read(p, verbose, c2, union, i);
    lemma_leading_dashes(p, verbose, c2, union);
    let (c3, dashes) = leading_dashes(p, verbose, c2, union);
    lemma_past(p, c3.index, verbose);
    if dashes.items.len() > 0 {
        let last = dashes.items.last();
        assert(item_reads(p, last, verbose));
        assert(is_char(last, '-'));
        lemma_past(p, items_end(p, dashes.items, i), verbose);
    }
    let bracket = c3.index < p.len() && p[c3.index] == ']' && dashes.items.len() == 0;
    if bracket {
        let item = ClassSetItemView::Literal(verbatim(p, c3.index));
        lemma_verbatim_reads(p, c3.index, verbose);
        lemma_push(p, dashes, i, item, verbose, true);
        let c4 = c3.at(c3.index + 1).skip(p, verbose);
        lemma_past(p, c3.index + 1, verbose);
        assert(!is_char(union_push(dashes, item).items[0], '-'));
    }
}

/// An item or a range stands for what is written.
pub proof fn lemma_range_reads(p: Seq<char>, octal_on: bool, verbose: bool, c: Cursor, open: Span)
    requires
        fits(p),
        0 <= c.index < p.len(),
        plain(p, c.index),
    ensures
        match class_range(p, octal_on, verbose, c, open) {
            (c1, Ok(item)) => {
                &&& item_reads(p, item, verbose)
                &&& item_fits(p, item, verbose)
                &&& lo(p, class_set_item_span(item)) == c.index
                &&& spans(p, class_set_item_span(item))
                &&& past(p, c1.index, verbose) == past(
                    p,
                    hi(p, class_set_item_span(item)),
                    verbose,
                )
                &&& !(item is Ascii)
                &&& p[c.index] != '-' ==> !is_char(item, '-')
            },
            (c1, Err(e)) => true,
        },
{
    broadcast use {lemma_skip, lemma_span_index, lemma_skip_index};

    lemma_class_item(p, octal_on, verbose, c.index);
    lemma_primitive_reads(p, octal_on, verbose, c.index);
    let end = class_item(p, octal_on, verbose, c.index).0;
    let c1 = c.at(end).skip(p, verbose);
    let c2 = c1.at(c1.index + 1).skip(p, verbose);
    lemma_past(p, end, verbose);
    assert(p.subrange(c.index, end)[0] == p[c.index]);
    match class_range(p, octal_on, verbose, c, open) {
        (c9, Ok(item)) => {
            if c1.index < p.len() && c2.index < p.len() {
                lemma_class_item(p, octal_on, verbose, c2.index);
                lemma_primitive_reads(p, octal_on, verbose, c2.index);
            }
        },
        (c9, Err(e)) => {},
    }
}

/// A set behind the left side of an operator.
pub proof fn lemma_apply_reads(
    p: Seq<char>,
    c: Cursor,
    union: ClassSetUnionView,
    left: Option<LeftSide>,
    i: int,
    verbose: bool,
)
    requires
        read_so_far(p, c.index, union, left, i, verbose),
    ensures
        op_reads(p, apply_op(left, ClassSetOpView::Union(union)), i, verbose, true),
        past(
            p,
            op_end(p, apply_op(left, ClassSetOpView::Union(union)), i, verbose),
            verbose,
        ) == past(p, c.index, verbose),
{
    let rhs = ClassSetOpView::Union(union);
    let start = base(p, left, i, verbose);
    assert(op_reads(p, rhs, start, verbose, left is None));
    assert(op_end(p, rhs, start, verbose) == items_end(p, union.items, start));
    match left {
        None => {},
        Some(left) => {
            let op = apply_op(Some(left), rhs);
            assert(op is BinaryOp);
            assert(op_reads(p, op, i, verbose, true));
        },
    }
}

/// One more item.
pub proof fn lemma_item_so_far(
    p: Seq<char>,
    c: Cursor,
    union: ClassSetUnionView,
    left: Option<LeftSide>,
    i: int,
    verbose: bool,
    item: ClassSetItemView,
    c1: Cursor,
)
    requires
        read_so_far(p, c.index, union, left, i, verbose),
        past(p, c.index, verbose) < p.len(),
        lo(p, class_set_item_span(item)) == past(p, c.index, verbose),
        item_reads(p, item, verbose),
        item_fits(p, item, verbose),
        p[past(p, c.index, verbose)] != '-' ==> !is_char(item, '-'),
        past(p, c1.index, verbose) == past(p, hi(p, class_set_item_span(item)), verbose),
    ensures
        read_so_far(p, c1.index, union_push(union, item), left, i, verbose),
{
    let start = base(p, left, i, verbose);
    lemma_push(p, union, start, item, verbose, left is None);
    if left is None {
        let items = union_push(union, item).items;
        if all_dashes(items) {
            assert(forall|k: int|
                0 <= k < union.items.len() ==> items[k] == #[trigger] union.items[k]);
            assert(all_dashes(union.items));
            assert(is_char(items[items.len() - 1], '-'));
            assert(false);
        }
    }
}

/// What a step finds in a class stands for what is written.
#[verifier::rlimit(30)]
pub proof fn lemma_step_reads(
    p: Seq<char>,
    octal_on: bool,
    verbose: bool,
    c: Cursor,
    union: ClassSetUnionView,
    left: Option<LeftSide>,
    set: ClassSetView,
    i: int,
)
    requires
        fits(p),
        lo(p, set.span) < c.index <= p.len(),
        open_reads(p, set, i, verbose),
        read_so_far(p, c.index, union, left, i, verbose),
    ensures
        match class_step(p, octal_on, verbose, c, union, left, set) {
            (c1, ClassStep::Failed(e)) => true,
            (c1, ClassStep::Closed(class)) => {
                &&& class is Bracketed
                &&& class_reads(p, class, verbose)
                &&& class_span(class) == span_between(p, lo(p, set.span), c1.index)
            },
            (c1, ClassStep::Item(item)) => read_so_far(
                p,
                c1.index,
                union_push(union, item),
                left,
                i,
                verbose,
            ),
            (c1, ClassStep::Operator(op)) => read_so_far(
                p,
                c1.index,
                empty_union(p, c1.index),
                Some(op),
                i,
                verbose,
            ),
            (c1, ClassStep::Nested(nested_set, nested_union)) => {
                let open = past(p, c.index, verbose);
                &&& open < p.len()
                &&& p[open] == '['
                &&& !ascii_at(p, open)
                &&& open < c1.index
                &&& nested_set.span == span_between(p, open, c1.index)
                &&& open_reads(p, nested_set, inside(p, open, verbose), verbose)
                &&& read_so_far(
                    p,
                    c1.index,
                    nested_union,
                    None,
                    inside(p, open, verbose),
                    verbose,
                )
            },
        },
{
    broadcast use {lemma_span_index, lemma_skip_index};

    reveal(class_step);
    lemma_skip(p, c, verbose);
    lemma_class_step(p, octal_on, verbose, c, union, left, set);
    let c1 = c.skip(p, verbose);
    let j = c1.index;
    lemma_past(p, c.index, verbose);
    if j < p.len() {
        if p[j] == '[' {
            lemma_ascii_reads(p, j);
            match ascii_class(p, j) {
                Some((end, cls)) => {
                    lemma_item_so_far(
                        p,
                        c,
                        union,
                        left,
                        i,
                        verbose,
                        ClassSetItemView::Ascii(cls),
                        c1.at(end),
                    );
                },
                None => {
                    lemma_class_open(p, verbose, c1);
                    lemma_open_reads(p, verbose, c1);
                },
            }
        } else if p[j] == ']' {
            lemma_apply_reads(p, c, union, left, i, verbose);
            let class = close_class(p, j, union, left, set);
            let open = lo(p, set.span);
            assert(class_span(class) == span_between(p, open, j + 1));
            assert(set_reads(p, class->Bracketed_0, verbose));
        } else {
            lemma_apply_reads(p, c, union, left, i, verbose);
            if plain(p, j) {
                lemma_range_reads(p, octal_on, verbose, c1, set.span);
                match class_range(p, octal_on, verbose, c1, set.span) {
                    (c2, Ok(item)) => {
                        lemma_item_so_far(p, c, union, left, i, verbose, item, c2);
                    },
                    (c2, Err(e)) => {},
                }
            }
        }
    }
}

/// The rest of a class stands for what is written.
pub proof fn lemma_rest_reads(
    p: Seq<char>,
    octal_on: bool,
    verbose: bool,
    c: Cursor,
    union: ClassSetUnionView,
    left: Option<LeftSide>,
    set: ClassSetView,
    i: int,
)
    requires
        fits(p),
        lo(p, set.span) < c.index <= p.len(),
        open_reads(p, set, i, verbose),
        read_so_far(p, c.index, union, left, i, verbose),
    ensures
        match class_rest(p, octal_on, verbose, c, union, left, set) {
            (c1, Ok(class)) => {
                &&& class is Bracketed
                &&& class_reads(p, class, verbose)
                &&& class_span(class) == span_between(p, lo(p, set.span), c1.index)
            },
            (c1, Err(e)) => true,
        },
    decreases p.len() - c.index,
{
    broadcast use lemma_span_index;

    lemma_class_step(p, octal_on, verbose, c, union, left, set);
    lemma_step_reads(p, octal_on, verbose, c, union, left, set, i);
    match class_step(p, octal_on, verbose, c, union, left, set) {
        (c1, ClassStep::Failed(e)) => {},
        (c1, ClassStep::Closed(class)) => {},
        (c1, ClassStep::Item(item)) => {
            lemma_rest_reads(p, octal_on, verbose, c1, union_push(union, item), left, set, i);
        },
        (c1, ClassStep::Operator(op)) => {
            lemma_rest_reads(
                p,
                octal_on,
                verbose,
                c1,
                empty_union(p, c1.index),
                Some(op),
                set,
                i,
            );
        },
        (c1, ClassStep::Nested(nested_set, nested_union)) => {
            let open = past(p, c.index, verbose);
            let j = inside(p, open, verbose);
            lemma_past(p, c.index, verbose);
            lemma_rest_reads(p, octal_on, verbose, c1, nested_union, None, nested_set, j);
            lemma_class_rest(p, octal_on, verbose, c1, nested_union, None, nested_set);
            match class_rest(p, octal_on, verbose, c1, nested_union, None, nested_set) {
                (c2, Err(e)) => {},
                (c2, Ok(class)) => {
                    let item = ClassSetItemView::Class(Box::new(class));
                    assert(item_reads(p, item, verbose));
                    lemma_item_so_far(p, c, union, left, i, verbose, item, c2);
                    lemma_rest_reads(
                        p,
                        octal_on,
                        verbose,
                        c2,
                        union_push_class(union, class),
                        left,
                        set,
                        i,
                    );
                },
            }
        },
    }
}

/// A class stands for what is written.
pub proof fn lemma_class_reads(p: Seq<char>, octal_on: bool, verbose: bool, c: Cursor)
    requires
        fits(p),
        0 <= c.index < p.len(),
        p[c.index] == '[',
    ensures
        match class(p, octal_on, verbose, c) {
            (c1, Ok(class)) => {
                &&& class is Bracketed
                &&& class_reads(p, class, verbose)
                &&& class_span(class) == span_between(p, c.index, c1.index)
            },
            (c1, Err(e)) => true,
        },
{
    broadcast use lemma_span_index;

    lemma_class_open(p, verbose, c);
    lemma_open_reads(p, verbose, c);
    match class_open(p, verbose, c) {
        (c1, Err(e)) => {},
        (c1, Ok((set, union))) => {
            let i = inside(p, c.index, verbose);
            lemma_rest_reads(p, octal_on, verbose, c1, union, None, set, i);
        },
    }
}

} // verus!
