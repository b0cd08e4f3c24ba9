//! How far a class is read where it has an error.

use vstd::prelude::*;

use crate::ast::methods::union_push;
use crate::ast::view::{ClassSetItemView, ClassSetUnionView, ClassSetView};
use crate::ast::{Error, ErrorKind, Span};
use crate::grammar::class::{
    class, class_open, class_range, class_rest, class_step, empty_union, leading_dashes,
    lemma_class_open, lemma_class_rest, lemma_class_step, lemma_leading_dashes, primitive_span,
    union_push_class, ClassStep, LeftSide,
};
use crate::grammar::escape::{class_item, lemma_class_item, verbatim, PrimitiveView};
use crate::grammar::space::{lemma_skip, Cursor};
use crate::laws::reading::class::{
    ascii_at, inside, is_char, item_reads, items_end, lemma_ascii_reads, lemma_dashes_read,
    lemma_item_so_far, lemma_open_reads, lemma_push, lemma_rest_reads, lemma_step_reads, open_end,
    open_reads, plain, read_so_far,
};
use crate::laws::reading::faults::{escape_fault, lemma_escape_fault};
use crate::laws::reading::leaf::{
    lemma_past, lemma_primitive_reads, lemma_skip_index, lemma_verbatim_reads, prim_reads,
};
use crate::laws::reading::{hi, lemma_span_index, lo, past, spans};
use crate::text::{fits, span_at, span_between};

verus! {

/// An item of a class stands at the given index. Only an escape sequence can be
/// anything but a literal.
pub open spec fn item_at(p: Seq<char>, prim: PrimitiveView, i: int, verbose: bool) -> bool {
    &&& prim_reads(p, prim, verbose)
    &&& spans(p, primitive_span(prim))
    &&& lo(p, primitive_span(prim)) == i
    &&& !(prim is Literal) ==> p[i] == '\\'
}

/// Some item of a class stands at the given index.
pub open spec fn some_item_at(p: Seq<char>, i: int, verbose: bool) -> bool {
    exists|prim: PrimitiveView| item_at(p, prim, i, verbose)
}

/// A `-` that makes a range follows an item that ends at the given index.
pub open spec fn ranged(p: Seq<char>, i: int, verbose: bool) -> bool {
    let j = past(p, i, verbose);
    &&& j < p.len()
    &&& p[j] == '-'
    &&& !(j + 1 < p.len() && (p[j + 1] == ']' || p[j + 1] == '-'))
}

/// The index at which the second end of a range is looked for, whose first end
/// is an item that ends at the given index.
pub open spec fn second_at(p: Seq<char>, i: int, verbose: bool) -> int {
    past(p, past(p, i, verbose) + 1, verbose)
}

/// The error of an item that has no place where it stands.
pub open spec fn is_illegal(prim: PrimitiveView, e: Error) -> bool {
    &&& !(prim is Literal)
    &&& e == Error { span: primitive_span(prim), kind: ErrorKind::ClassIllegal }
}

/// What is wrong with the given item: it is an assertion, or an end of a range
/// and not a literal, or the other end of the range is not well-formed or is not
/// a literal.
pub open spec fn range_fault(
    p: Seq<char>,
    octal_on: bool,
    first: PrimitiveView,
    verbose: bool,
    e: Error,
) -> bool {
    let end = hi(p, primitive_span(first));
    let j = second_at(p, end, verbose);
    if ranged(p, end, verbose) {
        &&& j < p.len()
        &&& {
            ||| escape_fault(p, octal_on, j, verbose, e)
            ||| is_illegal(first, e) && some_item_at(p, j, verbose)
            ||| first is Literal && exists|second: PrimitiveView|
                #[trigger] item_at(p, second, j, verbose) && is_illegal(second, e)
        }
    } else {
        first is Assertion && is_illegal(first, e) && past(p, end, verbose) < p.len()
    }
}

/// What is wrong with the item of a class at the given index.
pub open spec fn item_fault(
    p: Seq<char>,
    octal_on: bool,
    i: int,
    verbose: bool,
    e: Error,
) -> bool {
    ||| escape_fault(p, octal_on, i, verbose, e)
    ||| exists|first: PrimitiveView|
        #[trigger] item_at(p, first, i, verbose) && range_fault(p, octal_on, first, verbose, e)
}

/// The text ends behind the item at the given index, or in the range that it
/// starts.
pub open spec fn item_cut_off(p: Seq<char>, i: int, verbose: bool) -> bool {
    exists|first: PrimitiveView|
        #[trigger] item_at(p, first, i, verbose) && {
            let end = hi(p, primitive_span(first));
            ||| past(p, end, verbose) == p.len()
            ||| ranged(p, end, verbose) && second_at(p, end, verbose) == p.len()
        }
}

/// A class that is read up to a place in it: where it is opened, the items that
/// are read last, what stands to the left of an operator before them, if any,
/// and the index up to which the class is read.
pub struct ClassFrame {
    pub open: int,
    pub union: ClassSetUnionView,
    pub left: Option<LeftSide>,
    pub at: int,
}

/// What is read stands for what is written.
pub open spec fn class_frame_reads(p: Seq<char>, f: ClassFrame, verbose: bool) -> bool {
    &&& 0 <= f.open < f.at <= p.len()
    &&& p[f.open] == '['
    &&& read_so_far(p, f.at, f.union, f.left, inside(p, f.open, verbose), verbose)
}

/// A class is opened at the index `open`: it is the one at the index `from`, or
/// stands in a class that is read up to it.
pub open spec fn opened_in(
    p: Seq<char>,
    outer: Seq<ClassFrame>,
    open: int,
    from: int,
    verbose: bool,
) -> bool
    decreases outer.len(),
{
    if outer.len() == 0 {
        open == from
    } else {
        let f = outer.last();
        &&& class_frame_reads(p, f, verbose)
        &&& open == past(p, f.at, verbose)
        &&& !ascii_at(p, open)
        &&& opened_in(p, outer.drop_last(), f.open, from, verbose)
    }
}

/// What is wrong at the place up to which a class is read: the item that stands
/// there, or that the class is not closed.
pub open spec fn class_fault(
    p: Seq<char>,
    octal_on: bool,
    f: ClassFrame,
    verbose: bool,
    e: Error,
) -> bool {
    let i = past(p, f.at, verbose);
    let item = i < p.len() && plain(p, i);
    ||| item && item_fault(p, octal_on, i, verbose, e)
    ||| {
        &&& e.kind == ErrorKind::ClassUnclosed
        &&& e.span == span_between(p, f.open, open_end(p, f.open, verbose))
        &&& i == p.len() || item && item_cut_off(p, i, verbose)
    }
}

/// The class at the given index is read up to a place at which something is
/// wrong.
pub open spec fn blamed_at(
    p: Seq<char>,
    octal_on: bool,
    open: int,
    verbose: bool,
    e: Error,
) -> bool {
    exists|f: ClassFrame|
        #[trigger] class_frame_reads(p, f, verbose) && f.open == open && class_fault(
            p,
            octal_on,
            f,
            verbose,
            e,
        )
}

/// The class at the given index, or one in it, is read up to a place at which
/// something is wrong.
pub open spec fn class_blamed(
    p: Seq<char>,
    octal_on: bool,
    from: int,
    verbose: bool,
    e: Error,
) -> bool {
    exists|outer: Seq<ClassFrame>, open: int|
        #[trigger] opened_in(p, outer, open, from, verbose) && blamed_at(
            p,
            octal_on,
            open,
            verbose,
            e,
        )
}

proof fn lemma_item_at(p: Seq<char>, octal_on: bool, verbose: bool, i: int)
    requires
        fits(p),
        0 <= i < p.len(),
    ensures
        match class_item(p, octal_on, verbose, i) {
            (end, Ok(prim)) => {
                &&& item_at(p, prim, i, verbose)
                &&& i < end <= p.len()
                &&& hi(p, primitive_span(prim)) == end
                &&& !(prim is Dot)
            },
            (end, Err(e)) => escape_fault(p, octal_on, i, verbose, e),
        },
{
    broadcast use lemma_span_index;

    lemma_class_item(p, octal_on, verbose, i);
    lemma_primitive_reads(p, octal_on, verbose, i);
    if p[i] == '\\' {
        lemma_escape_fault(p, octal_on, verbose, i);
        let end = class_item(p, octal_on, verbose, i).0;
        assert(p.subrange(i, end)[0] == p[i]);
    }
}

proof fn lemma_range_fault(p: Seq<char>, octal_on: bool, verbose: bool, c: Cursor, open: Span)
    requires
        fits(p),
        0 <= c.index < p.len(),
        plain(p, c.index),
    ensures
        match class_range(p, octal_on, verbose, c, open) {
            (c1, Ok(item)) => true,
            (c1, Err(e)) => {
                ||| item_fault(p, octal_on, c.index, verbose, e)
                ||| {
                    &&& e == (Error { span: open, kind: ErrorKind::ClassUnclosed })
                    &&& item_cut_off(p, c.index, verbose)
                }
            },
        },
{
    broadcast use {lemma_skip, lemma_skip_index};

    lemma_item_at(p, octal_on, verbose, c.index);
    match class_item(p, octal_on, verbose, c.index) {
        (end, Ok(first)) => {
            let c1 = c.at(end).skip(p, verbose);
            let c2 = c1.at(c1.index + 1).skip(p, verbose);
            lemma_past(p, end, verbose);
            assert(item_at(p, first, c.index, verbose));
            if c1.index < p.len() && ranged(p, end, verbose) {
                lemma_past(p, c1.index + 1, verbose);
                if c2.index < p.len() {
                    lemma_item_at(p, octal_on, verbose, c2.index);
                }
            }
        },
        _ => {},
    }
}

proof fn lemma_open_fault(p: Seq<char>, octal_on: bool, verbose: bool, c: Cursor)
    requires
        fits(p),
        0 <= c.index < p.len(),
        p[c.index] == '[',
    ensures
        match class_open(p, verbose, c) {
            (c1, Ok(_)) => true,
            (c1, Err(e)) => blamed_at(p, octal_on, c.index, verbose, e),
        },
{
    broadcast use {lemma_skip, lemma_span_index, lemma_skip_index};

    lemma_class_open(p, verbose, c);
    let c1 = c.at(c.index + 1).skip(p, verbose);
    let negated = c1.index < p.len() && p[c1.index] == '^';
    let c2 = if negated {
        c1.at(c1.index + 1).skip(p, verbose)
    } else {
        c1
    };
    let i = c2.index;
    assert(i == inside(p, c.index, verbose));
    lemma_past(p, c.index + 1, verbose);
    if negated {
        lemma_past(p, c1.index + 1, verbose);
    }
    let union = ClassSetUnionView { span: span_at(p, c2.index), items: Seq::empty() };
    lemma_dashes_read(p, verbose, c2, union, i);
    lemma_leading_dashes(p, verbose, c2, union);
    let (c3, dashes) = leading_dashes(p, verbose, c2, union);
    lemma_past(p, c3.index, verbose);
    if dashes.items.len() > 0 {
        let last = dashes.items.last();
        assert(item_reads(p, last, verbose));
        assert(is_char(last, '-'));
        lemma_past(p, items_end(p, dashes.items, i), verbose);
    }
    let bracket = c3.index < p.len() && p[c3.index] == ']' && dashes.items.len() == 0;
    let item = ClassSetItemView::Literal(verbatim(p, c3.index));
    if bracket {
        lemma_verbatim_reads(p, c3.index, verbose);
        lemma_push(p, dashes, i, item, verbose, true);
        lemma_past(p, c3.index + 1, verbose);
        assert(!is_char(union_push(dashes, item).items[0], '-'));
    }
    match class_open(p, verbose, c) {
        (c9, Err(e)) => {
            let all = if bracket {
                union_push(dashes, item)
            } else {
                dashes
            };
            lemma_past(p, c9.index, verbose);
            let f = ClassFrame { open: c.index, union: all, left: None, at: c9.index };
            assert(class_frame_reads(p, f, verbose));
            assert(class_fault(p, octal_on, f, verbose, e));
        },
        _ => {},
    }
}

#[verifier::rlimit(30)]
proof fn lemma_step_fault(
    p: Seq<char>,
    octal_on: bool,
    verbose: bool,
    c: Cursor,
    union: ClassSetUnionView,
    left: Option<LeftSide>,
    set: ClassSetView,
    i: int,
)
    requires
        fits(p),
        lo(p, set.span) < c.index <= p.len(),
        open_reads(p, set, i, verbose),
        read_so_far(p, c.index, union, left, i, verbose),
    ensures
        match class_step(p, octal_on, verbose, c, union, left, set) {
            (c1, ClassStep::Failed(e)) => {
                let j = past(p, c.index, verbose);
                ||| blamed_at(p, octal_on, lo(p, set.span), verbose, e)
                ||| j < p.len() && !ascii_at(p, j) && blamed_at(p, octal_on, j, verbose, e)
            },
            _ => true,
        },
{
    broadcast use {lemma_span_index, lemma_skip_index};

    reveal(class_step);
    lemma_skip(p, c, verbose);
    let c1 = c.skip(p, verbose);
    let j = c1.index;
    let open = lo(p, set.span);
    let f = ClassFrame { open, union, left, at: c.index };
    lemma_past(p, c.index, verbose);
    assert(i == inside(p, open, verbose));
    assert(class_frame_reads(p, f, verbose));
    match class_step(p, octal_on, verbose, c, union, left, set) {
        (c2, ClassStep::Failed(e)) => {
            if j >= p.len() {
                assert(class_fault(p, octal_on, f, verbose, e));
            } else if p[j] == '[' {
                lemma_ascii_reads(p, j);
                lemma_open_fault(p, octal_on, verbose, c1);
            } else {
                lemma_range_fault(p, octal_on, verbose, c1, set.span);
                assert(class_fault(p, octal_on, f, verbose, e));
            }
        },
        _ => {},
    }
}

proof fn lemma_rest_fault(
    p: Seq<char>,
    octal_on: bool,
    verbose: bool,
    c: Cursor,
    union: ClassSetUnionView,
    left: Option<LeftSide>,
    set: ClassSetView,
    i: int,
    outer: Seq<ClassFrame>,
    from: int,
)
    requires
        fits(p),
        lo(p, set.span) < c.index <= p.len(),
        open_reads(p, set, i, verbose),
        read_so_far(p, c.index, union, left, i, verbose),
        opened_in(p, outer, lo(p, set.span), from, verbose),
    ensures
        match class_rest(p, octal_on, verbose, c, union, left, set) {
            (c1, Ok(class)) => true,
            (c1, Err(e)) => class_blamed(p, octal_on, from, verbose, e),
        },
    decreases p.len() - c.index,
{
    broadcast use lemma_span_index;

    lemma_class_step(p, octal_on, verbose, c, union, left, set);
    lemma_step_reads(p, octal_on, verbose, c, union, left, set, i);
    lemma_step_fault(p, octal_on, verbose, c, union, left, set, i);
    let f = ClassFrame { open: lo(p, set.span), union, left, at: c.index };
    let frames = outer.push(f);
    assert(class_frame_reads(p, f, verbose));
    assert(frames.drop_last() =~= outer);
    assert(frames.last() == f);
    let open = past(p, c.index, verbose);
    lemma_past(p, c.index, verbose);
    match class_step(p, octal_on, verbose, c, union, left, set) {
        (c1, ClassStep::Failed(e)) => {
            if !blamed_at(p, octal_on, lo(p, set.span), verbose, e) {
                assert(opened_in(p, frames, open, from, verbose));
            }
        },
        (c1, ClassStep::Closed(class)) => {},
        (c1, ClassStep::Item(item)) => {
            let next = union_push(union, item);
            lemma_rest_fault(p, octal_on, verbose, c1, next, left, set, i, outer, from);
        },
        (c1, ClassStep::Operator(op)) => {
            let none = empty_union(p, c1.index);
            lemma_rest_fault(p, octal_on, verbose, c1, none, Some(op), set, i, outer, from);
        },
        (c1, ClassStep::Nested(nested_set, nested_union)) => {
            let j = inside(p, open, verbose);
            assert(opened_in(p, frames, open, from, verbose));
            lemma_rest_reads(p, octal_on, verbose, c1, nested_union, None, nested_set, j);
            lemma_rest_fault(
                p,
                octal_on,
                verbose,
                c1,
                nested_union,
                None,
                nested_set,
                j,
                frames,
                from,
            );
            lemma_class_rest(p, octal_on, verbose, c1, nested_union, None, nested_set);
            match class_rest(p, octal_on, verbose, c1, nested_union, None, nested_set) {
                (c2, Err(e)) => {},
                (c2, Ok(class)) => {
                    let item = ClassSetItemView::Class(Box::new(class));
                    assert(item_reads(p, item, verbose));
                    lemma_item_so_far(p, c, union, left, i, verbose, item, c2);
                    lemma_rest_fault(
                        p,
                        octal_on,
                        verbose,
                        c2,
                        union_push_class(union, class),
                        left,
                        set,
                        i,
                        outer,
                        from,
                    );
                },
            }
        },
    }
}

/// A class that is refused has something wrong.
pub proof fn lemma_class_faults(p: Seq<char>, octal_on: bool, verbose: bool, c: Cursor)
    requires
        fits(p),
        0 <= c.index < p.len(),
        p[c.index] == '[',
    ensures
        match class(p, octal_on, verbose, c) {
            (c1, Ok(class)) => true,
            (c1, Err(e)) => class_blamed(p, octal_on, c.index, verbose, e),
        },
{
    broadcast use lemma_span_index;

    let none = Seq::<ClassFrame>::empty();
    lemma_class_open(p, verbose, c);
    lemma_open_reads(p, verbose, c);
    lemma_open_fault(p, octal_on, verbose, c);
    assert(opened_in(p, none, c.index, c.index, verbose));
    match class_open(p, verbose, c) {
        (c1, Err(e)) => {},
        (c1, Ok((set, union))) => {
            let i = inside(p, c.index, verbose);
            lemma_rest_fault(p, octal_on, verbose, c1, union, None, set, i, none, c.index);
        },
    }
}

} // verus!
