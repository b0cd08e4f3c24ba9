//! The spans of classes in brackets.

use vstd::prelude::*;

use crate::ast::methods::{class_set_item_span, class_set_op_span, class_span, union_push};
use crate::ast::view::{ClassSetItemView, ClassSetOpView, ClassSetUnionView, ClassSetView};
use crate::ast::Span;
use crate::grammar::class::{
    apply_op, class, class_open, class_range, class_rest, class_step, empty_union, leading_dashes,
    lemma_ascii_class, lemma_class_open, lemma_class_rest, lemma_class_step, lemma_leading_dashes,
    union_push_class, ClassStep, LeftSide,
};
use crate::grammar::escape::{class_item, lemma_class_item, verbatim};
use crate::grammar::space::{lemma_skip, Cursor};
use crate::laws::spans::leaf::lemma_primitive_spans;
use crate::laws::spans::{
    class_placed, is_error, is_span, item_placed, items_placed, lemma_position, lemma_span,
    op_placed,
};
use crate::text::{fits, lemma_offset_monotone, offset_at, position_at, span_at, span_between};

verus! {

/// A union whose items stand before the given index.
pub open spec fn union_placed(p: Seq<char>, union: ClassSetUnionView, i: int) -> bool {
    &&& is_span(p, union.span)
    &&& items_placed(
        p,
        union.items,
        union.span.start.offset as int,
        union.span.end.offset as int,
    )
    &&& union.span.end.offset <= offset_at(p, i)
}

/// The left side of an operator stands before what is to its right, and behind
/// the opening of its class.
pub open spec fn left_placed(
    p: Seq<char>,
    left: Option<LeftSide>,
    union: ClassSetUnionView,
    set: ClassSetView,
) -> bool {
    match left {
        None => set.span.start.offset < union.span.start.offset,
        Some(left) => {
            &&& op_placed(p, left.lhs)
            &&& set.span.start.offset < class_set_op_span(left.lhs).start.offset
            &&& class_set_op_span(left.lhs).end.offset + 2 <= union.span.start.offset
        },
    }
}

/// Items that stand before an offset stand before every greater one.
proof fn lemma_items_placed(
    p: Seq<char>,
    items: Seq<ClassSetItemView>,
    lo: int,
    hi: int,
    more: int,
)
    requires
        items_placed(p, items, lo, hi),
        hi <= more,
    ensures
        items_placed(p, items, lo, more),
        lo <= hi,
    decreases items.len(),
{
    if items.len() > 0 {
        let start = class_set_item_span(items.last()).start.offset as int;
        lemma_items_placed(p, items.drop_last(), lo, start, start);
        assert(item_placed(p, items.last()));
    }
}

/// An item behind a union becomes its last item.
proof fn lemma_push_placed(
    p: Seq<char>,
    union: ClassSetUnionView,
    i: int,
    item: ClassSetItemView,
    end: int,
)
    requires
        union_placed(p, union, i),
        item_placed(p, item),
        offset_at(p, i) <= class_set_item_span(item).start.offset,
        class_set_item_span(item).end.offset <= offset_at(p, end),
    ensures
        union_placed(p, union_push(union, item), end),
        union.span.start.offset <= union_push(union, item).span.start.offset,
{
    let items = union.items;
    let lo = union_push(union, item).span.start.offset as int;
    let start = class_set_item_span(item).start.offset as int;
    assert(items.push(item).drop_last() == items);
    assert(items.push(item).last() == item);
    lemma_items_placed(
        p,
        items,
        union.span.start.offset as int,
        union.span.end.offset as int,
        start,
    );
    assert(items_placed(p, items, lo, start));
}

proof fn lemma_dashes_spans(
    p: Seq<char>,
    verbose: bool,
    c: Cursor,
    union: ClassSetUnionView,
)
    requires
        fits(p),
        0 <= c.index <= p.len(),
        union_placed(p, union, c.index),
    ensures
        ({
            let (c1, union1) = leading_dashes(p, verbose, c, union);
            &&& union_placed(p, union1, c1.index)
            &&& union.span.start.offset <= union1.span.start.offset
        }),
    decreases p.len() - c.index,
{
    broadcast use lemma_span;

    lemma_skip(p, c.at(c.index + 1), verbose);
    if c.index < p.len() && p[c.index] == '-' {
        let item = ClassSetItemView::Literal(verbatim(p, c.index));
        let c1 = c.at(c.index + 1).skip(p, verbose);
        lemma_offset_monotone(p, c.index + 1, c1.index);
        lemma_push_placed(p, union, c.index, item, c1.index);
        lemma_dashes_spans(p, verbose, c1, union_push(union, item));
    }
}

/// The opening of a class covers what it is made of, and its first items stand
/// behind its `[`.
proof fn lemma_open_spans(p: Seq<char>, verbose: bool, c: Cursor)
    requires
        fits(p),
        0 <= c.index < p.len(),
    ensures
        match class_open(p, verbose, c) {
            (c1, Ok((set, union))) => {
                &&& set.span == span_between(p, c.index, c1.index)
                &&& union_placed(p, union, c1.index)
                &&& offset_at(p, c.index) < union.span.start.offset
            },
            (c1, Err(e)) => is_error(p, e),
        },
{
    broadcast use {lemma_skip, lemma_span};

    lemma_class_open(p, verbose, c);
    let c1 = c.at(c.index + 1).skip(p, verbose);
    let negated = c1.index < p.len() && p[c1.index] == '^';
    let c2 = if negated {
        c1.at(c1.index + 1).skip(p, verbose)
    } else {
        c1
    };
    lemma_offset_monotone(p, c.index, c2.index);
    let union = ClassSetUnionView { span: span_at(p, c2.index), items: Seq::empty() };
    lemma_dashes_spans(p, verbose, c2, union);
    lemma_leading_dashes(p, verbose, c2, union);
    let (c3, dashes) = leading_dashes(p, verbose, c2, union);
    if c3.index < p.len() {
        let c4 = c3.at(c3.index + 1).skip(p, verbose);
        lemma_offset_monotone(p, c3.index + 1, c4.index);
        lemma_push_placed(
            p,
            dashes,
            c3.index,
            ClassSetItemView::Literal(verbatim(p, c3.index)),
            c4.index,
        );
    }
}

/// An item or a range starts where it is looked for.
proof fn lemma_range_spans(p: Seq<char>, octal_on: bool, verbose: bool, c: Cursor, open: Span)
    requires
        fits(p),
        0 <= c.index < p.len(),
        is_span(p, open),
    ensures
        match class_range(p, octal_on, verbose, c, open) {
            (c1, Ok(item)) => {
                &&& item_placed(p, item)
                &&& class_set_item_span(item).start.offset == offset_at(p, c.index)
                &&& class_set_item_span(item).end.offset <= offset_at(p, c1.index)
            },
            (c1, Err(e)) => is_error(p, e),
        },
{
    broadcast use {lemma_skip, lemma_span, lemma_position};

    lemma_class_item(p, octal_on, verbose, c.index);
    lemma_primitive_spans(p, octal_on, verbose, c.index);
    let end = class_item(p, octal_on, verbose, c.index).0;
    let c1 = c.at(end).skip(p, verbose);
    let c2 = c1.at(c1.index + 1).skip(p, verbose);
    lemma_offset_monotone(p, end, c1.index);
    if c1.index < p.len() && c2.index < p.len() {
        lemma_offset_monotone(p, c1.index, c2.index);
        lemma_class_item(p, octal_on, verbose, c2.index);
        lemma_primitive_spans(p, octal_on, verbose, c2.index);
        lemma_offset_monotone(p, c.index, class_item(p, octal_on, verbose, c2.index).0);
    }
}

/// A set behind the left side of an operator.
proof fn lemma_apply_op(
    p: Seq<char>,
    left: Option<LeftSide>,
    union: ClassSetUnionView,
    set: ClassSetView,
    i: int,
)
    requires
        union_placed(p, union, i),
        left_placed(p, left, union, set),
    ensures
        op_placed(p, apply_op(left, ClassSetOpView::Union(union))),
        set.span.start.offset < class_set_op_span(
            apply_op(left, ClassSetOpView::Union(union)),
        ).start.offset,
        class_set_op_span(apply_op(left, ClassSetOpView::Union(union))).end == union.span.end,
{
    assert(op_placed(p, ClassSetOpView::Union(union)));
    match left {
        Some(left) => {
            assert(op_placed(p, left.lhs));
        },
        None => {},
    }
}

#[verifier::rlimit(30)]
proof fn lemma_step_spans(
    p: Seq<char>,
    octal_on: bool,
    verbose: bool,
    c: Cursor,
    union: ClassSetUnionView,
    left: Option<LeftSide>,
    set: ClassSetView,
)
    requires
        fits(p),
        0 <= c.index <= p.len(),
        is_span(p, set.span),
        union_placed(p, union, c.index),
        left_placed(p, left, union, set),
    ensures
        match class_step(p, octal_on, verbose, c, union, left, set) {
            (c1, ClassStep::Failed(e)) => is_error(p, e),
            (c1, ClassStep::Closed(class)) => {
                &&& class_placed(p, class)
                &&& class_span(class) == Span {
                    start: set.span.start,
                    end: position_at(p, c1.index),
                }
            },
            (c1, ClassStep::Item(item)) => {
                &&& item_placed(p, item)
                &&& offset_at(p, c.index) <= class_set_item_span(item).start.offset
                &&& class_set_item_span(item).end.offset <= offset_at(p, c1.index)
            },
            (c1, ClassStep::Operator(op)) => left_placed(
                p,
                Some(op),
                empty_union(p, c1.index),
                set,
            ),
            (c1, ClassStep::Nested(nested_set, nested_union)) => {
                &&& is_span(p, nested_set.span)
                &&& offset_at(p, c.index) <= nested_set.span.start.offset
                &&& union_placed(p, nested_union, c1.index)
                &&& left_placed(p, None, nested_union, nested_set)
            },
        },
{
    broadcast use {lemma_span, lemma_position};

    reveal(class_step);
    lemma_skip(p, c, verbose);
    let c1 = c.skip(p, verbose);
    let i = c1.index;
    lemma_offset_monotone(p, c.index, i);
    if i < p.len() {
        lemma_offset_monotone(p, i, i + 1);
        if p[i] == '[' {
            lemma_ascii_class(p, i);
            lemma_class_open(p, verbose, c1);
            lemma_open_spans(p, verbose, c1);
        } else if p[i] == ']' {
            lemma_apply_op(p, left, union, set, c.index);
        } else {
            lemma_apply_op(p, left, union, set, c.index);
            lemma_range_spans(p, octal_on, verbose, c1, set.span);
            if i + 2 <= p.len() {
                lemma_offset_monotone(p, i, i + 2);
            }
        }
    }
}

/// The rest of a class ends with its `]`.
proof fn lemma_rest_spans(
    p: Seq<char>,
    octal_on: bool,
    verbose: bool,
    c: Cursor,
    union: ClassSetUnionView,
    left: Option<LeftSide>,
    set: ClassSetView,
)
    requires
        fits(p),
        0 <= c.index <= p.len(),
        is_span(p, set.span),
        union_placed(p, union, c.index),
        left_placed(p, left, union, set),
    ensures
        match class_rest(p, octal_on, verbose, c, union, left, set) {
            (c1, Ok(class)) => {
                &&& class_placed(p, class)
                &&& class_span(class) == Span {
                    start: set.span.start,
                    end: position_at(p, c1.index),
                }
            },
            (c1, Err(e)) => is_error(p, e),
        },
    decreases p.len() - c.index,
{
    lemma_class_step(p, octal_on, verbose, c, union, left, set);
    lemma_step_spans(p, octal_on, verbose, c, union, left, set);
    match class_step(p, octal_on, verbose, c, union, left, set) {
        (c1, ClassStep::Failed(e)) => {},
        (c1, ClassStep::Closed(class)) => {},
        (c1, ClassStep::Item(item)) => {
            lemma_push_placed(p, union, c.index, item, c1.index);
            lemma_rest_spans(p, octal_on, verbose, c1, union_push(union, item), left, set);
        },
        (c1, ClassStep::Operator(op)) => {
            lemma_span(p, c1.index, c1.index);
            lemma_rest_spans(
                p,
                octal_on,
                verbose,
                c1,
                empty_union(p, c1.index),
                Some(op),
                set,
            );
        },
        (c1, ClassStep::Nested(nested_set, nested_union)) => {
            lemma_rest_spans(p, octal_on, verbose, c1, nested_union, None, nested_set);
            lemma_class_rest(p, octal_on, verbose, c1, nested_union, None, nested_set);
            match class_rest(p, octal_on, verbose, c1, nested_union, None, nested_set) {
                (c2, Err(e)) => {},
                (c2, Ok(class)) => {
                    lemma_position(p, c2.index);
                    lemma_push_placed(
                        p,
                        union,
                        c.index,
                        ClassSetItemView::Class(Box::new(class)),
                        c2.index,
                    );
                    lemma_rest_spans(
                        p,
                        octal_on,
                        verbose,
                        c2,
                        union_push_class(union, class),
                        left,
                        set,
                    );
                },
            }
        },
    }
}

/// A class covers what it is made of.
pub proof fn lemma_class_spans(p: Seq<char>, octal_on: bool, verbose: bool, c: Cursor)
    requires
        fits(p),
        0 <= c.index < p.len(),
    ensures
        match class(p, octal_on, verbose, c) {
            (c1, Ok(class)) => {
                &&& class_placed(p, class)
                &&& class_span(class) == span_between(p, c.index, c1.index)
            },
            (c1, Err(e)) => is_error(p, e),
        },
{
    lemma_class_open(p, verbose, c);
    lemma_open_spans(p, verbose, c);
    match class_open(p, verbose, c) {
        (c1, Err(e)) => {},
        (c1, Ok((set, union))) => {
            lemma_span(p, c.index, c1.index);
            lemma_rest_spans(p, octal_on, verbose, c1, union, None, set);
        },
    }
}

} // verus!
