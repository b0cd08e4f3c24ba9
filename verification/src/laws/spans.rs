//! The spans of trees and errors.

use vstd::prelude::*;

use crate::ast::methods::{ast_span, class_set_item_span, class_set_op_span, class_span};
use crate::ast::view::{AstView, ClassSetItemView, ClassSetOpView, ClassView, GroupKindView};
use crate::ast::{Error, ErrorKind, FlagsItem, Position, Span};
use crate::text::{fits, lemma_offset_monotone, offset_at, position_at, span_between};

pub mod class;
pub mod cover;
pub mod expr;
pub mod leaf;
pub mod whole;

verus! {

/// A position in a text.
pub open spec fn is_position(p: Seq<char>, pos: Position) -> bool {
    exists|i: int| 0 <= i <= p.len() && pos == #[trigger] position_at(p, i)
}

/// A span in a text.
pub open spec fn is_span(p: Seq<char>, span: Span) -> bool {
    &&& is_position(p, span.start)
    &&& is_position(p, span.end)
    &&& span.start.offset <= span.end.offset
}

/// An error whose spans are spans in a text.
pub open spec fn is_error(p: Seq<char>, e: Error) -> bool {
    &&& is_span(p, e.span)
    &&& match e.kind {
        ErrorKind::FlagDuplicate { original, .. } => is_span(p, original),
        ErrorKind::FlagRepeatedNegation { original } => is_span(p, original),
        _ => true,
    }
}

/// Flags that stand one behind the other between two offsets.
pub open spec fn flags_placed(p: Seq<char>, items: Seq<FlagsItem>, lo: int, hi: int) -> bool
    decreases items.len(),
{
    if items.len() == 0 {
        lo <= hi
    } else {
        &&& flags_placed(p, items.drop_last(), lo, items.last().span.start.offset as int)
        &&& is_span(p, items.last().span)
        &&& items.last().span.end.offset <= hi
    }
}

/// The name or the flags of a group, which stand between two offsets.
pub open spec fn kind_placed(p: Seq<char>, kind: GroupKindView, lo: int, hi: int) -> bool {
    match kind {
        GroupKindView::CaptureIndex => true,
        GroupKindView::CaptureName(name) => {
            &&& is_span(p, name.span)
            &&& lo < name.span.start.offset
            &&& name.span.end.offset < hi
        },
        GroupKindView::NonCapturing(flags) => {
            &&& is_span(p, flags.span)
            &&& lo < flags.span.start.offset
            &&& flags.span.end.offset < hi
            &&& flags_placed(
                p,
                flags.items,
                flags.span.start.offset as int,
                flags.span.end.offset as int,
            )
        },
    }
}

/// A tree in which every span is a span in the text, every node stands inside
/// of the node above it, and nodes side by side stand one behind the other:
///
/// - the operator of a repetition stands behind its operand, and both together
///   make up the repetition;
/// - what is in a group stands between its parentheses, behind the name or the
///   flags of the group;
/// - the parts of a concatenation and the branches of an alternation stand in
///   order.
pub open spec fn placed(p: Seq<char>, ast: AstView) -> bool
    decreases ast,
{
    let span = ast_span(ast);
    &&& is_span(p, span)
    &&& match ast {
        AstView::Flags(set) => {
            &&& is_span(p, set.flags.span)
            &&& span.start.offset < set.flags.span.start.offset
            &&& set.flags.span.end.offset < span.end.offset
            &&& flags_placed(
                p,
                set.flags.items,
                set.flags.span.start.offset as int,
                set.flags.span.end.offset as int,
            )
        },
        AstView::Class(class) => class_placed(p, class),
        AstView::Repetition(x) => {
            &&& placed(p, *x.ast)
            &&& is_span(p, x.op.span)
            &&& span.start == ast_span(*x.ast).start
            &&& ast_span(*x.ast).end.offset <= x.op.span.start.offset
            &&& x.op.span.end == span.end
        },
        AstView::Group(x) => {
            &&& placed(p, *x.ast)
            &&& span.start.offset < ast_span(*x.ast).start.offset
            &&& ast_span(*x.ast).end.offset < span.end.offset
            &&& kind_placed(
                p,
                x.kind,
                span.start.offset as int,
                ast_span(*x.ast).start.offset as int,
            )
        },
        AstView::Alternation(x) => asts_placed(
            p,
            x.asts,
            span.start.offset as int,
            span.end.offset as int,
        ),
        AstView::Concat(x) => asts_placed(
            p,
            x.asts,
            span.start.offset as int,
            span.end.offset as int,
        ),
        _ => true,
    }
}

/// Trees that stand one behind the other between two offsets.
pub open spec fn asts_placed(p: Seq<char>, asts: Seq<AstView>, lo: int, hi: int) -> bool
    decreases asts,
{
    if asts.len() == 0 {
        lo <= hi
    } else {
        &&& asts_placed(p, asts.drop_last(), lo, ast_span(asts.last()).start.offset as int)
        &&& placed(p, asts.last())
        &&& ast_span(asts.last()).end.offset <= hi
    }
}

/// A class in which every span is a span in the text, and whose contents stand
/// between its brackets.
pub open spec fn class_placed(p: Seq<char>, class: ClassView) -> bool
    decreases class,
{
    &&& is_span(p, class_span(class))
    &&& match class {
        ClassView::Bracketed(set) => {
            &&& op_placed(p, set.op)
            &&& set.span.start.offset < class_set_op_span(set.op).start.offset
            &&& class_set_op_span(set.op).end.offset < set.span.end.offset
        },
        _ => true,
    }
}

/// What a class consists of. There is an operator between two operands.
pub open spec fn op_placed(p: Seq<char>, op: ClassSetOpView) -> bool
    decreases op,
{
    let span = class_set_op_span(op);
    &&& is_span(p, span)
    &&& match op {
        ClassSetOpView::Union(union) => items_placed(
            p,
            union.items,
            span.start.offset as int,
            span.end.offset as int,
        ),
        ClassSetOpView::BinaryOp(x) => {
            &&& op_placed(p, *x.lhs)
            &&& op_placed(p, *x.rhs)
            &&& span.start == class_set_op_span(*x.lhs).start
            &&& class_set_op_span(*x.lhs).end.offset + 2 <= class_set_op_span(
                *x.rhs,
            ).start.offset
            &&& span.end == class_set_op_span(*x.rhs).end
        },
    }
}

/// Items of a class that stand one behind the other between two offsets.
pub open spec fn items_placed(p: Seq<char>, items: Seq<ClassSetItemView>, lo: int, hi: int) -> bool
    decreases items,
{
    if items.len() == 0 {
        lo <= hi
    } else {
        &&& items_placed(
            p,
            items.drop_last(),
            lo,
            class_set_item_span(items.last()).start.offset as int,
        )
        &&& item_placed(p, items.last())
        &&& class_set_item_span(items.last()).end.offset <= hi
    }
}

/// An item of a class. The ends of a range have a `-` between them.
pub open spec fn item_placed(p: Seq<char>, item: ClassSetItemView) -> bool
    decreases item,
{
    &&& is_span(p, class_set_item_span(item))
    &&& match item {
        ClassSetItemView::Range(x) => {
            &&& is_span(p, x.start.span)
            &&& is_span(p, x.end.span)
            &&& x.span.start == x.start.span.start
            &&& x.start.span.end.offset < x.end.span.start.offset
            &&& x.end.span.end == x.span.end
        },
        ClassSetItemView::Class(class) => class_placed(p, *class),
        _ => true,
    }
}

/// The positions of a text, and their offsets.
pub broadcast proof fn lemma_position(p: Seq<char>, i: int)
    requires
        fits(p),
        0 <= i <= p.len(),
    ensures
        is_position(p, #[trigger] position_at(p, i)),
        position_at(p, i).offset == offset_at(p, i),
{
    lemma_offset_monotone(p, i, p.len() as int);
}

/// The spans of a text, and their offsets.
pub broadcast proof fn lemma_span(p: Seq<char>, i: int, j: int)
    requires
        fits(p),
        0 <= i <= j <= p.len(),
    ensures
        is_span(p, #[trigger] span_between(p, i, j)),
        span_between(p, i, j).start.offset == offset_at(p, i),
        span_between(p, i, j).end.offset == offset_at(p, j),
        offset_at(p, i) + (j - i) <= offset_at(p, j),
{
    lemma_position(p, i);
    lemma_position(p, j);
    lemma_offset_monotone(p, i, j);
}

/// Trees that stand before an offset stand before every greater one.
pub proof fn lemma_asts_placed(p: Seq<char>, asts: Seq<AstView>, lo: int, hi: int, more: int)
    requires
        asts_placed(p, asts, lo, hi),
        hi <= more,
    ensures
        asts_placed(p, asts, lo, more),
        lo <= hi,
    decreases asts.len(),
{
    if asts.len() > 0 {
        let start = ast_span(asts.last()).start.offset as int;
        lemma_asts_placed(p, asts.drop_last(), lo, start, start);
        assert(placed(p, asts.last()));
    }
}

/// A tree behind others.
pub proof fn lemma_asts_push(
    p: Seq<char>,
    asts: Seq<AstView>,
    ast: AstView,
    lo: int,
    hi: int,
    end: int,
)
    requires
        asts_placed(p, asts, lo, hi),
        placed(p, ast),
        hi <= ast_span(ast).start.offset,
        ast_span(ast).end.offset <= end,
    ensures
        asts_placed(p, asts.push(ast), lo, end),
{
    lemma_asts_placed(p, asts, lo, hi, ast_span(ast).start.offset as int);
    assert(asts.push(ast).drop_last() == asts);
    assert(asts.push(ast).last() == ast);
}

} // verus!
