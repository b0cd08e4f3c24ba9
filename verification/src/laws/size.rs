//! The size of trees.

use either::Either;
use vstd::prelude::*;

use crate::ast::methods::union_push;
use crate::ast::view::{
    AlternationView, AstView, ClassSetItemView, ClassSetOpView, ClassSetUnionView, ClassSetView,
    ClassUnicodeKindView, ClassView, ConcatView, GroupKindView,
};
use crate::ast::{FlagsItem, RepetitionKind, Span};
use crate::chars::{find_char, lemma_run_end, CharSet};
use crate::grammar::class::{
    apply_op, class, class_open, class_range, class_rest, class_step, empty_union,
    into_class_set_item, leading_dashes, lemma_ascii_class, lemma_class_open, lemma_class_rest,
    lemma_class_step, lemma_leading_dashes, union_push_class, ClassStep, LeftSide,
};
use crate::grammar::escape::{
    class_item, escape, find_not_equal, lemma_class_item, lemma_escape, primitive, unicode_kind,
    verbatim, PrimitiveView,
};
use crate::grammar::expr::{
    add_branch, branch, close_group, concat_push, empty_concat, expr, finish, into_ast, item,
    lemma_expr, lemma_item, lemma_part, operand, parse, part, range, repeat, repetition_kind,
    verbose_in, ExprEnd, Part,
};
use crate::grammar::group::{
    flags, flags_item_kind, flags_rest, group_open, lemma_capture_name, lemma_flags_rest,
    lemma_group_prefixes,
};
use crate::grammar::space::{lemma_skip, Cursor};
use crate::grammar::Options;
use crate::text::{char_span_at, prefix_at, span_at};

verus! {

/// The size of a tree: the number of its nodes, of the items in its classes and
/// flags, and of the characters in the names that it holds.
pub open spec fn ast_size(ast: AstView) -> nat
    decreases ast,
{
    match ast {
        AstView::Flags(set) => 1 + set.flags.items.len(),
        AstView::Class(class) => 1 + class_size(class),
        AstView::Repetition(x) => 1 + ast_size(*x.ast),
        AstView::Group(x) => 1 + kind_size(x.kind) + ast_size(*x.ast),
        AstView::Alternation(x) => 1 + asts_size(x.asts),
        AstView::Concat(x) => 1 + asts_size(x.asts),
        _ => 1,
    }
}

/// The size of a sequence of trees.
pub open spec fn asts_size(asts: Seq<AstView>) -> nat
    decreases asts,
{
    if asts.len() == 0 {
        0
    } else {
        asts_size(asts.drop_last()) + ast_size(asts.last())
    }
}

/// The size of the name or the flags of a group.
pub open spec fn kind_size(kind: GroupKindView) -> nat {
    match kind {
        GroupKindView::CaptureIndex => 0,
        GroupKindView::CaptureName(name) => name.name.len(),
        GroupKindView::NonCapturing(flags) => flags.items.len(),
    }
}

/// The size of a class.
pub open spec fn class_size(class: ClassView) -> nat
    decreases class,
{
    match class {
        ClassView::Unicode(x) => 1 + unicode_size(x.kind),
        ClassView::Perl(_) => 1,
        ClassView::Bracketed(set) => 1 + op_size(set.op),
    }
}

/// The size of the name of a Unicode class.
pub open spec fn unicode_size(kind: ClassUnicodeKindView) -> nat {
    match kind {
        ClassUnicodeKindView::OneLetter(_) => 1,
        ClassUnicodeKindView::Named(name) => name.len(),
        ClassUnicodeKindView::NamedValue { op, name, value } => 1 + name.len() + value.len(),
    }
}

/// The size of what a class consists of.
pub open spec fn op_size(op: ClassSetOpView) -> nat
    decreases op,
{
    match op {
        ClassSetOpView::Union(union) => 1 + items_size(union.items),
        ClassSetOpView::BinaryOp(x) => 1 + op_size(*x.lhs) + op_size(*x.rhs),
    }
}

/// The size of a sequence of items of a class.
pub open spec fn items_size(items: Seq<ClassSetItemView>) -> nat
    decreases items,
{
    if items.len() == 0 {
        0
    } else {
        items_size(items.drop_last()) + item_size(items.last())
    }
}

/// The size of an item of a class.
pub open spec fn item_size(item: ClassSetItemView) -> nat
    decreases item,
{
    match item {
        ClassSetItemView::Literal(_) => 1,
        ClassSetItemView::Range(_) => 3,
        ClassSetItemView::Ascii(_) => 1,
        ClassSetItemView::Class(class) => 1 + class_size(*class),
    }
}

proof fn lemma_items_push(items: Seq<ClassSetItemView>, item: ClassSetItemView)
    ensures
        items_size(items.push(item)) == items_size(items) + item_size(item),
{
    assert(items.push(item).drop_last() == items);
    assert(items.push(item).last() == item);
}

proof fn lemma_asts_push(asts: Seq<AstView>, ast: AstView)
    ensures
        asts_size(asts.push(ast)) == asts_size(asts) + ast_size(ast),
{
    assert(asts.push(ast).drop_last() == asts);
    assert(asts.push(ast).last() == ast);
}

proof fn lemma_find_not_equal(s: Seq<char>, i: int)
    requires
        0 <= i <= s.len(),
    ensures
        i <= find_not_equal(s, i) <= s.len(),
        find_not_equal(s, i) < s.len() ==> find_not_equal(s, i) + 2 <= s.len(),
    decreases s.len() - i,
{
    if i < s.len() {
        lemma_find_not_equal(s, i + 1);
    }
}

/// The name of a Unicode class is not longer than what it is read from.
proof fn lemma_unicode_size(name: Seq<char>)
    ensures
        unicode_size(unicode_kind(name)) <= name.len(),
{
    lemma_find_not_equal(name, 0);
    lemma_run_end(name, 0, CharSet::Except(':'));
    lemma_run_end(name, 0, CharSet::Except('='));
}

/// A primitive is not larger than what it is read from.
proof fn lemma_prim_size(p: Seq<char>, octal_on: bool, verbose: bool, i: int)
    requires
        0 <= i < p.len(),
    ensures
        match primitive(p, octal_on, verbose, i) {
            (end, Ok(prim)) => ast_size(into_ast(prim)) <= 2 * (end - i),
            (end, Err(e)) => true,
        },
        match class_item(p, octal_on, verbose, i) {
            (end, Ok(prim)) => match into_class_set_item(prim) {
                Ok(item) => item_size(item) <= 2 * (end - i),
                Err(_) => true,
            },
            (end, Err(e)) => true,
        },
{
    reveal(escape);
    lemma_escape(p, octal_on, verbose, i);
    if i + 2 < p.len() {
        lemma_run_end(p, i + 3, CharSet::Except('}'));
        let end = find_char(p, i + 3, '}');
        if end < p.len() {
            lemma_unicode_size(p.subrange(i + 3, end));
        }
    }
    match primitive(p, octal_on, verbose, i) {
        (end, Ok(PrimitiveView::Unicode(x))) => {
            assert(class_size(ClassView::Unicode(x)) == 1 + unicode_size(x.kind));
        },
        (end, Ok(PrimitiveView::Perl(x))) => {
            assert(class_size(ClassView::Perl(x)) == 1);
        },
        _ => {},
    }
    match class_item(p, octal_on, verbose, i) {
        (end, Ok(PrimitiveView::Unicode(x))) => {
            assert(class_size(ClassView::Unicode(x)) == 1 + unicode_size(x.kind));
        },
        (end, Ok(PrimitiveView::Perl(x))) => {
            assert(class_size(ClassView::Perl(x)) == 1);
        },
        _ => {},
    }
}

proof fn lemma_dashes_size(
    p: Seq<char>,
    verbose: bool,
    c: Cursor,
    union: ClassSetUnionView,
    start: int,
)
    requires
        0 <= c.index <= p.len(),
        items_size(union.items) <= 2 * (c.index - start),
    ensures
        ({
            let (c1, union1) = leading_dashes(p, verbose, c, union);
            items_size(union1.items) <= 2 * (c1.index - start)
        }),
    decreases p.len() - c.index,
{
    lemma_skip(p, c.at(c.index + 1), verbose);
    if c.index < p.len() && p[c.index] == '-' {
        let item = ClassSetItemView::Literal(verbatim(p, c.index));
        lemma_items_push(union.items, item);
        lemma_dashes_size(
            p,
            verbose,
            c.at(c.index + 1).skip(p, verbose),
            union_push(union, item),
            start,
        );
    }
}

proof fn lemma_open_size(p: Seq<char>, verbose: bool, c: Cursor)
    requires
        0 <= c.index < p.len(),
    ensures
        match class_open(p, verbose, c) {
            (c1, Ok((set, union))) => items_size(union.items) <= 2 * (c1.index - c.index) - 2,
            (c1, Err(e)) => true,
        },
{
    broadcast use lemma_skip;

    let c1 = c.at(c.index + 1).skip(p, verbose);
    let negated = c1.index < p.len() && p[c1.index] == '^';
    let c2 = if negated {
        c1.at(c1.index + 1).skip(p, verbose)
    } else {
        c1
    };
    let union = ClassSetUnionView { span: span_at(p, c2.index), items: Seq::empty() };
    lemma_dashes_size(p, verbose, c2, union, c.index + 1);
    lemma_leading_dashes(p, verbose, c2, union);
    let (c3, dashes) = leading_dashes(p, verbose, c2, union);
    if c3.index < p.len() {
        lemma_items_push(dashes.items, ClassSetItemView::Literal(verbatim(p, c3.index)));
    }
}

proof fn lemma_range_size(p: Seq<char>, octal_on: bool, verbose: bool, c: Cursor, open: Span)
    requires
        0 <= c.index < p.len(),
    ensures
        match class_range(p, octal_on, verbose, c, open) {
            (c1, Ok(item)) => item_size(item) <= 2 * (c1.index - c.index),
            (c1, Err(e)) => true,
        },
{
    broadcast use lemma_skip;

    lemma_class_item(p, octal_on, verbose, c.index);
    lemma_prim_size(p, octal_on, verbose, c.index);
    let c1 = c.at(class_item(p, octal_on, verbose, c.index).0).skip(p, verbose);
    let c2 = c1.at(c1.index + 1).skip(p, verbose);
    if c1.index < p.len() && c2.index < p.len() {
        lemma_class_item(p, octal_on, verbose, c2.index);
    }
}

/// What has been read of a class that starts at the index `start` is not larger
/// than the text up to the index `i`.
spec fn class_bound(left: Option<LeftSide>, union: ClassSetUnionView, start: int, i: int) -> bool {
    op_size(apply_op(left, ClassSetOpView::Union(union))) <= 2 * (i - start) - 1
}

proof fn lemma_apply_size(left: Option<LeftSide>, union: ClassSetUnionView)
    ensures
        op_size(apply_op(left, ClassSetOpView::Union(union))) == match left {
            None => 1 + items_size(union.items),
            Some(left) => 2 + op_size(left.lhs) + items_size(union.items),
        },
{
    assert(op_size(ClassSetOpView::Union(union)) == 1 + items_size(union.items));
}

proof fn lemma_step_size(
    p: Seq<char>,
    octal_on: bool,
    verbose: bool,
    c: Cursor,
    union: ClassSetUnionView,
    left: Option<LeftSide>,
    set: ClassSetView,
    start: int,
)
    requires
        0 <= c.index <= p.len(),
        class_bound(left, union, start, c.index),
    ensures
        match class_step(p, octal_on, verbose, c, union, left, set) {
            (c1, ClassStep::Failed(e)) => true,
            (c1, ClassStep::Closed(class)) => class_size(class) <= 2 * (c1.index - start) - 2,
            (c1, ClassStep::Item(item)) => class_bound(
                left,
                union_push(union, item),
                start,
                c1.index,
            ),
            (c1, ClassStep::Operator(op)) => class_bound(
                Some(op),
                empty_union(p, c1.index),
                start,
                c1.index,
            ),
            (c1, ClassStep::Nested(nested_set, nested_union)) => class_bound(
                None,
                nested_union,
                c.skip(p, verbose).index,
                c1.index,
            ),
        },
{
    reveal(class_step);
    lemma_skip(p, c, verbose);
    let c1 = c.skip(p, verbose);
    lemma_apply_size(left, union);
    if c1.index < p.len() {
        if p[c1.index] == '[' {
            lemma_ascii_class(p, c1.index);
            lemma_open_size(p, verbose, c1);
        } else {
            lemma_range_size(p, octal_on, verbose, c1, set.span);
        }
        match class_step(p, octal_on, verbose, c, union, left, set) {
            (c2, ClassStep::Item(item)) => {
                lemma_items_push(union.items, item);
                lemma_apply_size(left, union_push(union, item));
            },
            (c2, ClassStep::Operator(op)) => {
                lemma_apply_size(Some(op), empty_union(p, c2.index));
            },
            (c2, ClassStep::Nested(nested_set, nested_union)) => {
                lemma_apply_size(None, nested_union);
            },
            (c2, ClassStep::Closed(ClassView::Bracketed(set))) => {
                assert(class_size(ClassView::Bracketed(set)) == 1 + op_size(set.op));
            },
            _ => {},
        }
    }
}

proof fn lemma_rest_size(
    p: Seq<char>,
    octal_on: bool,
    verbose: bool,
    c: Cursor,
    union: ClassSetUnionView,
    left: Option<LeftSide>,
    set: ClassSetView,
    start: int,
)
    requires
        0 <= c.index <= p.len(),
        class_bound(left, union, start, c.index),
    ensures
        match class_rest(p, octal_on, verbose, c, union, left, set) {
            (c1, Ok(class)) => class_size(class) <= 2 * (c1.index - start) - 2,
            (c1, Err(e)) => true,
        },
    decreases p.len() - c.index,
{
    lemma_class_step(p, octal_on, verbose, c, union, left, set);
    lemma_step_size(p, octal_on, verbose, c, union, left, set, start);
    match class_step(p, octal_on, verbose, c, union, left, set) {
        (c1, ClassStep::Failed(e)) => {},
        (c1, ClassStep::Closed(class)) => {},
        (c1, ClassStep::Item(item)) => {
            let next = union_push(union, item);
            lemma_rest_size(p, octal_on, verbose, c1, next, left, set, start);
        },
        (c1, ClassStep::Operator(op)) => {
            let next = empty_union(p, c1.index);
            lemma_rest_size(p, octal_on, verbose, c1, next, Some(op), set, start);
        },
        (c1, ClassStep::Nested(nested_set, nested_union)) => {
            let inner = c.skip(p, verbose).index;
            lemma_skip(p, c, verbose);
            lemma_rest_size(p, octal_on, verbose, c1, nested_union, None, nested_set, inner);
            lemma_class_rest(p, octal_on, verbose, c1, nested_union, None, nested_set);
            match class_rest(p, octal_on, verbose, c1, nested_union, None, nested_set) {
                (c2, Err(e)) => {},
                (c2, Ok(class)) => {
                    let next = union_push_class(union, class);
                    lemma_items_push(union.items, ClassSetItemView::Class(Box::new(class)));
                    lemma_apply_size(left, union);
                    lemma_apply_size(left, next);
                    lemma_rest_size(p, octal_on, verbose, c2, next, left, set, start);
                },
            }
        },
    }
}

proof fn lemma_class_size(p: Seq<char>, octal_on: bool, verbose: bool, c: Cursor)
    requires
        0 <= c.index < p.len(),
    ensures
        match class(p, octal_on, verbose, c) {
            (c1, Ok(class)) => ast_size(AstView::Class(class)) <= 2 * (c1.index - c.index),
            (c1, Err(e)) => true,
        },
{
    lemma_class_open(p, verbose, c);
    lemma_open_size(p, verbose, c);
    match class_open(p, verbose, c) {
        (c1, Err(e)) => {},
        (c1, Ok((set, union))) => {
            lemma_apply_size(None, union);
            lemma_rest_size(p, octal_on, verbose, c1, union, None, set, c.index);
        },
    }
}

/// There are not more flags than characters that they are read from.
proof fn lemma_flags_size(p: Seq<char>, i: int, items: Seq<FlagsItem>)
    requires
        0 <= i <= p.len(),
    ensures
        match flags_rest(p, i, items) {
            (end, Ok(all)) => all.len() <= items.len() + (end - i),
            (end, Err(e)) => true,
        },
    decreases p.len() - i,
{
    if i < p.len() {
        match flags_item_kind(p[i]) {
            Some(kind) => {
                lemma_flags_size(
                    p,
                    i + 1,
                    items.push(FlagsItem { span: char_span_at(p, i), kind }),
                );
            },
            None => {},
        }
    }
}

proof fn lemma_group_size(p: Seq<char>, verbose: bool, c: Cursor)
    requires
        0 <= c.index < p.len(),
    ensures
        match group_open(p, verbose, c) {
            (c1, Ok(Either::Left(set))) => {
                ast_size(AstView::Flags(set)) <= 2 * (c1.index - c.index)
            },
            (c1, Ok(Either::Right(group))) => kind_size(group.kind) < c1.index - c.index,
            (c1, Err(e)) => true,
        },
{
    lemma_group_prefixes();
    let j = c.at(c.index + 1).skip(p, verbose).index;
    lemma_skip(p, c.at(c.index + 1), verbose);
    if prefix_at(p, j, "?P<"@) {
        lemma_capture_name(p, j + 3);
    }
    if prefix_at(p, j, "?"@) {
        lemma_flags_rest(p, j + 1, Seq::empty());
        lemma_flags_size(p, j + 1, Seq::empty());
    }
}

proof fn lemma_push_size(concat: ConcatView, ast: AstView)
    ensures
        asts_size(concat_push(concat, ast).asts) == asts_size(concat.asts) + ast_size(ast),
{
    lemma_asts_push(concat.asts, ast);
}

/// A repetition adds a node, and another one where its operand is empty.
proof fn lemma_repeat_size(
    p: Seq<char>,
    i: int,
    end: int,
    concat: ConcatView,
    kind: RepetitionKind,
    greedy: bool,
)
    ensures
        asts_size(repeat(p, i, end, concat, kind, greedy).asts) <= asts_size(concat.asts) + 2,
{
    let front = if concat.asts.len() == 0 {
        concat.asts
    } else {
        concat.asts.drop_last()
    };
    let ast = operand(p, i, concat);
    let last = repeat(p, i, end, concat, kind, greedy).asts.last();
    assert(ast_size(last) == 1 + ast_size(ast));
    lemma_asts_push(front, last);
}

proof fn lemma_item_size(
    p: Seq<char>,
    octal_on: bool,
    verbose: bool,
    c: Cursor,
    concat: ConcatView,
)
    requires
        0 <= c.index < p.len(),
    ensures
        match item(p, octal_on, verbose, c, concat) {
            (c1, Ok(next)) => asts_size(next.asts) <= asts_size(concat.asts) + 2 * (c1.index
                - c.index),
            (c1, Err(e)) => true,
        },
{
    let i = c.index;
    lemma_item(p, octal_on, verbose, c, concat);
    let end = item(p, octal_on, verbose, c, concat).0.index;
    match repetition_kind(p[i]) {
        Some(kind) => {
            lemma_repeat_size(p, i, end, concat, kind, true);
            lemma_repeat_size(p, i, end, concat, kind, false);
        },
        None => {
            if p[i] == '{' {
                match range(p, i) {
                    (j, Err(e)) => {},
                    (j, Ok(range)) => {
                        let kind = RepetitionKind::Range(range);
                        lemma_repeat_size(p, i, end, concat, kind, true);
                        lemma_repeat_size(p, i, end, concat, kind, false);
                    },
                }
            } else if p[i] == '[' {
                lemma_class_size(p, octal_on, verbose, c);
                match class(p, octal_on, verbose, c) {
                    (c1, Err(e)) => {},
                    (c1, Ok(class)) => {
                        lemma_push_size(concat, AstView::Class(class));
                    },
                }
            } else {
                lemma_prim_size(p, octal_on, verbose, i);
                match primitive(p, octal_on, verbose, i) {
                    (end, Err(e)) => {},
                    (end, Ok(prim)) => {
                        lemma_push_size(concat, into_ast(prim));
                    },
                }
            }
        },
    }
}

proof fn lemma_part_size(
    p: Seq<char>,
    octal_on: bool,
    verbose: bool,
    c: Cursor,
    concat: ConcatView,
)
    requires
        0 <= c.index < p.len(),
    ensures
        match part(p, octal_on, verbose, c, concat) {
            (c1, Part::More(_, next)) => asts_size(next.asts) <= asts_size(concat.asts) + 2 * (
            c1.index - c.index),
            (c1, Part::Open(group)) => kind_size(group.kind) < c1.index - c.index,
            _ => true,
        },
{
    reveal(part);
    if p[c.index] == '(' {
        lemma_group_size(p, verbose, c);
        match group_open(p, verbose, c) {
            (c1, Ok(Either::Left(set))) => {
                lemma_push_size(concat, AstView::Flags(set));
            },
            _ => {},
        }
    } else {
        lemma_item_size(p, octal_on, verbose, c, concat);
    }
}

/// The tree of a concatenation has at most one node more than its parts.
proof fn lemma_branch_size(p: Seq<char>, i: int, concat: ConcatView)
    ensures
        ast_size(branch(p, i, concat)) <= asts_size(concat.asts) + 1,
{
    if concat.asts.len() == 1 {
        assert(asts_size(concat.asts.drop_last()) == 0);
        assert(concat.asts[0] == concat.asts.last());
    }
}

/// The branches before a concatenation, if any, which starts at the index
/// `mid`, in an expression that starts at the index `start`.
spec fn alt_bound(alt: Option<AlternationView>, start: int, mid: int) -> bool {
    match alt {
        None => start == mid,
        Some(alt) => asts_size(alt.asts) <= 2 * (mid - start) - 1,
    }
}

proof fn lemma_finish_size(
    p: Seq<char>,
    i: int,
    concat: ConcatView,
    alt: Option<AlternationView>,
    start: int,
    mid: int,
)
    requires
        alt_bound(alt, start, mid),
        asts_size(concat.asts) <= 2 * (i - mid),
    ensures
        ast_size(finish(p, i, concat, alt)) <= 2 * (i - start) + 1,
        alt_bound(Some(add_branch(p, i, concat, alt)), start, i + 1),
{
    let ast = branch(p, i, concat);
    lemma_branch_size(p, i, concat);
    match alt {
        Some(alt) => {
            lemma_asts_push(alt.asts, ast);
        },
        None => {
            lemma_asts_push(Seq::empty(), ast);
            assert(Seq::<AstView>::empty().push(ast) == seq![ast]);
        },
    }
}

proof fn lemma_expr_size(
    p: Seq<char>,
    octal_on: bool,
    verbose: bool,
    c: Cursor,
    concat: ConcatView,
    alt: Option<AlternationView>,
    start: int,
    mid: int,
)
    requires
        0 <= c.index <= p.len(),
        alt_bound(alt, start, mid),
        asts_size(concat.asts) <= 2 * (c.index - mid),
    ensures
        match expr(p, octal_on, verbose, c, concat, alt) {
            (c1, Ok(ExprEnd::Eof(ast))) => ast_size(ast) <= 2 * (c1.index - start) + 1,
            (c1, Ok(ExprEnd::Paren(ast))) => ast_size(ast) <= 2 * (c1.index - start) + 1,
            (c1, Err(e)) => true,
        },
    decreases p.len() - c.index,
{
    let c1 = c.skip(p, verbose);
    lemma_skip(p, c, verbose);
    lemma_finish_size(p, c1.index, concat, alt, start, mid);
    if c1.index < p.len() {
        lemma_part(p, octal_on, verbose, c1, concat);
        lemma_part_size(p, octal_on, verbose, c1, concat);
        match part(p, octal_on, verbose, c1, concat) {
            (c2, Part::Failed(e)) => {},
            (c2, Part::Close) => {},
            (c2, Part::Bar) => {
                reveal(part);
                lemma_expr_size(
                    p,
                    octal_on,
                    verbose,
                    c2,
                    empty_concat(p, c2.index),
                    Some(add_branch(p, c1.index, concat, alt)),
                    start,
                    c2.index,
                );
            },
            (c2, Part::More(verbose, concat)) => {
                lemma_expr_size(p, octal_on, verbose, c2, concat, alt, start, mid);
            },
            (c2, Part::Open(group)) => {
                let inner = verbose_in(group.kind, verbose);
                let empty = empty_concat(p, c2.index);
                lemma_expr(p, octal_on, inner, c2, empty, None);
                lemma_expr_size(p, octal_on, inner, c2, empty, None, c2.index, c2.index);
                match expr(p, octal_on, inner, c2, empty, None) {
                    (c3, Ok(ExprEnd::Paren(ast))) => {
                        let whole = close_group(p, c3.index, group, ast);
                        assert(ast_size(whole) == 1 + kind_size(group.kind) + ast_size(ast));
                        lemma_push_size(concat, whole);
                        lemma_expr_size(
                            p,
                            octal_on,
                            verbose,
                            c3.at(c3.index + 1),
                            concat_push(concat, whole),
                            alt,
                            start,
                            mid,
                        );
                    },
                    _ => {},
                }
            },
        }
    }
}

/// The size of a tree is at most proportional to the length of its pattern.
pub proof fn law_size_is_linear(p: Seq<char>, options: Options)
    ensures
        match parse(p, options) {
            Ok(x) => ast_size(x.ast) <= 2 * p.len() + 1,
            Err(_) => true,
        },
{
    let start = Cursor { index: 0, comments: Seq::empty() };
    let verbose = options.ignore_space;
    lemma_expr_size(p, options.octal, verbose, start, empty_concat(p, 0), None, 0, 0);
    lemma_expr(p, options.octal, verbose, start, empty_concat(p, 0), None);
}

} // verus!
