//! The shape of the trees that the grammar gives.

use either::Either;
use vstd::prelude::*;

use crate::ast::methods::{alternation_into_ast, concat_into_ast, union_push};
use crate::ast::view::{
    AlternationView, AstView, ClassSetItemView, ClassSetOpView, ClassSetUnionView, ClassSetView,
    ClassView, ConcatView, GroupKindView, WithCommentsView,
};
use crate::ast::{Error, FlagsItem, FlagsItemKind, RepetitionKind, Span};
use crate::chars::capture_char;
use crate::grammar::class::{
    apply_op, class, class_open, class_rest, class_step, empty_union, leading_dashes,
    lemma_class_open, lemma_class_rest, lemma_class_step, union_push_class, ClassStep, LeftSide,
};
use crate::grammar::escape::{primitive, verbatim};
use crate::grammar::expr::{
    add_branch, branch, close_group, concat_push, empty_concat, expr, finish, into_ast, item,
    lemma_expr, lemma_part, operand, parse, part, range, repeat, repetition_kind, tree,
    verbose_in, ExprEnd, Part,
};
use crate::grammar::group::{flags_item_kind, flags_rest, group_open, lemma_group_prefixes};
use crate::grammar::space::{lemma_skip, Cursor};
use crate::grammar::Options;
use crate::laws::flags::{distinct, law_capture_names_are_valid, law_flags_are_distinct};
use crate::laws::space::law_space_is_skipped_at_once;
use crate::text::{char_span_at, prefix_at, span_at};

verus! {

/// A tree that can be a part of a concatenation, or the operand of a
/// repetition: one that takes no parentheses to stand there.
pub open spec fn is_part(ast: AstView) -> bool {
    match ast {
        AstView::Empty(_) => false,
        AstView::Alternation(_) => false,
        AstView::Concat(_) => false,
        _ => true,
    }
}

/// Flags of which none is given twice, and of which the last one is no
/// negation.
pub open spec fn flags_normal(items: Seq<FlagsItem>) -> bool {
    &&& distinct(items)
    &&& items.len() > 0 ==> items.last().kind != FlagsItemKind::Negation
}

/// A group with a valid name or with well-formed flags.
pub open spec fn group_normal(kind: GroupKindView) -> bool {
    match kind {
        GroupKindView::CaptureIndex => true,
        GroupKindView::CaptureName(name) => {
            &&& name.name.len() > 0
            &&& forall|k: int|
                0 <= k < name.name.len() ==> capture_char(#[trigger] name.name[k], k == 0)
        },
        GroupKindView::NonCapturing(flags) => flags_normal(flags.items),
    }
}

/// A tree in which
///
/// - a concatenation has at least two parts, and none of them is empty, a
///   concatenation or an alternation;
/// - an alternation has at least two branches, and none of them is an
///   alternation;
/// - a repetition does not apply to a concatenation or an alternation;
/// - a set of flags is not empty, and flags are well-formed;
/// - the names of groups are valid;
/// - classes are as in [`class_normal`].
pub open spec fn normal(ast: AstView) -> bool
    decreases ast,
{
    match ast {
        AstView::Flags(set) => set.flags.items.len() > 0 && flags_normal(set.flags.items),
        AstView::Class(class) => class_normal(class),
        AstView::Repetition(x) => normal(*x.ast) && (is_part(*x.ast) || *x.ast is Empty),
        AstView::Group(x) => normal(*x.ast) && group_normal(x.kind),
        AstView::Alternation(x) => x.asts.len() >= 2 && branches(x.asts),
        AstView::Concat(x) => x.asts.len() >= 2 && parts(x.asts),
        _ => true,
    }
}

/// The parts of a concatenation.
pub open spec fn parts(asts: Seq<AstView>) -> bool
    decreases asts,
{
    asts.len() > 0 ==> parts(asts.drop_last()) && normal(asts.last()) && is_part(asts.last())
}

/// The branches of an alternation.
pub open spec fn branches(asts: Seq<AstView>) -> bool
    decreases asts,
{
    asts.len() > 0 ==> {
        &&& branches(asts.drop_last())
        &&& normal(asts.last())
        &&& !(asts.last() is Alternation)
    }
}

/// A class that is not an empty union, and in which the right operand of every
/// operator is a union of items.
pub open spec fn class_normal(class: ClassView) -> bool
    decreases class,
{
    match class {
        ClassView::Bracketed(set) => {
            &&& set.op is Union ==> set.op->Union_0.items.len() > 0
            &&& op_normal(set.op)
        },
        _ => true,
    }
}

/// What a class consists of.
pub open spec fn op_normal(op: ClassSetOpView) -> bool
    decreases op,
{
    match op {
        ClassSetOpView::Union(union) => items_normal(union.items),
        ClassSetOpView::BinaryOp(x) => op_normal(*x.lhs) && op_normal(*x.rhs) && *x.rhs is Union,
    }
}

/// The items of a class.
pub open spec fn items_normal(items: Seq<ClassSetItemView>) -> bool
    decreases items,
{
    items.len() > 0 ==> {
        &&& items_normal(items.drop_last())
        &&& match items.last() {
            ClassSetItemView::Class(class) => class_normal(*class),
            _ => true,
        }
    }
}

/// The left side of an operator, if any.
pub open spec fn left_normal(left: Option<LeftSide>) -> bool {
    match left {
        Some(left) => op_normal(left.lhs),
        None => true,
    }
}

proof fn lemma_union_push(union: ClassSetUnionView, item: ClassSetItemView)
    requires
        items_normal(union.items),
        match item {
            ClassSetItemView::Class(class) => class_normal(*class),
            _ => true,
        },
    ensures
        items_normal(union_push(union, item).items),
        union_push(union, item).items.len() > 0,
{
    assert(union.items.push(item).drop_last() == union.items);
}

proof fn lemma_dashes_normal(
    p: Seq<char>,
    verbose: bool,
    c: Cursor,
    union: ClassSetUnionView,
)
    requires
        0 <= c.index <= p.len(),
        items_normal(union.items),
        c.skip(p, verbose).index == c.index,
    ensures
        ({
            let (c1, union1) = leading_dashes(p, verbose, c, union);
            &&& items_normal(union1.items)
            &&& c1.skip(p, verbose).index == c1.index
        }),
    decreases p.len() - c.index,
{
    lemma_skip(p, c.at(c.index + 1), verbose);
    if c.index < p.len() && p[c.index] == '-' {
        let item = ClassSetItemView::Literal(verbatim(p, c.index));
        lemma_union_push(union, item);
        law_space_is_skipped_at_once(p, c.at(c.index + 1), verbose);
        lemma_dashes_normal(
            p,
            verbose,
            c.at(c.index + 1).skip(p, verbose),
            union_push(union, item),
        );
    }
}

/// The opening of a class that has no items yet is not followed by a `]`.
proof fn lemma_open_normal(p: Seq<char>, verbose: bool, c: Cursor)
    requires
        0 <= c.index < p.len(),
    ensures
        match class_open(p, verbose, c) {
            (c1, Ok((set, union))) => {
                &&& items_normal(union.items)
                &&& union.items.len() == 0 ==> p[c1.skip(p, verbose).index] != ']'
            },
            _ => true,
        },
{
    broadcast use lemma_skip;

    let c1 = c.at(c.index + 1).skip(p, verbose);
    law_space_is_skipped_at_once(p, c.at(c.index + 1), verbose);
    let negated = c1.index < p.len() && p[c1.index] == '^';
    let c2 = if negated {
        c1.at(c1.index + 1).skip(p, verbose)
    } else {
        c1
    };
    if negated {
        law_space_is_skipped_at_once(p, c1.at(c1.index + 1), verbose);
    }
    let union = ClassSetUnionView { span: span_at(p, c2.index), items: Seq::empty() };
    lemma_dashes_normal(p, verbose, c2, union);
    let (c3, dashes) = leading_dashes(p, verbose, c2, union);
    if c3.index < p.len() {
        lemma_union_push(dashes, ClassSetItemView::Literal(verbatim(p, c3.index)));
    }
}

#[verifier::rlimit(30)]
proof fn lemma_step_normal(
    p: Seq<char>,
    octal_on: bool,
    verbose: bool,
    c: Cursor,
    union: ClassSetUnionView,
    left: Option<LeftSide>,
    set: ClassSetView,
)
    requires
        0 <= c.index <= p.len(),
        items_normal(union.items),
        left_normal(left),
        union.items.len() == 0 && left is None ==> p[c.skip(p, verbose).index] != ']',
    ensures
        match class_step(p, octal_on, verbose, c, union, left, set) {
            (c1, ClassStep::Failed(e)) => true,
            (c1, ClassStep::Closed(class)) => class_normal(class),
            (c1, ClassStep::Item(item)) => items_normal(union_push(union, item).items),
            (c1, ClassStep::Operator(op)) => op_normal(op.lhs),
            (c1, ClassStep::Nested(nested_set, nested_union)) => {
                &&& items_normal(nested_union.items)
                &&& nested_union.items.len() == 0 ==> p[c1.skip(p, verbose).index] != ']'
            },
        },
{
    reveal(class_step);
    lemma_skip(p, c, verbose);
    let c1 = c.skip(p, verbose);
    assert(op_normal(ClassSetOpView::Union(union)));
    assert(op_normal(apply_op(left, ClassSetOpView::Union(union))));
    if c1.index < p.len() {
        if p[c1.index] == '[' {
            lemma_open_normal(p, verbose, c1);
        }
        match class_step(p, octal_on, verbose, c, union, left, set) {
            (c1, ClassStep::Item(item)) => {
                lemma_union_push(union, item);
            },
            _ => {},
        }
    }
}

proof fn lemma_rest_normal(
    p: Seq<char>,
    octal_on: bool,
    verbose: bool,
    c: Cursor,
    union: ClassSetUnionView,
    left: Option<LeftSide>,
    set: ClassSetView,
)
    requires
        0 <= c.index <= p.len(),
        items_normal(union.items),
        left_normal(left),
        union.items.len() == 0 && left is None ==> p[c.skip(p, verbose).index] != ']',
    ensures
        match class_rest(p, octal_on, verbose, c, union, left, set).1 {
            Ok(class) => class_normal(class),
            Err(_) => true,
        },
    decreases p.len() - c.index,
{
    lemma_class_step(p, octal_on, verbose, c, union, left, set);
    lemma_step_normal(p, octal_on, verbose, c, union, left, set);
    match class_step(p, octal_on, verbose, c, union, left, set) {
        (c1, ClassStep::Failed(e)) => {},
        (c1, ClassStep::Closed(class)) => {},
        (c1, ClassStep::Item(item)) => {
            lemma_rest_normal(p, octal_on, verbose, c1, union_push(union, item), left, set);
        },
        (c1, ClassStep::Operator(op)) => {
            lemma_rest_normal(
                p,
                octal_on,
                verbose,
                c1,
                empty_union(p, c1.index),
                Some(op),
                set,
            );
        },
        (c1, ClassStep::Nested(nested_set, nested_union)) => {
            lemma_rest_normal(p, octal_on, verbose, c1, nested_union, None, nested_set);
            lemma_class_rest(p, octal_on, verbose, c1, nested_union, None, nested_set);
            match class_rest(p, octal_on, verbose, c1, nested_union, None, nested_set) {
                (c2, Err(e)) => {},
                (c2, Ok(class)) => {
                    lemma_union_push(union, ClassSetItemView::Class(Box::new(class)));
                    lemma_rest_normal(
                        p,
                        octal_on,
                        verbose,
                        c2,
                        union_push_class(union, class),
                        left,
                        set,
                    );
                },
            }
        },
    }
}

/// No class can be written that is an empty union: a `]` behind the opening of
/// a class stands for itself. What stands to the right of an operator in a class
/// is a union of items, so that operators are applied from left to right.
pub proof fn law_classes_are_normal(p: Seq<char>, octal_on: bool, verbose: bool, c: Cursor)
    requires
        0 <= c.index < p.len(),
    ensures
        match class(p, octal_on, verbose, c).1 {
            Ok(class) => class_normal(class),
            Err(_) => true,
        },
{
    lemma_open_normal(p, verbose, c);
    lemma_class_open(p, verbose, c);
    match class_open(p, verbose, c) {
        (c1, Err(e)) => {},
        (c1, Ok((set, union))) => {
            lemma_rest_normal(p, octal_on, verbose, c1, union, None, set);
        },
    }
}

proof fn lemma_branch_normal(p: Seq<char>, i: int, concat: ConcatView)
    requires
        parts(concat.asts),
    ensures
        normal(branch(p, i, concat)),
        !(branch(p, i, concat) is Alternation),
{
}

proof fn lemma_finish_normal(
    p: Seq<char>,
    i: int,
    concat: ConcatView,
    alt: Option<AlternationView>,
)
    requires
        parts(concat.asts),
        alt is Some ==> alt->0.asts.len() > 0 && branches(alt->0.asts),
    ensures
        normal(finish(p, i, concat, alt)),
        branches(add_branch(p, i, concat, alt).asts),
        add_branch(p, i, concat, alt).asts.len() > 0,
{
    let ast = branch(p, i, concat);
    lemma_branch_normal(p, i, concat);
    match alt {
        Some(alt) => {
            lemma_branches_push(alt.asts, ast);
        },
        None => {
            lemma_branches_push(Seq::empty(), ast);
            assert(Seq::<AstView>::empty().push(ast) == seq![ast]);
        },
    }
}

proof fn lemma_branches_push(asts: Seq<AstView>, ast: AstView)
    requires
        branches(asts),
        normal(ast),
        !(ast is Alternation),
    ensures
        branches(asts.push(ast)),
{
    assert(asts.push(ast).drop_last() == asts);
    assert(asts.push(ast).last() == ast);
}

proof fn lemma_parts_push(asts: Seq<AstView>, ast: AstView)
    requires
        parts(asts),
        normal(ast),
        is_part(ast),
    ensures
        parts(asts.push(ast)),
{
    assert(asts.push(ast).drop_last() == asts);
    assert(asts.push(ast).last() == ast);
}

proof fn lemma_push_normal(concat: ConcatView, ast: AstView)
    requires
        parts(concat.asts),
        normal(ast),
        is_part(ast),
    ensures
        parts(concat_push(concat, ast).asts),
{
    lemma_parts_push(concat.asts, ast);
}

proof fn lemma_repeat_normal(
    p: Seq<char>,
    i: int,
    end: int,
    concat: ConcatView,
    kind: RepetitionKind,
    greedy: bool,
)
    requires
        parts(concat.asts),
    ensures
        parts(repeat(p, i, end, concat, kind, greedy).asts),
{
    let front = if concat.asts.len() == 0 {
        concat.asts
    } else {
        concat.asts.drop_last()
    };
    let ast = operand(p, i, concat);
    assert(normal(ast) && (is_part(ast) || ast is Empty));
    let last = repeat(p, i, end, concat, kind, greedy).asts.last();
    assert(normal(last));
    lemma_parts_push(front, last);
}

proof fn lemma_item_normal(
    p: Seq<char>,
    octal_on: bool,
    verbose: bool,
    c: Cursor,
    concat: ConcatView,
)
    requires
        0 <= c.index < p.len(),
        parts(concat.asts),
    ensures
        match item(p, octal_on, verbose, c, concat).1 {
            Ok(concat) => parts(concat.asts),
            Err(_) => true,
        },
{
    match repetition_kind(p[c.index]) {
        Some(kind) => {
            let lazy = c.index + 1 < p.len() && p[c.index + 1] == '?';
            let end = if lazy {
                c.index + 2
            } else {
                c.index + 1
            };
            lemma_repeat_normal(p, c.index, end, concat, kind, !lazy);
        },
        None => {
            if p[c.index] == '{' {
                match range(p, c.index) {
                    (j, Err(e)) => {},
                    (j, Ok(range)) => {
                        let c1 = c.at(j + 1).skip(p, verbose);
                        let lazy = c1.index < p.len() && p[c1.index] == '?';
                        let end = if lazy {
                            c1.index + 1
                        } else {
                            c1.index
                        };
                        lemma_repeat_normal(
                            p,
                            c.index,
                            end,
                            concat,
                            RepetitionKind::Range(range),
                            !lazy,
                        );
                    },
                }
            } else if p[c.index] == '[' {
                law_classes_are_normal(p, octal_on, verbose, c);
                match class(p, octal_on, verbose, c) {
                    (c1, Err(e)) => {},
                    (c1, Ok(class)) => {
                        lemma_push_normal(concat, AstView::Class(class));
                    },
                }
            } else {
                match primitive(p, octal_on, verbose, c.index) {
                    (end, Err(e)) => {},
                    (end, Ok(prim)) => {
                        lemma_push_normal(concat, into_ast(prim));
                    },
                }
            }
        },
    }
}

proof fn lemma_group_normal(p: Seq<char>, verbose: bool, c: Cursor)
    requires
        0 <= c.index < p.len(),
    ensures
        match group_open(p, verbose, c).1 {
            Ok(Either::Left(set)) => normal(AstView::Flags(set)),
            Ok(Either::Right(group)) => group_normal(group.kind),
            Err(_) => true,
        },
{
    lemma_group_prefixes();
    let j = c.at(c.index + 1).skip(p, verbose).index;
    lemma_skip(p, c.at(c.index + 1), verbose);
    if prefix_at(p, j, "?P<"@) {
        law_capture_names_are_valid(p, j + 3);
    }
    if prefix_at(p, j, "?"@) {
        law_flags_are_distinct(p, j + 1);
        lemma_flags_nonempty(p, j + 1, Seq::empty());
    }
}

/// Flags that end at a `)` are not empty.
proof fn lemma_flags_nonempty(p: Seq<char>, i: int, items: Seq<FlagsItem>)
    ensures
        match flags_rest(p, i, items) {
            (end, Ok(items)) => p[end] == ')' ==> items.len() > 0,
            _ => true,
        },
    decreases p.len() - i,
{
    if i < p.len() {
        match flags_item_kind(p[i]) {
            Some(kind) => {
                lemma_flags_nonempty(
                    p,
                    i + 1,
                    items.push(FlagsItem { span: char_span_at(p, i), kind }),
                );
            },
            None => {},
        }
    }
}

proof fn lemma_part_normal(
    p: Seq<char>,
    octal_on: bool,
    verbose: bool,
    c: Cursor,
    concat: ConcatView,
)
    requires
        0 <= c.index < p.len(),
        parts(concat.asts),
    ensures
        match part(p, octal_on, verbose, c, concat).1 {
            Part::More(_, concat) => parts(concat.asts),
            Part::Open(group) => group_normal(group.kind),
            _ => true,
        },
{
    reveal(part);
    if p[c.index] == '(' {
        lemma_group_normal(p, verbose, c);
        match group_open(p, verbose, c) {
            (c1, Ok(Either::Left(set))) => {
                lemma_push_normal(concat, AstView::Flags(set));
            },
            _ => {},
        }
    } else {
        lemma_item_normal(p, octal_on, verbose, c, concat);
    }
}

proof fn lemma_expr_normal(
    p: Seq<char>,
    octal_on: bool,
    verbose: bool,
    c: Cursor,
    concat: ConcatView,
    alt: Option<AlternationView>,
)
    requires
        0 <= c.index <= p.len(),
        parts(concat.asts),
        alt is Some ==> alt->0.asts.len() > 0 && branches(alt->0.asts),
    ensures
        match expr(p, octal_on, verbose, c, concat, alt).1 {
            Ok(ExprEnd::Eof(ast)) => normal(ast),
            Ok(ExprEnd::Paren(ast)) => normal(ast),
            Err(_) => true,
        },
    decreases p.len() - c.index,
{
    let c1 = c.skip(p, verbose);
    lemma_skip(p, c, verbose);
    lemma_finish_normal(p, c1.index, concat, alt);
    if c1.index < p.len() {
        lemma_part(p, octal_on, verbose, c1, concat);
        lemma_part_normal(p, octal_on, verbose, c1, concat);
        match part(p, octal_on, verbose, c1, concat) {
            (c2, Part::Failed(e)) => {},
            (c2, Part::Close) => {},
            (c2, Part::Bar) => {
                lemma_expr_normal(
                    p,
                    octal_on,
                    verbose,
                    c2,
                    empty_concat(p, c2.index),
                    Some(add_branch(p, c1.index, concat, alt)),
                );
            },
            (c2, Part::More(verbose, concat)) => {
                lemma_expr_normal(p, octal_on, verbose, c2, concat, alt);
            },
            (c2, Part::Open(group)) => {
                let inner = verbose_in(group.kind, verbose);
                let start = empty_concat(p, c2.index);
                lemma_expr(p, octal_on, inner, c2, start, None);
                lemma_expr_normal(p, octal_on, inner, c2, start, None);
                match expr(p, octal_on, inner, c2, start, None) {
                    (c3, Ok(ExprEnd::Paren(ast))) => {
                        let group = close_group(p, c3.index, group, ast);
                        lemma_push_normal(concat, group);
                        lemma_expr_normal(
                            p,
                            octal_on,
                            verbose,
                            c3.at(c3.index + 1),
                            concat_push(concat, group),
                            alt,
                        );
                    },
                    _ => {},
                }
            },
        }
    }
}

/// Every tree that the parser returns is in normal form.
pub proof fn law_trees_are_normal(p: Seq<char>, options: Options)
    ensures
        match parse(p, options) {
            Ok(x) => normal(x.ast),
            Err(_) => true,
        },
{
    lemma_expr_normal(
        p,
        options.octal,
        options.ignore_space,
        Cursor { index: 0, comments: Seq::empty() },
        empty_concat(p, 0),
        None,
    );
}

/// What is returned without the comments is the tree that is returned with them,
/// or the same error.
pub proof fn law_tree_without_comments(p: Seq<char>, options: Options)
    ensures
        match tree(parse(p, options)) {
            Ok(ast) => parse(p, options) is Ok && parse(p, options)->Ok_0.ast == ast,
            Err(e) => parse(p, options) == Err::<WithCommentsView, Error>(e),
        },
{
}

/// Nothing is lost when parts or branches become a tree: where there are two or
/// more, the tree holds all of them in their order, one alone is the tree itself,
/// and without any the tree is empty. The span is kept but for one alone.
pub proof fn law_sequences_become_trees(span: Span, asts: Seq<AstView>)
    ensures
        ({
            let concat = concat_into_ast(ConcatView { span, asts });
            let alt = alternation_into_ast(AlternationView { span, asts });
            if asts.len() >= 2 {
                &&& concat matches AstView::Concat(x) && x.asts == asts && x.span == span
                &&& alt matches AstView::Alternation(x) && x.asts == asts && x.span == span
            } else if asts.len() == 1 {
                concat == asts.first() && alt == asts.last()
            } else {
                concat == AstView::Empty(span) && alt == AstView::Empty(span)
            }
        }),
{
}

} // verus!
