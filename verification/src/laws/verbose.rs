//! Flags that turn verbose mode on.

use either::Either;
use vstd::prelude::*;

use crate::ast::view::{AlternationView, AstView, ConcatView};
use crate::ast::RepetitionKind;
use crate::grammar::class::class;
use crate::grammar::escape::primitive;
use crate::grammar::expr::{
    add_branch, branch, close_group, concat_push, empty_concat, expr, finish, into_ast, item,
    lemma_expr, lemma_part, operand, part, range, repeat, repetition_kind, verbose_after,
    verbose_in, ExprEnd, Part,
};
use crate::grammar::group::group_open;
use crate::grammar::space::{lemma_skip, Cursor};

verus! {

/// A tree in which no set of flags and no flags of a group turn verbose mode on.
pub open spec fn never_verbose(ast: AstView) -> bool
    decreases ast,
{
    match ast {
        AstView::Flags(set) => !verbose_after(set.flags.items, false),
        AstView::Repetition(x) => never_verbose(*x.ast),
        AstView::Group(x) => !verbose_in(x.kind, false) && never_verbose(*x.ast),
        AstView::Alternation(x) => none_verbose(x.asts),
        AstView::Concat(x) => none_verbose(x.asts),
        _ => true,
    }
}

/// Trees of which none turns verbose mode on.
pub open spec fn none_verbose(asts: Seq<AstView>) -> bool
    decreases asts,
{
    asts.len() > 0 ==> none_verbose(asts.drop_last()) && never_verbose(asts.last())
}

/// The tree of an expression that has ended.
pub open spec fn end_tree(end: ExprEnd) -> AstView {
    match end {
        ExprEnd::Eof(ast) => ast,
        ExprEnd::Paren(ast) => ast,
    }
}

/// A tree behind others.
pub proof fn lemma_none_push(asts: Seq<AstView>, ast: AstView)
    ensures
        none_verbose(asts.push(ast)) <==> none_verbose(asts) && never_verbose(ast),
{
    assert(asts.push(ast).drop_last() == asts);
    assert(asts.push(ast).last() == ast);
}

/// What holds of a tree holds of the parts and branches that it is made of.
proof fn lemma_finish_verbose(
    p: Seq<char>,
    i: int,
    concat: ConcatView,
    alt: Option<AlternationView>,
)
    ensures
        never_verbose(finish(p, i, concat, alt)) ==> {
            &&& none_verbose(concat.asts)
            &&& alt is Some ==> none_verbose(alt->0.asts)
        },
        none_verbose(add_branch(p, i, concat, alt).asts) ==> {
            &&& none_verbose(concat.asts)
            &&& alt is Some ==> none_verbose(alt->0.asts)
        },
{
    let ast = branch(p, i, concat);
    if concat.asts.len() == 1 {
        assert(none_verbose(concat.asts.drop_last()));
        assert(concat.asts[0] == concat.asts.last());
    }
    assert(never_verbose(ast) ==> none_verbose(concat.asts));
    match alt {
        Some(alt) => {
            lemma_none_push(alt.asts, ast);
        },
        None => {
            lemma_none_push(Seq::empty(), ast);
            assert(Seq::<AstView>::empty().push(ast) == seq![ast]);
        },
    }
}

proof fn lemma_repeat_verbose(
    p: Seq<char>,
    i: int,
    end: int,
    concat: ConcatView,
    kind: RepetitionKind,
    greedy: bool,
)
    ensures
        none_verbose(repeat(p, i, end, concat, kind, greedy).asts) ==> none_verbose(concat.asts),
{
    let front = if concat.asts.len() == 0 {
        concat.asts
    } else {
        concat.asts.drop_last()
    };
    let ast = operand(p, i, concat);
    let last = repeat(p, i, end, concat, kind, greedy).asts.last();
    assert(never_verbose(last) == never_verbose(ast));
    lemma_none_push(front, last);
}

proof fn lemma_item_verbose(
    p: Seq<char>,
    octal_on: bool,
    verbose: bool,
    c: Cursor,
    concat: ConcatView,
)
    ensures
        match item(p, octal_on, verbose, c, concat).1 {
            Ok(next) => none_verbose(next.asts) ==> none_verbose(concat.asts),
            Err(_) => true,
        },
{
    let i = c.index;
    let end = item(p, octal_on, verbose, c, concat).0.index;
    match repetition_kind(p[i]) {
        Some(kind) => {
            lemma_repeat_verbose(p, i, end, concat, kind, true);
            lemma_repeat_verbose(p, i, end, concat, kind, false);
        },
        None => {
            if p[i] == '{' {
                match range(p, i) {
                    (j, Err(e)) => {},
                    (j, Ok(range)) => {
                        let kind = RepetitionKind::Range(range);
                        lemma_repeat_verbose(p, i, end, concat, kind, true);
                        lemma_repeat_verbose(p, i, end, concat, kind, false);
                    },
                }
            } else if p[i] == '[' {
                match class(p, octal_on, verbose, c) {
                    (c1, Err(e)) => {},
                    (c1, Ok(class)) => {
                        lemma_none_push(concat.asts, AstView::Class(class));
                    },
                }
            } else {
                match primitive(p, octal_on, verbose, i) {
                    (end, Err(e)) => {},
                    (end, Ok(prim)) => {
                        lemma_none_push(concat.asts, into_ast(prim));
                    },
                }
            }
        },
    }
}

/// What turns verbose mode on becomes a part of the concatenation.
pub proof fn lemma_part_verbose(
    p: Seq<char>,
    octal_on: bool,
    verbose: bool,
    c: Cursor,
    concat: ConcatView,
)
    ensures
        match part(p, octal_on, verbose, c, concat).1 {
            Part::More(more, next) => none_verbose(next.asts) ==> {
                &&& none_verbose(concat.asts)
                &&& !verbose ==> !more
            },
            _ => true,
        },
{
    reveal(part);
    if p[c.index] == '(' {
        match group_open(p, verbose, c) {
            (c1, Ok(Either::Left(set))) => {
                lemma_none_push(concat.asts, AstView::Flags(set));
            },
            _ => {},
        }
    } else {
        lemma_item_verbose(p, octal_on, verbose, c, concat);
    }
}

/// An expression whose tree does not turn verbose mode on is made of parts and
/// branches that do not.
pub proof fn lemma_expr_verbose(
    p: Seq<char>,
    octal_on: bool,
    verbose: bool,
    c: Cursor,
    concat: ConcatView,
    alt: Option<AlternationView>,
)
    requires
        0 <= c.index <= p.len(),
    ensures
        match expr(p, octal_on, verbose, c, concat, alt).1 {
            Ok(end) => never_verbose(end_tree(end)) ==> {
                &&& none_verbose(concat.asts)
                &&& alt is Some ==> none_verbose(alt->0.asts)
            },
            Err(_) => true,
        },
    decreases p.len() - c.index,
{
    let c1 = c.skip(p, verbose);
    lemma_skip(p, c, verbose);
    lemma_finish_verbose(p, c1.index, concat, alt);
    if c1.index < p.len() {
        lemma_part(p, octal_on, verbose, c1, concat);
        lemma_part_verbose(p, octal_on, verbose, c1, concat);
        match part(p, octal_on, verbose, c1, concat) {
            (c2, Part::Failed(e)) => {},
            (c2, Part::Close) => {},
            (c2, Part::Bar) => {
                lemma_expr_verbose(
                    p,
                    octal_on,
                    verbose,
                    c2,
                    empty_concat(p, c2.index),
                    Some(add_branch(p, c1.index, concat, alt)),
                );
            },
            (c2, Part::More(verbose, concat)) => {
                lemma_expr_verbose(p, octal_on, verbose, c2, concat, alt);
            },
            (c2, Part::Open(group)) => {
                let inner = verbose_in(group.kind, verbose);
                let start = empty_concat(p, c2.index);
                lemma_expr(p, octal_on, inner, c2, start, None);
                match expr(p, octal_on, inner, c2, start, None) {
                    (c3, Ok(ExprEnd::Paren(ast))) => {
                        let whole = close_group(p, c3.index, group, ast);
                        lemma_none_push(concat.asts, whole);
                        lemma_expr_verbose(
                            p,
                            octal_on,
                            verbose,
                            c3.at(c3.index + 1),
                            concat_push(concat, whole),
                            alt,
                        );
                    },
                    _ => {},
                }
            },
        }
    }
}

} // verus!
