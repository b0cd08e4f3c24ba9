//! The part of a pattern that its tree covers.

use either::Either;
use vstd::prelude::*;

use crate::ast::methods::ast_span;
use crate::ast::view::{AlternationView, AstView, ConcatView};
use crate::ast::{Position, RepetitionKind, Span};
use crate::grammar::class::class;
use crate::grammar::escape::primitive;
use crate::grammar::expr::{
    add_branch, close_group, concat_push, empty_concat, expr, into_ast, item, lemma_expr,
    lemma_part, operand, parse, part, range, repeat, repetition_kind, verbose_in, ExprEnd, Part,
};
use crate::grammar::group::group_open;
use crate::grammar::space::Cursor;
use crate::grammar::Options;
use crate::laws::spans::class::lemma_class_spans;
use crate::laws::spans::leaf::{lemma_group_spans, lemma_primitive_spans};
use crate::laws::verbose::{end_tree, lemma_expr_verbose, lemma_part_verbose, never_verbose};
use crate::text::{char_span_at, fits, position_at, span_between};

verus! {

/// The parts of a concatenation reach from its start to the given index.
spec fn covers(p: Seq<char>, concat: ConcatView, i: int) -> bool {
    if concat.asts.len() == 0 {
        concat.span.start == position_at(p, i)
    } else {
        &&& ast_span(concat.asts[0]).start == concat.span.start
        &&& ast_span(concat.asts.last()).end == position_at(p, i)
    }
}

/// The position at which an expression starts.
spec fn expr_start(concat: ConcatView, alt: Option<AlternationView>) -> Position {
    match alt {
        None => concat.span.start,
        Some(alt) => alt.span.start,
    }
}

proof fn lemma_push_covers(p: Seq<char>, concat: ConcatView, i: int, ast: AstView, end: int)
    requires
        covers(p, concat, i),
        ast_span(ast) == span_between(p, i, end),
    ensures
        covers(p, concat_push(concat, ast), end),
{
}

proof fn lemma_repeat_covers(
    p: Seq<char>,
    i: int,
    end: int,
    concat: ConcatView,
    kind: RepetitionKind,
    greedy: bool,
)
    requires
        covers(p, concat, i),
    ensures
        covers(p, repeat(p, i, end, concat, kind, greedy), end),
{
    let next = repeat(p, i, end, concat, kind, greedy).asts;
    let ast = operand(p, i, concat);
    assert(ast_span(next.last()).start == ast_span(ast).start);
    if concat.asts.len() > 1 {
        assert(next[0] == concat.asts[0]);
    }
}

proof fn lemma_item_covers(p: Seq<char>, octal_on: bool, c: Cursor, concat: ConcatView)
    requires
        fits(p),
        0 <= c.index < p.len(),
        covers(p, concat, c.index),
    ensures
        match item(p, octal_on, false, c, concat) {
            (c1, Ok(next)) => covers(p, next, c1.index) && next.span == concat.span,
            (c1, Err(e)) => true,
        },
{
    let i = c.index;
    let end = item(p, octal_on, false, c, concat).0.index;
    match repetition_kind(p[i]) {
        Some(kind) => {
            lemma_repeat_covers(p, i, end, concat, kind, true);
            lemma_repeat_covers(p, i, end, concat, kind, false);
        },
        None => {
            if p[i] == '{' {
                match range(p, i) {
                    (j, Err(e)) => {},
                    (j, Ok(range)) => {
                        let kind = RepetitionKind::Range(range);
                        lemma_repeat_covers(p, i, end, concat, kind, true);
                        lemma_repeat_covers(p, i, end, concat, kind, false);
                    },
                }
            } else if p[i] == '[' {
                lemma_class_spans(p, octal_on, false, c);
                match class(p, octal_on, false, c) {
                    (c1, Err(e)) => {},
                    (c1, Ok(class)) => {
                        lemma_push_covers(p, concat, i, AstView::Class(class), c1.index);
                    },
                }
            } else {
                lemma_primitive_spans(p, octal_on, false, i);
                match primitive(p, octal_on, false, i) {
                    (end, Err(e)) => {},
                    (end, Ok(prim)) => {
                        lemma_push_covers(p, concat, i, into_ast(prim), end);
                    },
                }
            }
        },
    }
}

proof fn lemma_part_covers(p: Seq<char>, octal_on: bool, c: Cursor, concat: ConcatView)
    requires
        fits(p),
        0 <= c.index < p.len(),
        covers(p, concat, c.index),
    ensures
        match part(p, octal_on, false, c, concat) {
            (c1, Part::More(_, next)) => covers(p, next, c1.index) && next.span == concat.span,
            (c1, Part::Open(group)) => group.span == char_span_at(p, c.index),
            _ => true,
        },
{
    reveal(part);
    if p[c.index] == '(' {
        lemma_group_spans(p, false, c);
        match group_open(p, false, c) {
            (c1, Ok(Either::Left(set))) => {
                lemma_push_covers(p, concat, c.index, AstView::Flags(set), c1.index);
            },
            _ => {},
        }
    } else {
        lemma_item_covers(p, octal_on, c, concat);
    }
}

/// The tree of an expression reaches from its start to its end, where there is
/// no space to skip.
proof fn lemma_expr_covers(
    p: Seq<char>,
    octal_on: bool,
    c: Cursor,
    concat: ConcatView,
    alt: Option<AlternationView>,
)
    requires
        fits(p),
        0 <= c.index <= p.len(),
        covers(p, concat, c.index),
    ensures
        match expr(p, octal_on, false, c, concat, alt) {
            (c1, Ok(end)) => never_verbose(end_tree(end)) ==> ast_span(end_tree(end)) == (Span {
                start: expr_start(concat, alt),
                end: position_at(p, c1.index),
            }),
            (c1, Err(e)) => true,
        },
    decreases p.len() - c.index,
{
    assert(c.skip(p, false) == c);
    if concat.asts.len() == 1 {
        assert(concat.asts[0] == concat.asts.last());
    }
    if c.index < p.len() {
        lemma_part(p, octal_on, false, c, concat);
        lemma_part_covers(p, octal_on, c, concat);
        match part(p, octal_on, false, c, concat) {
            (c2, Part::Failed(e)) => {},
            (c2, Part::Close) => {},
            (c2, Part::Bar) => {
                lemma_expr_covers(
                    p,
                    octal_on,
                    c2,
                    empty_concat(p, c2.index),
                    Some(add_branch(p, c.index, concat, alt)),
                );
            },
            (c2, Part::More(more, next)) => {
                lemma_part_verbose(p, octal_on, false, c, concat);
                lemma_expr_verbose(p, octal_on, more, c2, next, alt);
                lemma_expr_covers(p, octal_on, c2, next, alt);
            },
            (c2, Part::Open(group)) => {
                let inner = verbose_in(group.kind, false);
                let start = empty_concat(p, c2.index);
                lemma_expr(p, octal_on, inner, c2, start, None);
                match expr(p, octal_on, inner, c2, start, None) {
                    (c3, Ok(ExprEnd::Paren(ast))) => {
                        let whole = close_group(p, c3.index, group, ast);
                        let c4 = c3.at(c3.index + 1);
                        lemma_push_covers(p, concat, c.index, whole, c4.index);
                        lemma_expr_covers(p, octal_on, c4, concat_push(concat, whole), alt);
                    },
                    _ => {},
                }
            },
        }
    }
}

/// Outside of verbose mode, a tree covers its whole pattern: where verbose mode
/// is neither on from the start nor turned on by flags in the pattern, the span
/// of the tree reaches from the start of the pattern to its end.
pub proof fn law_tree_covers_pattern(p: Seq<char>, options: Options)
    requires
        fits(p),
        !options.ignore_space,
    ensures
        match parse(p, options) {
            Ok(x) => never_verbose(x.ast) ==> ast_span(x.ast) == span_between(
                p,
                0,
                p.len() as int,
            ),
            Err(_) => true,
        },
{
    let start = Cursor { index: 0, comments: Seq::empty() };
    let concat = empty_concat(p, 0);
    lemma_expr(p, options.octal, false, start, concat, None);
    lemma_expr_covers(p, options.octal, start, concat, None);
}

} // verus!
