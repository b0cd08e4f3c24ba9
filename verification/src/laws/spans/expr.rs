//! The spans of expressions.

use either::Either;
use vstd::prelude::*;

use crate::ast::methods::ast_span;
use crate::ast::view::{AlternationView, AstView, ConcatView, GroupView};
use crate::ast::RepetitionKind;
use crate::grammar::class::{class, lemma_class};
use crate::grammar::escape::{lemma_primitive, primitive};
use crate::grammar::expr::{
    add_branch, branch, close_group, concat_push, empty_concat, expr, finish, into_ast, item,
    lemma_expr, lemma_item, lemma_part, lemma_range, operand, part, range, repeat, repetition_kind,
    verbose_in, ExprEnd, Part,
};
use crate::grammar::group::{group_open, lemma_group_open};
use crate::grammar::space::{lemma_skip, Cursor};
use crate::laws::spans::class::lemma_class_spans;
use crate::laws::spans::leaf::{lemma_group_spans, lemma_primitive_spans, lemma_range_spans};
use crate::laws::spans::{
    asts_placed, is_error, is_position, kind_placed, lemma_asts_placed, lemma_asts_push,
    lemma_position, lemma_span, placed,
};
use crate::text::{char_span_at, fits, lemma_offset_monotone, offset_at, span_between};

verus! {

/// A concatenation whose parts stand before the given index.
pub open spec fn concat_placed(p: Seq<char>, concat: ConcatView, i: int) -> bool {
    &&& is_position(p, concat.span.start)
    &&& asts_placed(p, concat.asts, concat.span.start.offset as int, offset_at(p, i) as int)
}

/// The branches before a concatenation, if any, stand before it.
pub open spec fn alt_placed(
    p: Seq<char>,
    alt: Option<AlternationView>,
    concat: ConcatView,
) -> bool {
    match alt {
        None => true,
        Some(alt) => {
            &&& is_position(p, alt.span.start)
            &&& asts_placed(
                p,
                alt.asts,
                alt.span.start.offset as int,
                concat.span.start.offset as int,
            )
        },
    }
}

/// The offset at which an expression starts.
pub open spec fn expr_start(concat: ConcatView, alt: Option<AlternationView>) -> int {
    match alt {
        None => concat.span.start.offset as int,
        Some(alt) => alt.span.start.offset as int,
    }
}

/// The tree of a concatenation covers its parts.
proof fn lemma_branch_spans(p: Seq<char>, i: int, concat: ConcatView)
    requires
        fits(p),
        0 <= i <= p.len(),
        concat_placed(p, concat, i),
    ensures
        placed(p, branch(p, i, concat)),
        concat.span.start.offset <= ast_span(branch(p, i, concat)).start.offset,
        ast_span(branch(p, i, concat)).end.offset <= offset_at(p, i),
{
    let lo = concat.span.start.offset as int;
    let hi = offset_at(p, i) as int;
    lemma_position(p, i);
    lemma_asts_placed(p, concat.asts, lo, hi, hi);
    if concat.asts.len() == 1 {
        let ast = concat.asts.last();
        let start = ast_span(ast).start.offset as int;
        assert(placed(p, ast));
        assert(asts_placed(p, concat.asts.drop_last(), lo, start));
    }
}

/// The tree of an expression covers its branches.
proof fn lemma_finish_spans(
    p: Seq<char>,
    i: int,
    concat: ConcatView,
    alt: Option<AlternationView>,
)
    requires
        fits(p),
        0 <= i <= p.len(),
        concat_placed(p, concat, i),
        alt_placed(p, alt, concat),
    ensures
        placed(p, finish(p, i, concat, alt)),
        expr_start(concat, alt) <= ast_span(finish(p, i, concat, alt)).start.offset,
        ast_span(finish(p, i, concat, alt)).end.offset <= offset_at(p, i),
{
    let ast = branch(p, i, concat);
    lemma_position(p, i);
    lemma_branch_spans(p, i, concat);
    match alt {
        None => {},
        Some(alt) => {
            let lo = alt.span.start.offset as int;
            let mid = concat.span.start.offset as int;
            let hi = offset_at(p, i) as int;
            lemma_asts_placed(p, alt.asts, lo, mid, mid);
            lemma_asts_push(p, alt.asts, ast, lo, mid, hi);
            lemma_asts_placed(p, alt.asts.push(ast), lo, hi, hi);
        },
    }
}

/// The branches before a `|` stand before what follows it.
proof fn lemma_add_branch_spans(
    p: Seq<char>,
    i: int,
    concat: ConcatView,
    alt: Option<AlternationView>,
)
    requires
        fits(p),
        0 <= i < p.len(),
        concat_placed(p, concat, i),
        alt_placed(p, alt, concat),
    ensures
        concat_placed(p, empty_concat(p, i + 1), i + 1),
        alt_placed(p, Some(add_branch(p, i, concat, alt)), empty_concat(p, i + 1)),
        add_branch(p, i, concat, alt).span.start.offset == expr_start(concat, alt),
{
    let ast = branch(p, i, concat);
    let mid = concat.span.start.offset as int;
    let end = offset_at(p, i + 1) as int;
    lemma_position(p, i);
    lemma_position(p, i + 1);
    lemma_offset_monotone(p, i, i + 1);
    lemma_branch_spans(p, i, concat);
    match alt {
        None => {
            lemma_asts_push(p, Seq::empty(), ast, mid, mid, end);
            assert(Seq::<AstView>::empty().push(ast) == seq![ast]);
        },
        Some(alt) => {
            lemma_asts_push(p, alt.asts, ast, alt.span.start.offset as int, mid, end);
        },
    }
}

/// A tree that covers what stands between two indices can be added to the parts
/// before the first one.
proof fn lemma_push_spans(p: Seq<char>, concat: ConcatView, i: int, ast: AstView, end: int)
    requires
        concat_placed(p, concat, i),
        placed(p, ast),
        offset_at(p, i) <= ast_span(ast).start.offset,
        ast_span(ast).end.offset <= offset_at(p, end),
    ensures
        concat_placed(p, concat_push(concat, ast), end),
{
    lemma_asts_push(
        p,
        concat.asts,
        ast,
        concat.span.start.offset as int,
        offset_at(p, i) as int,
        offset_at(p, end) as int,
    );
}

/// A repetition covers its operand and its operator.
proof fn lemma_repeat_spans(
    p: Seq<char>,
    i: int,
    end: int,
    concat: ConcatView,
    kind: RepetitionKind,
    greedy: bool,
)
    requires
        fits(p),
        0 <= i <= end <= p.len(),
        concat_placed(p, concat, i),
    ensures
        concat_placed(p, repeat(p, i, end, concat, kind, greedy), end),
{
    let asts = concat.asts;
    let lo = concat.span.start.offset as int;
    let hi = offset_at(p, i) as int;
    let ast = operand(p, i, concat);
    let start = ast_span(ast).start.offset as int;
    let front = if asts.len() == 0 {
        asts
    } else {
        asts.drop_last()
    };
    lemma_position(p, i);
    lemma_position(p, end);
    lemma_span(p, i, i);
    lemma_span(p, i, end);
    lemma_asts_placed(p, asts, lo, hi, hi);
    assert(placed(p, ast));
    assert(asts_placed(p, front, lo, start));
    let last = repeat(p, i, end, concat, kind, greedy).asts.last();
    assert(placed(p, last));
    lemma_asts_push(p, front, last, lo, start, offset_at(p, end) as int);
}

/// Parts that stand before an index stand before every later one.
proof fn lemma_concat_placed(p: Seq<char>, concat: ConcatView, i: int, j: int)
    requires
        concat_placed(p, concat, i),
        0 <= i <= j,
    ensures
        concat_placed(p, concat, j),
{
    lemma_offset_monotone(p, i, j);
    lemma_asts_placed(
        p,
        concat.asts,
        concat.span.start.offset as int,
        offset_at(p, i) as int,
        offset_at(p, j) as int,
    );
}

proof fn lemma_item_spans(
    p: Seq<char>,
    octal_on: bool,
    verbose: bool,
    c: Cursor,
    concat: ConcatView,
)
    requires
        fits(p),
        0 <= c.index < p.len(),
        concat_placed(p, concat, c.index),
    ensures
        match item(p, octal_on, verbose, c, concat) {
            (c1, Ok(next)) => concat_placed(p, next, c1.index) && next.span == concat.span,
            (c1, Err(e)) => is_error(p, e),
        },
{
    let i = c.index;
    lemma_item(p, octal_on, verbose, c, concat);
    match repetition_kind(p[i]) {
        Some(kind) => {
            let lazy = i + 1 < p.len() && p[i + 1] == '?';
            let end = item(p, octal_on, verbose, c, concat).0.index;
            lemma_repeat_spans(p, i, end, concat, kind, !lazy);
        },
        None => {
            if p[i] == '{' {
                lemma_range(p, i);
                lemma_range_spans(p, i);
                match range(p, i) {
                    (j, Err(e)) => {},
                    (j, Ok(range)) => {
                        let c1 = c.at(j + 1).skip(p, verbose);
                        let lazy = c1.index < p.len() && p[c1.index] == '?';
                        let end = item(p, octal_on, verbose, c, concat).0.index;
                        let kind = RepetitionKind::Range(range);
                        lemma_repeat_spans(p, i, end, concat, kind, !lazy);
                    },
                }
            } else if p[i] == '[' {
                lemma_class(p, octal_on, verbose, c);
                lemma_class_spans(p, octal_on, verbose, c);
                match class(p, octal_on, verbose, c) {
                    (c1, Err(e)) => {},
                    (c1, Ok(class)) => {
                        lemma_span(p, i, c1.index);
                        lemma_push_spans(p, concat, i, AstView::Class(class), c1.index);
                    },
                }
            } else {
                lemma_primitive(p, octal_on, verbose, i);
                lemma_primitive_spans(p, octal_on, verbose, i);
                match primitive(p, octal_on, verbose, i) {
                    (end, Err(e)) => {},
                    (end, Ok(prim)) => {
                        lemma_span(p, i, end);
                        lemma_push_spans(p, concat, i, into_ast(prim), end);
                    },
                }
            }
        },
    }
}

proof fn lemma_part_spans(
    p: Seq<char>,
    octal_on: bool,
    verbose: bool,
    c: Cursor,
    concat: ConcatView,
)
    requires
        fits(p),
        0 <= c.index < p.len(),
        concat_placed(p, concat, c.index),
    ensures
        match part(p, octal_on, verbose, c, concat) {
            (c1, Part::Failed(e)) => is_error(p, e),
            (c1, Part::Bar) => c1.index == c.index + 1,
            (c1, Part::More(_, next)) => {
                concat_placed(p, next, c1.index) && next.span == concat.span
            },
            (c1, Part::Open(group)) => {
                &&& group.span == char_span_at(p, c.index)
                &&& kind_placed(
                    p,
                    group.kind,
                    offset_at(p, c.index) as int,
                    offset_at(p, c1.index) as int,
                )
            },
            _ => true,
        },
{
    reveal(part);
    if p[c.index] == '(' {
        lemma_group_open(p, verbose, c);
        lemma_group_spans(p, verbose, c);
        match group_open(p, verbose, c) {
            (c1, Ok(Either::Left(set))) => {
                lemma_span(p, c.index, c1.index);
                lemma_push_spans(p, concat, c.index, AstView::Flags(set), c1.index);
            },
            _ => {},
        }
    } else {
        lemma_item_spans(p, octal_on, verbose, c, concat);
    }
}

/// A group covers what it is made of.
proof fn lemma_close_spans(
    p: Seq<char>,
    open: int,
    inner: int,
    close: int,
    group: GroupView,
    ast: AstView,
)
    requires
        fits(p),
        0 <= open < inner <= close < p.len(),
        group.span == char_span_at(p, open),
        placed(p, ast),
        offset_at(p, inner) <= ast_span(ast).start.offset,
        ast_span(ast).end.offset <= offset_at(p, close),
        kind_placed(p, group.kind, offset_at(p, open) as int, offset_at(p, inner) as int),
    ensures
        placed(p, close_group(p, close, group, ast)),
        ast_span(close_group(p, close, group, ast)) == span_between(p, open, close + 1),
{
    lemma_span(p, open, close + 1);
    lemma_position(p, open);
    lemma_offset_monotone(p, open, inner);
    lemma_offset_monotone(p, close, close + 1);
}

/// An expression covers what it is made of.
pub proof fn lemma_expr_spans(
    p: Seq<char>,
    octal_on: bool,
    verbose: bool,
    c: Cursor,
    concat: ConcatView,
    alt: Option<AlternationView>,
)
    requires
        fits(p),
        0 <= c.index <= p.len(),
        concat_placed(p, concat, c.index),
        alt_placed(p, alt, concat),
    ensures
        match expr(p, octal_on, verbose, c, concat, alt) {
            (c1, Ok(end)) => {
                let ast = match end {
                    ExprEnd::Eof(ast) => ast,
                    ExprEnd::Paren(ast) => ast,
                };
                &&& placed(p, ast)
                &&& expr_start(concat, alt) <= ast_span(ast).start.offset
                &&& ast_span(ast).end.offset <= offset_at(p, c1.index)
            },
            (c1, Err(e)) => is_error(p, e),
        },
    decreases p.len() - c.index,
{
    let c1 = c.skip(p, verbose);
    lemma_skip(p, c, verbose);
    lemma_concat_placed(p, concat, c.index, c1.index);
    lemma_finish_spans(p, c1.index, concat, alt);
    if c1.index < p.len() {
        lemma_part(p, octal_on, verbose, c1, concat);
        lemma_part_spans(p, octal_on, verbose, c1, concat);
        match part(p, octal_on, verbose, c1, concat) {
            (c2, Part::Failed(e)) => {},
            (c2, Part::Close) => {},
            (c2, Part::Bar) => {
                lemma_add_branch_spans(p, c1.index, concat, alt);
                lemma_expr_spans(
                    p,
                    octal_on,
                    verbose,
                    c2,
                    empty_concat(p, c2.index),
                    Some(add_branch(p, c1.index, concat, alt)),
                );
            },
            (c2, Part::More(verbose, concat)) => {
                lemma_expr_spans(p, octal_on, verbose, c2, concat, alt);
            },
            (c2, Part::Open(group)) => {
                let inner = verbose_in(group.kind, verbose);
                let start = empty_concat(p, c2.index);
                lemma_position(p, c2.index);
                lemma_span(p, c1.index, c1.index + 1);
                lemma_expr(p, octal_on, inner, c2, start, None);
                lemma_expr_spans(p, octal_on, inner, c2, start, None);
                match expr(p, octal_on, inner, c2, start, None) {
                    (c3, Ok(ExprEnd::Paren(ast))) => {
                        let whole = close_group(p, c3.index, group, ast);
                        lemma_close_spans(p, c1.index, c2.index, c3.index, group, ast);
                        lemma_span(p, c1.index, c3.index + 1);
                        lemma_push_spans(p, concat, c1.index, whole, c3.index + 1);
                        lemma_expr_spans(
                            p,
                            octal_on,
                            verbose,
                            c3.at(c3.index + 1),
                            concat_push(concat, whole),
                            alt,
                        );
                    },
                    _ => {},
                }
            },
        }
    }
}

} // verus!
