//! Which comments a text has.

use either::Either;
use vstd::prelude::*;

use crate::ast::methods::ast_span;
use crate::ast::view::{AlternationView, AstView, CommentView, ConcatView};
use crate::ast::RepetitionKind;
use crate::chars::{lemma_run_end, run_end, CharSet};
use crate::grammar::class::class;
use crate::grammar::escape::{primitive, PrimitiveView};
use crate::grammar::expr::{
    add_branch, branch, close_group, concat_push, counted, empty_concat, expr, finish, into_ast,
    item, lemma_expr, lemma_item, lemma_part, lemma_range, operand, parse, part, range, repeat,
    repetition_kind, verbose_in, ExprEnd, Part,
};
use crate::grammar::group::{group_open, lemma_group_open};
use crate::grammar::number::{decimal, lemma_decimal};
use crate::grammar::space::{lemma_skip, Cursor};
use crate::grammar::Options;
use crate::laws::reading::expr::{
    alt_read, branches_mode, concat_read, kind_end, lemma_add_branch_reads, lemma_expr_reads,
    lemma_mode_in, lemma_part_reads, lemma_push_reads, mode_behind, mode_in, mode_of, next_start,
    parts_end, reads,
};
use crate::laws::reading::leaf::{lemma_past, lemma_skip_index};
use crate::laws::reading::notes::{class_notes, gap, lemma_class_notes, lemma_gap, lemma_skip_notes};
use crate::laws::reading::{hi, lemma_span_index, lo, past};
use crate::text::{fits, span_between};

verus! {

/// The first index from `i` on at which a `}` stands.
pub open spec fn close_at(p: Seq<char>, i: int) -> int
    decreases p.len() - i,
{
    if i < p.len() && p[i] != '}' {
        close_at(p, i + 1)
    } else {
        i
    }
}

/// The comments in a tree, where the mode is the given one.
pub open spec fn tree_notes(p: Seq<char>, ast: AstView, verbose: bool) -> Seq<CommentView>
    decreases ast, 0nat,
{
    match ast {
        AstView::Flags(x) => gap(p, lo(p, x.span) + 1, verbose),
        AstView::Class(x) => class_notes(p, x, verbose),
        AstView::Repetition(x) => {
            let mode = mode_behind(*x.ast, verbose);
            let more = match x.op.kind {
                RepetitionKind::Range(_) => gap(p, close_at(p, lo(p, x.op.span)) + 1, mode),
                _ => seq![],
            };
            tree_notes(p, *x.ast, verbose) + gap(p, hi(p, ast_span(*x.ast)), mode) + more
        },
        AstView::Group(x) => {
            let i = lo(p, x.span) + 1;
            let start = kind_end(p, x.kind, past(p, i, verbose));
            gap(p, i, verbose) + expr_notes(p, *x.ast, start, mode_in(x.kind, verbose))
        },
        _ => seq![],
    }
}

/// The comments in parts that start at the given index, and between them.
pub open spec fn parts_notes(p: Seq<char>, asts: Seq<AstView>, i: int, verbose: bool) -> Seq<
    CommentView,
>
    decreases asts, 0nat,
{
    if asts.len() == 0 {
        seq![]
    } else {
        let front = asts.drop_last();
        let mode = mode_of(front, verbose);
        parts_notes(p, front, i, verbose) + gap(p, parts_end(p, front, i), mode) + tree_notes(
            p,
            asts.last(),
            mode,
        )
    }
}

/// The comments in a branch that starts at the given index.
pub open spec fn branch_notes(p: Seq<char>, ast: AstView, i: int, verbose: bool) -> Seq<CommentView>
    decreases ast, 1nat,
{
    match ast {
        AstView::Empty(_) => gap(p, i, verbose),
        AstView::Concat(x) => parts_notes(p, x.asts, i, verbose) + gap(
            p,
            parts_end(p, x.asts, i),
            mode_of(x.asts, verbose),
        ),
        _ => gap(p, i, verbose) + tree_notes(p, ast, verbose) + gap(
            p,
            hi(p, ast_span(ast)),
            mode_behind(ast, verbose),
        ),
    }
}

/// The comments in branches that start at the given index.
pub open spec fn branches_notes(p: Seq<char>, asts: Seq<AstView>, i: int, verbose: bool) -> Seq<
    CommentView,
>
    decreases asts, 2nat,
{
    if asts.len() == 0 {
        seq![]
    } else {
        let front = asts.drop_last();
        branches_notes(p, front, i, verbose) + branch_notes(
            p,
            asts.last(),
            next_start(p, front, i, verbose),
            branches_mode(front, verbose),
        )
    }
}

/// The comments in an expression that starts at the given index.
pub open spec fn expr_notes(p: Seq<char>, ast: AstView, i: int, verbose: bool) -> Seq<CommentView>
    decreases ast, 3nat,
{
    match ast {
        AstView::Alternation(x) => branches_notes(p, x.asts, i, verbose),
        _ => branch_notes(p, ast, i, verbose),
    }
}

/// The comments in the branches before a concatenation, if any.
spec fn alt_notes(p: Seq<char>, alt: Option<AlternationView>, i: int, verbose: bool) -> Seq<
    CommentView,
> {
    match alt {
        None => seq![],
        Some(alt) => branches_notes(p, alt.asts, i, verbose),
    }
}

proof fn lemma_close_at(p: Seq<char>, i: int, j: int)
    requires
        0 <= i <= j < p.len(),
        p[j] == '}',
        forall|k: int| i <= k < j ==> #[trigger] p[k] != '}',
    ensures
        close_at(p, i) == j,
    decreases j - i,
{
    if i < j {
        lemma_close_at(p, i + 1, j);
    }
}

/// The bounds of a repetition are written without a `}`.
proof fn lemma_range_close(p: Seq<char>, i: int)
    requires
        0 <= i < p.len(),
        p[i] == '{',
    ensures
        match range(p, i) {
            (j, Ok(range)) => close_at(p, i) == j,
            _ => true,
        },
{
    lemma_range(p, i);
    match range(p, i) {
        (j, Ok(range)) => {
            lemma_no_close(p, i);
            lemma_close_at(p, i, j);
        },
        _ => {},
    }
}

proof fn lemma_no_close(p: Seq<char>, i: int)
    requires
        0 <= i < p.len(),
        p[i] == '{',
        range(p, i).1 is Ok,
    ensures
        forall|k: int| i <= k < range(p, i).0 ==> #[trigger] p[k] != '}',
{
    lemma_decimal_close(p, i + 1);
    lemma_decimal(p, i + 1);
    let j = decimal(p, i + 1).0;
    if j + 1 < p.len() {
        lemma_decimal_close(p, j + 1);
        lemma_decimal(p, j + 1);
    }
}

proof fn lemma_decimal_close(p: Seq<char>, i: int)
    requires
        0 <= i <= p.len(),
    ensures
        forall|k: int| i <= k < decimal(p, i).0 ==> #[trigger] p[k] != '}',
{
    let a = run_end(p, i, CharSet::Whitespace);
    let b = run_end(p, a, CharSet::Decimal);
    lemma_run_end(p, i, CharSet::Whitespace);
    lemma_run_end(p, a, CharSet::Decimal);
    lemma_run_end(p, b, CharSet::Whitespace);
    assert forall|k: int| i <= k < decimal(p, i).0 implies #[trigger] p[k]
        != '}' by {
        assert(CharSet::Whitespace.has(p[k]) || CharSet::Decimal.has(p[k]));
    }
}

proof fn lemma_parts_push(p: Seq<char>, asts: Seq<AstView>, i: int, ast: AstView, verbose: bool)
    ensures
        parts_notes(p, asts.push(ast), i, verbose) == parts_notes(p, asts, i, verbose) + gap(
            p,
            parts_end(p, asts, i),
            mode_of(asts, verbose),
        ) + tree_notes(p, ast, mode_of(asts, verbose)),
{
    assert(asts.push(ast).drop_last() =~= asts);
    assert(asts.push(ast).last() == ast);
}

/// A repetition of the last part.
proof fn lemma_repeat_notes(
    p: Seq<char>,
    concat: ConcatView,
    s: int,
    mode: bool,
    i: int,
    verbose: bool,
    end: int,
    kind: RepetitionKind,
    greedy: bool,
    before: Seq<CommentView>,
    all: Seq<CommentView>,
)
    requires
        fits(p),
        concat_read(p, concat, s, mode, i, verbose),
        i <= past(p, i, verbose) < end <= p.len(),
        ({
            let more = match kind {
                RepetitionKind::Range(_) => gap(
                    p,
                    close_at(p, past(p, i, verbose)) + 1,
                    verbose,
                ),
                _ => seq![],
            };
            all == before + parts_notes(p, concat.asts, s, mode) + gap(p, i, verbose) + more
        }),
    ensures
        all == before + parts_notes(
            p,
            repeat(p, past(p, i, verbose), end, concat, kind, greedy).asts,
            s,
            mode,
        ),
{
    broadcast use lemma_span_index;

    let at = past(p, i, verbose);
    let ast = operand(p, at, concat);
    let next = repeat(p, at, end, concat, kind, greedy);
    let front = if concat.asts.len() == 0 {
        concat.asts
    } else {
        concat.asts.drop_last()
    };
    let last = next.asts.last();
    assert(next.asts.drop_last() =~= front);
    lemma_past(p, i, verbose);
    lemma_gap(p, i, verbose);
    let mode1 = mode_of(front, mode);
    assert(mode_behind(ast, mode1) == verbose);
    let rep = last->Repetition_0;
    let more = match kind {
        RepetitionKind::Range(_) => gap(p, close_at(p, at) + 1, verbose),
        _ => seq![],
    };
    assert(last is Repetition && *rep.ast == ast && rep.op.kind == kind);
    assert(rep.op.span == span_between(p, at, end));
    assert(tree_notes(p, last, mode1) == tree_notes(p, ast, mode1) + gap(
        p,
        hi(p, ast_span(ast)),
        verbose,
    ) + more);
    assert(parts_notes(p, next.asts, s, mode) == parts_notes(p, front, s, mode) + gap(
        p,
        parts_end(p, front, s),
        mode1,
    ) + tree_notes(p, last, mode1));
    if concat.asts.len() == 0 {
        assert(tree_notes(p, ast, mode1) == Seq::<CommentView>::empty());
        assert(gap(p, hi(p, ast_span(ast)), verbose) == Seq::<CommentView>::empty());
    }
    assert(all =~= before + parts_notes(p, next.asts, s, mode));
}

proof fn lemma_counted_notes(
    p: Seq<char>,
    c: Cursor,
    concat: ConcatView,
    s: int,
    mode: bool,
    i: int,
    verbose: bool,
    before: Seq<CommentView>,
)
    requires
        fits(p),
        concat_read(p, concat, s, mode, i, verbose),
        i <= c.index < p.len(),
        c.index == past(p, i, verbose),
        p[c.index] == '{',
        c.comments == before + parts_notes(p, concat.asts, s, mode) + gap(p, i, verbose),
    ensures
        match counted(p, verbose, c, concat) {
            (c1, Ok(next)) => c1.comments == before + parts_notes(p, next.asts, s, mode),
            _ => true,
        },
{
    let j = c.index;
    lemma_range(p, j);
    lemma_range_close(p, j);
    match range(p, j) {
        (k, Err(e)) => {},
        (k, Ok(range)) => {
            let c1 = c.at(k + 1).skip(p, verbose);
            lemma_skip(p, c.at(k + 1), verbose);
            lemma_skip_notes(p, c.at(k + 1), verbose);
            let lazy = c1.index < p.len() && p[c1.index] == '?';
            let end = counted(p, verbose, c, concat).0.index;
            let kind = RepetitionKind::Range(range);
            let all = counted(p, verbose, c, concat).0.comments;
            lemma_repeat_notes(p, concat, s, mode, i, verbose, end, kind, !lazy, before, all);
        },
    }
}

/// There are no comments in a primitive.
proof fn lemma_leaf_notes(p: Seq<char>, prim: PrimitiveView, verbose: bool)
    ensures
        tree_notes(p, into_ast(prim), verbose) == Seq::<CommentView>::empty(),
{
}

/// One more part.
proof fn lemma_push_notes(
    p: Seq<char>,
    concat: ConcatView,
    s: int,
    mode: bool,
    i: int,
    verbose: bool,
    ast: AstView,
    before: Seq<CommentView>,
    all: Seq<CommentView>,
)
    requires
        concat_read(p, concat, s, mode, i, verbose),
        all == before + parts_notes(p, concat.asts, s, mode) + gap(p, i, verbose) + tree_notes(
            p,
            ast,
            verbose,
        ),
    ensures
        all == before + parts_notes(p, concat_push(concat, ast).asts, s, mode),
{
    lemma_parts_push(p, concat.asts, s, ast, mode);
    assert(all =~= before + parts_notes(p, concat.asts.push(ast), s, mode));
}

proof fn lemma_item_notes(
    p: Seq<char>,
    octal_on: bool,
    c: Cursor,
    concat: ConcatView,
    s: int,
    mode: bool,
    i: int,
    verbose: bool,
    before: Seq<CommentView>,
)
    requires
        fits(p),
        concat_read(p, concat, s, mode, i, verbose),
        i <= c.index < p.len(),
        c.index == past(p, i, verbose),
        c.comments == before + parts_notes(p, concat.asts, s, mode) + gap(p, i, verbose),
    ensures
        match item(p, octal_on, verbose, c, concat) {
            (c1, Ok(next)) => c1.comments == before + parts_notes(p, next.asts, s, mode),
            _ => true,
        },
{
    let j = c.index;
    lemma_item(p, octal_on, verbose, c, concat);
    match repetition_kind(p[j]) {
        Some(kind) => {
            let lazy = j + 1 < p.len() && p[j + 1] == '?';
            let c1 = item(p, octal_on, verbose, c, concat).0;
            assert(c.comments =~= before + parts_notes(p, concat.asts, s, mode) + gap(
                p,
                i,
                verbose,
            ) + Seq::<CommentView>::empty());
            lemma_repeat_notes(
                p,
                concat,
                s,
                mode,
                i,
                verbose,
                c1.index,
                kind,
                !lazy,
                before,
                c1.comments,
            );
        },
        None => {
            if p[j] == '{' {
                lemma_counted_notes(p, c, concat, s, mode, i, verbose, before);
            } else if p[j] == '[' {
                lemma_class_notes(p, octal_on, verbose, c);
                match class(p, octal_on, verbose, c) {
                    (c1, Err(e)) => {},
                    (c1, Ok(class)) => {
                        let ast = AstView::Class(class);
                        let all = c1.comments;
                        lemma_push_notes(p, concat, s, mode, i, verbose, ast, before, all);
                    },
                }
            } else {
                match primitive(p, octal_on, verbose, j) {
                    (end, Err(e)) => {},
                    (end, Ok(prim)) => {
                        let ast = into_ast(prim);
                        let all = c.comments;
                        lemma_leaf_notes(p, prim, verbose);
                        assert(all + Seq::<CommentView>::empty() =~= all);
                        lemma_push_notes(p, concat, s, mode, i, verbose, ast, before, all);
                    },
                }
            }
        },
    }
}

proof fn lemma_part_notes(
    p: Seq<char>,
    octal_on: bool,
    c: Cursor,
    concat: ConcatView,
    s: int,
    mode: bool,
    i: int,
    verbose: bool,
    before: Seq<CommentView>,
)
    requires
        fits(p),
        concat_read(p, concat, s, mode, i, verbose),
        i <= c.index < p.len(),
        c.index == past(p, i, verbose),
        c.comments == before + parts_notes(p, concat.asts, s, mode) + gap(p, i, verbose),
    ensures
        match part(p, octal_on, verbose, c, concat) {
            (c1, Part::More(_, next)) => c1.comments == before + parts_notes(
                p,
                next.asts,
                s,
                mode,
            ),
            (c1, Part::Open(_)) => c1.comments == c.comments + gap(p, c.index + 1, verbose),
            (c1, Part::Bar) => c1.comments == c.comments,
            (c1, Part::Close) => c1.comments == c.comments,
            _ => true,
        },
{
    broadcast use lemma_span_index;

    reveal(part);
    if p[c.index] == '(' {
        lemma_group_open(p, verbose, c);
        lemma_skip(p, c.at(c.index + 1), verbose);
        lemma_skip_notes(p, c.at(c.index + 1), verbose);
        lemma_part_reads(p, octal_on, c, concat, s, mode, i, verbose);
        match group_open(p, verbose, c) {
            (c1, Ok(Either::Left(set))) => {
                let ast = AstView::Flags(set);
                let all = c1.comments;
                assert(set.span == span_between(p, c.index, c1.index));
                assert(tree_notes(p, ast, verbose) == gap(p, c.index + 1, verbose));
                lemma_push_notes(p, concat, s, mode, i, verbose, ast, before, all);
            },
            _ => {},
        }
    } else if p[c.index] != ')' && p[c.index] != '|' {
        lemma_item_notes(p, octal_on, c, concat, s, mode, i, verbose, before);
    }
}

proof fn lemma_branch_notes(
    p: Seq<char>,
    concat: ConcatView,
    s: int,
    mode: bool,
    i: int,
    verbose: bool,
)
    requires
        concat_read(p, concat, s, mode, i, verbose),
    ensures
        branch_notes(p, branch(p, past(p, i, verbose), concat), s, mode) == parts_notes(
            p,
            concat.asts,
            s,
            mode,
        ) + gap(p, i, verbose),
        !(branch(p, past(p, i, verbose), concat) is Alternation),
{
    let asts = concat.asts;
    let ast = branch(p, past(p, i, verbose), concat);
    let all = parts_notes(p, asts, s, mode) + gap(p, i, verbose);
    if asts.len() == 0 {
        assert(branch_notes(p, ast, s, mode) =~= all);
    } else if asts.len() == 1 {
        let front = asts.drop_last();
        assert(front.len() == 0);
        assert(parts_notes(p, front, s, mode) == Seq::<CommentView>::empty());
        assert(asts.last() == asts[0]);
        assert(branch_notes(p, ast, s, mode) =~= all);
    }
}

proof fn lemma_branches_notes(
    p: Seq<char>,
    asts: Seq<AstView>,
    s0: int,
    mode0: bool,
    ast: AstView,
)
    ensures
        branches_notes(p, asts.push(ast), s0, mode0) == branches_notes(p, asts, s0, mode0)
            + branch_notes(
            p,
            ast,
            next_start(p, asts, s0, mode0),
            branches_mode(asts, mode0),
        ),
{
    assert(asts.push(ast).drop_last() =~= asts);
    assert(asts.push(ast).last() == ast);
}

/// The comments in the branches before a `|`, and in an expression that ends.
proof fn lemma_finish_notes(
    p: Seq<char>,
    concat: ConcatView,
    alt: Option<AlternationView>,
    s0: int,
    mode0: bool,
    s: int,
    mode: bool,
    i: int,
    verbose: bool,
)
    requires
        concat_read(p, concat, s, mode, i, verbose),
        alt_read(p, alt, s0, mode0, s, mode),
    ensures
        ({
            let end = past(p, i, verbose);
            let all = alt_notes(p, alt, s0, mode0) + (parts_notes(p, concat.asts, s, mode) + gap(
                p,
                i,
                verbose,
            ));
            &&& expr_notes(p, finish(p, end, concat, alt), s0, mode0) == all
            &&& alt_notes(p, Some(add_branch(p, end, concat, alt)), s0, mode0) == all
        }),
{
    let end = past(p, i, verbose);
    let ast = branch(p, end, concat);
    lemma_branch_notes(p, concat, s, mode, i, verbose);
    match alt {
        None => {
            lemma_branches_notes(p, Seq::empty(), s0, mode0, ast);
            assert(Seq::<AstView>::empty().push(ast) =~= seq![ast]);
            assert(branches_notes(p, Seq::empty(), s0, mode0) == Seq::<CommentView>::empty());
            assert(Seq::<CommentView>::empty() + branch_notes(p, ast, s, mode) =~= branch_notes(
                p,
                ast,
                s,
                mode,
            ));
        },
        Some(alt) => {
            lemma_branches_notes(p, alt.asts, s0, mode0, ast);
        },
    }
}

#[verifier::rlimit(40)]
proof fn lemma_expr_notes(
    p: Seq<char>,
    octal_on: bool,
    verbose: bool,
    c: Cursor,
    concat: ConcatView,
    alt: Option<AlternationView>,
    s0: int,
    mode0: bool,
    s: int,
    mode: bool,
    before: Seq<CommentView>,
)
    requires
        fits(p),
        0 <= c.index <= p.len(),
        concat_read(p, concat, s, mode, c.index, verbose),
        alt_read(p, alt, s0, mode0, s, mode),
        c.comments == before + alt_notes(p, alt, s0, mode0) + parts_notes(
            p,
            concat.asts,
            s,
            mode,
        ),
    ensures
        match expr(p, octal_on, verbose, c, concat, alt) {
            (c1, Ok(end)) => {
                let ast = match end {
                    ExprEnd::Eof(ast) => ast,
                    ExprEnd::Paren(ast) => ast,
                };
                c1.comments == before + expr_notes(p, ast, s0, mode0)
            },
            (c1, Err(e)) => true,
        },
    decreases p.len() - c.index,
{
    broadcast use {lemma_span_index, lemma_skip_index};

    let i = c.index;
    let c1 = c.skip(p, verbose);
    let earlier = before + alt_notes(p, alt, s0, mode0);
    let all = alt_notes(p, alt, s0, mode0) + (parts_notes(p, concat.asts, s, mode) + gap(
        p,
        i,
        verbose,
    ));
    lemma_skip(p, c, verbose);
    lemma_skip_notes(p, c, verbose);
    lemma_finish_notes(p, concat, alt, s0, mode0, s, mode, i, verbose);
    assert(c1.comments == earlier + parts_notes(p, concat.asts, s, mode) + gap(p, i, verbose));
    assert(c1.comments =~= before + all);
    if c1.index < p.len() {
        lemma_part(p, octal_on, verbose, c1, concat);
        lemma_part_reads(p, octal_on, c1, concat, s, mode, i, verbose);
        lemma_part_notes(p, octal_on, c1, concat, s, mode, i, verbose, earlier);
        match part(p, octal_on, verbose, c1, concat) {
            (c2, Part::Failed(e)) => {},
            (c2, Part::Close) => {},
            (c2, Part::Bar) => {
                let next = Some(add_branch(p, c1.index, concat, alt));
                let none = empty_concat(p, c2.index);
                lemma_add_branch_reads(p, concat, alt, s0, mode0, s, mode, i, verbose);
                assert(parts_notes(p, none.asts, c2.index, verbose)
                    == Seq::<CommentView>::empty());
                assert(c2.comments =~= before + alt_notes(p, next, s0, mode0) + parts_notes(
                    p,
                    none.asts,
                    c2.index,
                    verbose,
                ));
                lemma_expr_notes(
                    p,
                    octal_on,
                    verbose,
                    c2,
                    none,
                    next,
                    s0,
                    mode0,
                    c2.index,
                    verbose,
                    before,
                );
            },
            (c2, Part::More(after, next)) => {
                lemma_expr_notes(p, octal_on, after, c2, next, alt, s0, mode0, s, mode, before);
            },
            (c2, Part::Open(group)) => {
                let inner = verbose_in(group.kind, verbose);
                let start = empty_concat(p, c2.index);
                lemma_mode_in(group.kind, verbose);
                lemma_expr(p, octal_on, inner, c2, start, None);
                lemma_expr_reads(
                    p,
                    octal_on,
                    inner,
                    c2,
                    start,
                    None,
                    c2.index,
                    inner,
                    c2.index,
                    inner,
                );
                assert(parts_notes(p, start.asts, c2.index, inner)
                    == Seq::<CommentView>::empty());
                assert(c2.comments =~= c2.comments + alt_notes(p, None, c2.index, inner)
                    + parts_notes(p, start.asts, c2.index, inner));
                lemma_expr_notes(
                    p,
                    octal_on,
                    inner,
                    c2,
                    start,
                    None,
                    c2.index,
                    inner,
                    c2.index,
                    inner,
                    c2.comments,
                );
                match expr(p, octal_on, inner, c2, start, None) {
                    (c3, Ok(ExprEnd::Paren(ast))) => {
                        let whole = close_group(p, c3.index, group, ast);
                        let c4 = c3.at(c3.index + 1);
                        let next = concat_push(concat, whole);
                        assert(ast_span(whole) == span_between(p, c1.index, c3.index + 1));
                        assert(reads(p, whole, verbose));
                        lemma_push_reads(p, concat, s, mode, i, verbose, whole, c3.index + 1);
                        assert(tree_notes(p, whole, verbose) == gap(p, c1.index + 1, verbose)
                            + expr_notes(p, ast, c2.index, inner));
                        assert(c4.comments =~= earlier + parts_notes(p, concat.asts, s, mode)
                            + gap(p, i, verbose) + tree_notes(p, whole, verbose));
                        lemma_push_notes(
                            p,
                            concat,
                            s,
                            mode,
                            i,
                            verbose,
                            whole,
                            earlier,
                            c4.comments,
                        );
                        lemma_expr_notes(
                            p,
                            octal_on,
                            verbose,
                            c4,
                            next,
                            alt,
                            s0,
                            mode0,
                            s,
                            mode,
                            before,
                        );
                    },
                    _ => {},
                }
            },
        }
    }
}

/// The comments of a text are those in the space that is skipped between the
/// parts of its tree, all of them and in their order.
pub proof fn law_comments_are_what_is_skipped(p: Seq<char>, options: Options)
    requires
        fits(p),
    ensures
        parse(p, options) matches Ok(x) ==> x.comments == expr_notes(
            p,
            x.ast,
            0,
            options.ignore_space,
        ),
{
    let start = Cursor { index: 0, comments: Seq::empty() };
    let v = options.ignore_space;
    let none = empty_concat(p, 0);
    assert(parts_notes(p, none.asts, 0, v) == Seq::<CommentView>::empty());
    assert(start.comments =~= start.comments + alt_notes(p, None, 0, v) + parts_notes(
        p,
        none.asts,
        0,
        v,
    ));
    lemma_expr(p, options.octal, v, start, none, None);
    lemma_expr_notes(p, options.octal, v, start, none, None, 0, v, 0, v, start.comments);
    match parse(p, options) {
        Ok(x) => {
            assert(start.comments + expr_notes(p, x.ast, 0, v) =~= expr_notes(p, x.ast, 0, v));
        },
        _ => {},
    }
}

} // verus!
