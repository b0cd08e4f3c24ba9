//! How expressions are read.

use either::Either;
use vstd::prelude::*;

use crate::ast::methods::ast_span;
use crate::ast::view::{AlternationView, AstView, ConcatView, GroupKindView, SetFlagsView};
use crate::ast::{FlagsItem, FlagsItemKind, RepetitionKind, RepetitionOp, RepetitionRange};
use crate::chars::{
    capture_char, decimal_digit, hex_digit, lemma_run_end, run_end, whitespace, CharSet,
};
use crate::grammar::class::{class, lemma_class};
use crate::grammar::escape::{lemma_primitive, primitive};
use crate::grammar::expr::{
    add_branch, branch, close_group, concat_push, counted, empty_concat, expr, finish, into_ast,
    item, lemma_expr, lemma_item, lemma_part, lemma_range, operand, part, range, repeat,
    repetition_kind, parse, verbose_in, ExprEnd, Part,
};
use crate::grammar::group::{
    capture_name, ends_flags, flags_item_kind, flags_rest, group_open, lemma_capture_name,
    lemma_group_open, lemma_group_prefixes,
};
use crate::grammar::number::{decimal, lemma_decimal};
use crate::grammar::space::{lemma_skip, Cursor};
use crate::grammar::Options;
use crate::laws::reading::class::{class_reads, lemma_class_reads, stands_at};
use crate::laws::reading::leaf::{
    lemma_flags_read, lemma_mode_after, lemma_past, lemma_primitive_reads, lemma_skip_index,
    lemma_value,
};
use crate::laws::reading::{
    assertion_reads, flags_read, hi, lemma_index, lemma_span_index, literal_reads, lo, mode_after,
    past, spans, text, value,
};
use crate::text::{char_span_at, fits, position_at, prefix_at, span_between};

verus! {

/// A character that does not stand for itself outside of classes.
pub open spec fn meta(c: char) -> bool {
    ||| c == '\\' || c == '.' || c == '^' || c == '$' || c == '|' || c == '(' || c == ')'
    ||| c == '[' || c == '?' || c == '*' || c == '+' || c == '{'
}

/// A number is written between two indices, with nothing but white space around
/// its digits. Neither a digit nor white space is left behind it.
pub open spec fn counts(p: Seq<char>, i: int, j: int, a: int, b: int, n: u32) -> bool {
    &&& i <= a < b <= j <= p.len()
    &&& forall|k: int| i <= k < a || b <= k < j ==> whitespace(#[trigger] p[k])
    &&& forall|k: int| a <= k < b ==> decimal_digit(#[trigger] p[k])
    &&& b < p.len() ==> !decimal_digit(p[b])
    &&& j < p.len() ==> !whitespace(p[j])
    &&& n == value(p.subrange(a, b), 10)
}

/// A number is written between two indices.
pub open spec fn count_at(p: Seq<char>, i: int, j: int, n: u32) -> bool {
    exists|a: int, b: int| counts(p, i, j, a, b, n)
}

/// Two numbers are written behind the index `i`, up to the index `j`, with a `,`
/// at the index `k`.
pub open spec fn counts_at(p: Seq<char>, i: int, k: int, j: int, m: u32, n: u32) -> bool {
    &&& i < k < j
    &&& p[k] == ','
    &&& count_at(p, i + 1, k, m)
    &&& count_at(p, k + 1, j, n)
}

/// The bounds of a repetition are written between a `{` at the index `i` and a
/// `}` at the index `j`: a number alone, or one with a `,` behind it, or two
/// with a `,` between them.
pub open spec fn range_at(p: Seq<char>, i: int, j: int, range: RepetitionRange) -> bool {
    &&& i < j < p.len()
    &&& p[i] == '{'
    &&& p[j] == '}'
    &&& match range {
        RepetitionRange::Exactly(m) => count_at(p, i + 1, j, m),
        RepetitionRange::AtLeast(m) => p[j - 1] == ',' && count_at(p, i + 1, j - 1, m),
        RepetitionRange::Bounded(m, n) => exists|k: int| counts_at(p, i, k, j, m, n),
    }
}

/// A repetition whose operator ends at the index `i` is greedy if and only if no
/// `?` follows it. That `?` belongs to the repetition.
pub open spec fn greed(p: Seq<char>, i: int, end: int, greedy: bool) -> bool {
    let lazy = i < p.len() && p[i] == '?';
    &&& greedy == !lazy
    &&& end == if lazy {
        i + 1
    } else {
        i
    }
}

/// An operator of repetition stands for what is written.
pub open spec fn repeat_reads(
    p: Seq<char>,
    op: RepetitionOp,
    greedy: bool,
    verbose: bool,
) -> bool {
    let i = lo(p, op.span);
    let end = hi(p, op.span);
    &&& spans(p, op.span)
    &&& i < p.len()
    &&& match op.kind {
        RepetitionKind::ZeroOrOne => p[i] == '?' && greed(p, i + 1, end, greedy),
        RepetitionKind::ZeroOrMore => p[i] == '*' && greed(p, i + 1, end, greedy),
        RepetitionKind::OneOrMore => p[i] == '+' && greed(p, i + 1, end, greedy),
        RepetitionKind::Range(range) => exists|j: int|
            #[trigger] range_at(p, i, j, range) && greed(p, past(p, j + 1, verbose), end, greedy),
    }
}

/// The index behind the opening of a group, where `i` is the index behind its
/// `(` and skipped space.
pub open spec fn kind_end(p: Seq<char>, kind: GroupKindView, i: int) -> int {
    match kind {
        GroupKindView::CaptureIndex => i,
        GroupKindView::CaptureName(name) => i + 3 + name.name.len() + 1,
        GroupKindView::NonCapturing(flags) => i + 1 + flags.items.len() + 1,
    }
}

/// The last of the flags, if there are any, is not a negation.
pub open spec fn negates_something(items: Seq<FlagsItem>) -> bool {
    items.len() > 0 ==> items.last().kind != FlagsItemKind::Negation
}

/// The opening of a group stands for what is written.
pub open spec fn kind_reads(p: Seq<char>, kind: GroupKindView, i: int) -> bool {
    let end = kind_end(p, kind, i);
    &&& end <= p.len()
    &&& match kind {
        GroupKindView::CaptureIndex => i < p.len() ==> p[i] != '?',
        GroupKindView::CaptureName(x) => {
            &&& stands_at(p, i, seq!['?', 'P', '<'] + x.name + seq!['>'])
            &&& x.span == span_between(p, i + 3, end - 1)
            &&& x.name.len() > 0
            &&& capture_char(x.name[0], true)
            &&& forall|k: int| 0 <= k < x.name.len() ==> capture_char(#[trigger] x.name[k], false)
        },
        GroupKindView::NonCapturing(flags) => {
            &&& p[i] == '?'
            &&& flags_read(p, flags, i + 1)
            &&& negates_something(flags.items)
            &&& p[end - 1] == ':'
        },
    }
}

/// A set of flags stands for what is written.
pub open spec fn set_reads(p: Seq<char>, set: SetFlagsView, verbose: bool) -> bool {
    let i = lo(p, set.span);
    let j = past(p, i + 1, verbose);
    let end = j + 1 + set.flags.items.len();
    &&& spans(p, set.span)
    &&& end < p.len()
    &&& p[i] == '('
    &&& p[j] == '?'
    &&& flags_read(p, set.flags, j + 1)
    &&& set.flags.items.len() > 0
    &&& negates_something(set.flags.items)
    &&& p[end] == ')'
    &&& hi(p, set.span) == end + 1
}

/// The mode in a group: its flags say it, if it has any.
pub open spec fn mode_in(kind: GroupKindView, verbose: bool) -> bool {
    match kind {
        GroupKindView::NonCapturing(flags) => mode_after(flags.items, verbose),
        _ => verbose,
    }
}

/// The mode behind a tree: only a set of flags changes it.
pub open spec fn mode_behind(ast: AstView, verbose: bool) -> bool
    decreases ast,
{
    match ast {
        AstView::Flags(x) => mode_after(x.flags.items, verbose),
        AstView::Repetition(x) => mode_behind(*x.ast, verbose),
        _ => verbose,
    }
}

/// The mode behind the parts of a concatenation.
pub open spec fn mode_of(asts: Seq<AstView>, verbose: bool) -> bool
    decreases asts.len(),
{
    if asts.len() == 0 {
        verbose
    } else {
        mode_behind(asts.last(), mode_of(asts.drop_last(), verbose))
    }
}

/// The index behind the parts of a concatenation that starts at the given index.
pub open spec fn parts_end(p: Seq<char>, asts: Seq<AstView>, i: int) -> int {
    if asts.len() == 0 {
        i
    } else {
        hi(p, ast_span(asts.last()))
    }
}

/// The mode behind a branch.
pub open spec fn branch_mode(ast: AstView, verbose: bool) -> bool {
    match ast {
        AstView::Concat(x) => mode_of(x.asts, verbose),
        _ => mode_behind(ast, verbose),
    }
}

/// The index behind a branch that starts at the given index, and behind the
/// space that follows it.
pub open spec fn branch_end(p: Seq<char>, ast: AstView, i: int, verbose: bool) -> int {
    let end = match ast {
        AstView::Empty(_) => i,
        AstView::Concat(x) => parts_end(p, x.asts, i),
        _ => hi(p, ast_span(ast)),
    };
    past(p, end, branch_mode(ast, verbose))
}

/// The mode behind branches.
pub open spec fn branches_mode(asts: Seq<AstView>, verbose: bool) -> bool
    decreases asts.len(),
{
    if asts.len() == 0 {
        verbose
    } else {
        branch_mode(asts.last(), branches_mode(asts.drop_last(), verbose))
    }
}

/// The index at which the next branch starts, behind the `|` that follows the
/// given ones.
pub open spec fn next_start(p: Seq<char>, asts: Seq<AstView>, i: int, verbose: bool) -> int
    decreases asts.len(),
{
    if asts.len() == 0 {
        i
    } else {
        let front = asts.drop_last();
        branch_end(
            p,
            asts.last(),
            next_start(p, front, i, verbose),
            branches_mode(front, verbose),
        ) + 1
    }
}

/// The index behind an expression that starts at the given index, and behind the
/// space that follows it.
pub open spec fn expr_end(p: Seq<char>, ast: AstView, i: int, verbose: bool) -> int {
    match ast {
        AstView::Alternation(x) => next_start(p, x.asts, i, verbose) - 1,
        _ => branch_end(p, ast, i, verbose),
    }
}

/// A part of a concatenation.
pub open spec fn is_piece(ast: AstView) -> bool {
    !(ast is Empty || ast is Alternation || ast is Concat)
}

/// A repetition of nothing.
pub open spec fn bare(ast: AstView) -> bool
    decreases ast,
{
    match ast {
        AstView::Repetition(x) => *x.ast is Empty || bare(*x.ast),
        _ => false,
    }
}

/// A tree stands for what is written, where the mode is the given one.
pub open spec fn reads(p: Seq<char>, ast: AstView, verbose: bool) -> bool
    decreases ast, 0nat,
{
    match ast {
        AstView::Empty(span) => spans(p, span) && lo(p, span) == hi(p, span),
        AstView::Flags(x) => set_reads(p, x, verbose),
        AstView::Literal(x) => {
            &&& literal_reads(p, x, verbose)
            &&& x.kind is Verbatim ==> !meta(x.c)
        },
        AstView::Dot(span) => spans(p, span) && text(p, span) == seq!['.'],
        AstView::Assertion(x) => assertion_reads(p, x),
        AstView::Class(x) => class_reads(p, x, verbose),
        AstView::Repetition(x) => {
            let mode = mode_behind(*x.ast, verbose);
            &&& spans(p, x.span)
            &&& is_piece(*x.ast) || *x.ast is Empty
            &&& reads(p, *x.ast, verbose)
            &&& lo(p, x.span) == lo(p, ast_span(*x.ast))
            &&& lo(p, x.op.span) == past(p, hi(p, ast_span(*x.ast)), mode)
            &&& hi(p, x.span) == hi(p, x.op.span)
            &&& repeat_reads(p, x.op, x.greedy, mode)
        },
        AstView::Group(x) => {
            let i = lo(p, x.span);
            let j = past(p, i + 1, verbose);
            let start = kind_end(p, x.kind, j);
            let mode = mode_in(x.kind, verbose);
            let end = expr_end(p, *x.ast, start, mode);
            &&& spans(p, x.span)
            &&& i < p.len()
            &&& p[i] == '('
            &&& kind_reads(p, x.kind, j)
            &&& expr_reads(p, *x.ast, start, mode)
            &&& end < p.len()
            &&& p[end] == ')'
            &&& hi(p, x.span) == end + 1
        },
        AstView::Alternation(_) => false,
        AstView::Concat(_) => false,
    }
}

/// Parts stand for what is written from the index `i` on, with nothing but
/// skipped space between them.
pub open spec fn parts_read(p: Seq<char>, asts: Seq<AstView>, i: int, verbose: bool) -> bool
    decreases asts, 0nat,
{
    if asts.len() == 0 {
        true
    } else {
        let front = asts.drop_last();
        let mode = mode_of(front, verbose);
        &&& parts_read(p, front, i, verbose)
        &&& is_piece(asts.last())
        &&& bare(asts.last()) ==> front.len() == 0
        &&& lo(p, ast_span(asts.last())) == past(p, parts_end(p, front, i), mode)
        &&& reads(p, asts.last(), mode)
    }
}

/// A branch stands for what is written from the index `i` on.
pub open spec fn branch_reads(p: Seq<char>, ast: AstView, i: int, verbose: bool) -> bool
    decreases ast, 1nat,
{
    match ast {
        AstView::Empty(span) => span == span_between(p, i, branch_end(p, ast, i, verbose)),
        AstView::Concat(x) => {
            &&& x.span == span_between(p, i, branch_end(p, ast, i, verbose))
            &&& x.asts.len() >= 2
            &&& parts_read(p, x.asts, i, verbose)
        },
        AstView::Alternation(_) => false,
        _ => lo(p, ast_span(ast)) == past(p, i, verbose) && reads(p, ast, verbose),
    }
}

/// Branches stand for what is written from the index `i` on, with a `|` between
/// one and the next.
pub open spec fn branches_read(p: Seq<char>, asts: Seq<AstView>, i: int, verbose: bool) -> bool
    decreases asts, 2nat,
{
    if asts.len() == 0 {
        true
    } else {
        let front = asts.drop_last();
        let start = next_start(p, front, i, verbose);
        &&& branches_read(p, front, i, verbose)
        &&& front.len() > 0 ==> 0 < start <= p.len() && p[start - 1] == '|'
        &&& branch_reads(p, asts.last(), start, branches_mode(front, verbose))
    }
}

/// An expression stands for what is written from the index `i` on.
pub open spec fn expr_reads(p: Seq<char>, ast: AstView, i: int, verbose: bool) -> bool
    decreases ast, 3nat,
{
    match ast {
        AstView::Alternation(x) => {
            &&& x.span == span_between(p, i, expr_end(p, ast, i, verbose))
            &&& x.asts.len() >= 2
            &&& branches_read(p, x.asts, i, verbose)
        },
        _ => branch_reads(p, ast, i, verbose),
    }
}

/// What of a concatenation that starts at the index `s` is read up to the index
/// `i`, where the mode is `mode` at its start.
pub open spec fn concat_read(
    p: Seq<char>,
    concat: ConcatView,
    s: int,
    mode: bool,
    i: int,
    verbose: bool,
) -> bool {
    &&& 0 <= s <= i
    &&& concat.span.start == position_at(p, s)
    &&& parts_read(p, concat.asts, s, mode)
    &&& parts_end(p, concat.asts, s) == i
    &&& mode_of(concat.asts, mode) == verbose
}

/// The branches before a concatenation, if any, are read up to its start.
pub open spec fn alt_read(
    p: Seq<char>,
    alt: Option<AlternationView>,
    s0: int,
    mode0: bool,
    s: int,
    mode: bool,
) -> bool {
    match alt {
        None => s == s0 && mode == mode0,
        Some(alt) => {
            &&& 0 <= s0 < s <= p.len()
            &&& p[s - 1] == '|'
            &&& alt.asts.len() > 0
            &&& alt.span.start == position_at(p, s0)
            &&& branches_read(p, alt.asts, s0, mode0)
            &&& next_start(p, alt.asts, s0, mode0) == s
            &&& branches_mode(alt.asts, mode0) == mode
        },
    }
}

/// A number that is found is written there.
pub proof fn lemma_count_at(p: Seq<char>, i: int)
    requires
        0 <= i <= p.len(),
    ensures
        match decimal(p, i) {
            (j, Ok(n)) => count_at(p, i, j, n),
            _ => true,
        },
{
    let a = run_end(p, i, CharSet::Whitespace);
    let b = run_end(p, a, CharSet::Decimal);
    let j = run_end(p, b, CharSet::Whitespace);
    lemma_run_end(p, i, CharSet::Whitespace);
    lemma_run_end(p, a, CharSet::Decimal);
    lemma_run_end(p, b, CharSet::Whitespace);
    match decimal(p, i) {
        (_, Ok(n)) => {
            let digits = p.subrange(a, b);
            assert forall|k: int| 0 <= k < digits.len() implies hex_digit(
                #[trigger] digits[k],
            ) by {
                assert(CharSet::Decimal.has(p[a + k]));
            }
            lemma_value(digits, 10);
            assert forall|k: int| i <= k < a || b <= k < j implies whitespace(#[trigger] p[k]) by {
                assert(CharSet::Whitespace.has(p[k]));
            }
            assert forall|k: int| a <= k < b implies decimal_digit(#[trigger] p[k]) by {
                assert(CharSet::Decimal.has(p[k]));
            }
            assert(counts(p, i, j, a, b, n));
        },
        _ => {},
    }
}

proof fn lemma_range_at(p: Seq<char>, i: int)
    requires
        0 <= i < p.len(),
        p[i] == '{',
    ensures
        match range(p, i) {
            (j, Ok(range)) => range_at(p, i, j, range),
            _ => true,
        },
{
    lemma_range(p, i);
    if i + 1 < p.len() {
        lemma_decimal(p, i + 1);
        lemma_count_at(p, i + 1);
        let j = decimal(p, i + 1).0;
        if j + 1 < p.len() {
            lemma_decimal(p, j + 1);
            lemma_count_at(p, j + 1);
        }
        match range(p, i) {
            (end, Ok(RepetitionRange::Exactly(m))) => {
                assert(count_at(p, i + 1, end, m));
            },
            (end, Ok(RepetitionRange::AtLeast(m))) => {
                assert(end - 1 == j);
                assert(count_at(p, i + 1, end - 1, m));
            },
            (end, Ok(RepetitionRange::Bounded(m, n))) => {
                assert(counts_at(p, i, j, end, m, n));
            },
            _ => {},
        }
    }
}

proof fn lemma_branch_reads(
    p: Seq<char>,
    concat: ConcatView,
    s: int,
    mode: bool,
    i: int,
    verbose: bool,
)
    requires
        concat_read(p, concat, s, mode, i, verbose),
    ensures
        ({
            let end = past(p, i, verbose);
            let ast = branch(p, end, concat);
            &&& branch_reads(p, ast, s, mode)
            &&& branch_end(p, ast, s, mode) == end
            &&& branch_mode(ast, mode) == verbose
            &&& !(ast is Alternation)
        }),
{
    let asts = concat.asts;
    if asts.len() == 1 {
        assert(asts.drop_last().len() == 0);
        assert(mode_of(asts.drop_last(), mode) == mode);
        assert(asts.last() == asts[0]);
        assert(reads(p, asts[0], mode));
    }
}

proof fn lemma_branches_push(
    p: Seq<char>,
    asts: Seq<AstView>,
    s0: int,
    mode0: bool,
    s: int,
    mode: bool,
    ast: AstView,
)
    requires
        branches_read(p, asts, s0, mode0),
        next_start(p, asts, s0, mode0) == s,
        branches_mode(asts, mode0) == mode,
        asts.len() > 0 ==> 0 < s <= p.len() && p[s - 1] == '|',
        branch_reads(p, ast, s, mode),
    ensures
        branches_read(p, asts.push(ast), s0, mode0),
        next_start(p, asts.push(ast), s0, mode0) == branch_end(p, ast, s, mode) + 1,
        branches_mode(asts.push(ast), mode0) == branch_mode(ast, mode),
{
    assert(asts.push(ast).drop_last() =~= asts);
    assert(asts.push(ast).last() == ast);
}

pub proof fn lemma_finish_reads(
    p: Seq<char>,
    concat: ConcatView,
    alt: Option<AlternationView>,
    s0: int,
    mode0: bool,
    s: int,
    mode: bool,
    i: int,
    verbose: bool,
)
    requires
        concat_read(p, concat, s, mode, i, verbose),
        alt_read(p, alt, s0, mode0, s, mode),
    ensures
        ({
            let end = past(p, i, verbose);
            let ast = finish(p, end, concat, alt);
            &&& expr_reads(p, ast, s0, mode0)
            &&& expr_end(p, ast, s0, mode0) == end
        }),
{
    let end = past(p, i, verbose);
    lemma_branch_reads(p, concat, s, mode, i, verbose);
    match alt {
        None => {},
        Some(alt) => {
            lemma_branches_push(p, alt.asts, s0, mode0, s, mode, branch(p, end, concat));
        },
    }
}

pub proof fn lemma_add_branch_reads(
    p: Seq<char>,
    concat: ConcatView,
    alt: Option<AlternationView>,
    s0: int,
    mode0: bool,
    s: int,
    mode: bool,
    i: int,
    verbose: bool,
)
    requires
        concat_read(p, concat, s, mode, i, verbose),
        alt_read(p, alt, s0, mode0, s, mode),
        i <= past(p, i, verbose) < p.len(),
        p[past(p, i, verbose)] == '|',
    ensures
        ({
            let end = past(p, i, verbose);
            &&& alt_read(
                p,
                Some(add_branch(p, end, concat, alt)),
                s0,
                mode0,
                end + 1,
                verbose,
            )
            &&& concat_read(p, empty_concat(p, end + 1), end + 1, verbose, end + 1, verbose)
        }),
{
    let end = past(p, i, verbose);
    let ast = branch(p, end, concat);
    lemma_branch_reads(p, concat, s, mode, i, verbose);
    match alt {
        None => {
            lemma_branches_push(p, Seq::empty(), s0, mode0, s, mode, ast);
            assert(Seq::<AstView>::empty().push(ast) =~= seq![ast]);
        },
        Some(alt) => {
            lemma_branches_push(p, alt.asts, s0, mode0, s, mode, ast);
        },
    }
}

/// One more part.
pub proof fn lemma_push_reads(
    p: Seq<char>,
    concat: ConcatView,
    s: int,
    mode: bool,
    i: int,
    verbose: bool,
    ast: AstView,
    end: int,
)
    requires
        fits(p),
        concat_read(p, concat, s, mode, i, verbose),
        i <= past(p, i, verbose) <= end <= p.len(),
        is_piece(ast),
        !bare(ast),
        ast_span(ast) == span_between(p, past(p, i, verbose), end),
        reads(p, ast, verbose),
    ensures
        concat_read(
            p,
            concat_push(concat, ast),
            s,
            mode,
            end,
            mode_behind(ast, verbose),
        ),
{
    broadcast use lemma_span_index;

    let asts = concat.asts.push(ast);
    assert(asts.drop_last() =~= concat.asts);
    assert(asts.last() == ast);
}

/// A repetition of the last part.
proof fn lemma_repeat_reads(
    p: Seq<char>,
    concat: ConcatView,
    s: int,
    mode: bool,
    i: int,
    verbose: bool,
    end: int,
    kind: RepetitionKind,
    greedy: bool,
)
    requires
        fits(p),
        concat_read(p, concat, s, mode, i, verbose),
        i <= past(p, i, verbose) < end <= p.len(),
        repeat_reads(
            p,
            (RepetitionOp { span: span_between(p, past(p, i, verbose), end), kind }),
            greedy,
            verbose,
        ),
    ensures
        concat_read(
            p,
            repeat(p, past(p, i, verbose), end, concat, kind, greedy),
            s,
            mode,
            end,
            verbose,
        ),
{
    broadcast use lemma_span_index;

    let at = past(p, i, verbose);
    let ast = operand(p, at, concat);
    let next = repeat(p, at, end, concat, kind, greedy);
    let front = if concat.asts.len() == 0 {
        concat.asts
    } else {
        concat.asts.drop_last()
    };
    let last = next.asts.last();
    assert(next.asts.drop_last() =~= front);
    lemma_past(p, i, verbose);
    lemma_index(p, end);
    if concat.asts.len() == 0 {
        assert(mode_behind(ast, verbose) == verbose);
        assert(reads(p, ast, verbose));
        assert(reads(p, last, verbose));
    } else {
        let before = mode_of(front, mode);
        assert(reads(p, ast, before));
        lemma_reads_span(p, ast, before);
        assert(mode_behind(ast, before) == verbose);
        assert(reads(p, last, before));
        assert(mode_behind(last, before) == verbose);
    }
}

/// The span of a tree that is read.
proof fn lemma_reads_span(p: Seq<char>, ast: AstView, verbose: bool)
    requires
        reads(p, ast, verbose),
    ensures
        spans(p, ast_span(ast)),
{
    match ast {
        AstView::Class(x) => {
            assert(class_reads(p, x, verbose));
        },
        _ => {},
    }
}

proof fn lemma_counted_reads(
    p: Seq<char>,
    c: Cursor,
    concat: ConcatView,
    s: int,
    mode: bool,
    i: int,
    verbose: bool,
)
    requires
        fits(p),
        concat_read(p, concat, s, mode, i, verbose),
        i <= c.index < p.len(),
        c.index == past(p, i, verbose),
        p[c.index] == '{',
    ensures
        match counted(p, verbose, c, concat) {
            (c1, Ok(next)) => concat_read(p, next, s, mode, c1.index, verbose),
            (c1, Err(e)) => true,
        },
{
    let j = c.index;
    lemma_range(p, j);
    lemma_range_at(p, j);
    match range(p, j) {
        (k, Err(e)) => {},
        (k, Ok(range)) => {
            let c1 = c.at(k + 1).skip(p, verbose);
            lemma_skip(p, c.at(k + 1), verbose);
            lemma_skip_index(p, c.at(k + 1), verbose);
            let lazy = c1.index < p.len() && p[c1.index] == '?';
            let end = counted(p, verbose, c, concat).0.index;
            let kind = RepetitionKind::Range(range);
            let op = RepetitionOp { span: span_between(p, j, end), kind };
            assert(repeat_reads(p, op, !lazy, verbose)) by {
                lemma_span_index(p, j, end);
                assert(lo(p, op.span) == j && hi(p, op.span) == end);
                assert(range_at(p, lo(p, op.span), k, range));
                assert(greed(p, past(p, k + 1, verbose), hi(p, op.span), !lazy));
            }
            lemma_repeat_reads(p, concat, s, mode, i, verbose, end, kind, !lazy);
        },
    }
}

proof fn lemma_item_reads(
    p: Seq<char>,
    octal_on: bool,
    c: Cursor,
    concat: ConcatView,
    s: int,
    mode: bool,
    i: int,
    verbose: bool,
)
    requires
        fits(p),
        concat_read(p, concat, s, mode, i, verbose),
        i <= c.index < p.len(),
        c.index == past(p, i, verbose),
        p[c.index] != '(' && p[c.index] != ')' && p[c.index] != '|',
    ensures
        match item(p, octal_on, verbose, c, concat) {
            (c1, Ok(next)) => concat_read(p, next, s, mode, c1.index, verbose),
            (c1, Err(e)) => true,
        },
{
    broadcast use {lemma_span_index, lemma_skip_index};

    let j = c.index;
    lemma_item(p, octal_on, verbose, c, concat);
    match repetition_kind(p[j]) {
        Some(kind) => {
            let lazy = j + 1 < p.len() && p[j + 1] == '?';
            let end = item(p, octal_on, verbose, c, concat).0.index;
            lemma_repeat_reads(p, concat, s, mode, i, verbose, end, kind, !lazy);
        },
        None => {
            if p[j] == '{' {
                lemma_counted_reads(p, c, concat, s, mode, i, verbose);
            } else if p[j] == '[' {
                lemma_class(p, octal_on, verbose, c);
                lemma_class_reads(p, octal_on, verbose, c);
                match class(p, octal_on, verbose, c) {
                    (c1, Err(e)) => {},
                    (c1, Ok(class)) => {
                        let ast = AstView::Class(class);
                        lemma_push_reads(p, concat, s, mode, i, verbose, ast, c1.index);
                    },
                }
            } else {
                lemma_primitive(p, octal_on, verbose, j);
                lemma_primitive_reads(p, octal_on, verbose, j);
                match primitive(p, octal_on, verbose, j) {
                    (end, Err(e)) => {},
                    (end, Ok(prim)) => {
                        let ast = into_ast(prim);
                        assert(p.subrange(j, end)[0] == p[j]);
                        assert(reads(p, ast, verbose));
                        lemma_push_reads(p, concat, s, mode, i, verbose, ast, end);
                    },
                }
            }
        },
    }
}

/// The last of the flags that are found, if there are any, is not a negation.
proof fn lemma_flags_rest_reads(p: Seq<char>, i: int, items: Seq<FlagsItem>)
    requires
        0 <= i <= p.len(),
    ensures
        match flags_rest(p, i, items) {
            (end, Ok(all)) => {
                &&& negates_something(all)
                &&& p[end] == ')' ==> all.len() > 0
            },
            _ => true,
        },
    decreases p.len() - i,
{
    if i < p.len() && !ends_flags(p[i]) {
        match flags_item_kind(p[i]) {
            None => {},
            Some(kind) => {
                let item = FlagsItem { span: char_span_at(p, i), kind };
                lemma_flags_rest_reads(p, i + 1, items.push(item));
            },
        }
    }
}

/// The opening of a group, or a set of flags, stands for what is written.
proof fn lemma_open_reads(p: Seq<char>, verbose: bool, c: Cursor)
    requires
        fits(p),
        0 <= c.index < p.len(),
        p[c.index] == '(',
    ensures
        match group_open(p, verbose, c) {
            (c1, Ok(Either::Left(set))) => {
                &&& set_reads(p, set, verbose)
                &&& set.span == span_between(p, c.index, c1.index)
            },
            (c1, Ok(Either::Right(group))) => {
                let j = past(p, c.index + 1, verbose);
                &&& group.span == span_between(p, c.index, c.index + 1)
                &&& kind_reads(p, group.kind, j)
                &&& kind_end(p, group.kind, j) == c1.index
            },
            _ => true,
        },
{
    broadcast use {lemma_span_index, lemma_skip_index};

    lemma_group_open(p, verbose, c);
    lemma_group_prefixes();
    lemma_skip(p, c.at(c.index + 1), verbose);
    let j = c.at(c.index + 1).skip(p, verbose).index;
    if prefix_at(p, j, "?P<"@) {
        lemma_capture_name(p, j + 3);
        match capture_name(p, j + 3) {
            (end, Ok(x)) => {
                lemma_run_end(p, j + 4, CharSet::Name);
                assert forall|k: int| 0 <= k < x.name.len() implies capture_char(
                    #[trigger] x.name[k],
                    false,
                ) by {
                    if k > 0 {
                        assert(CharSet::Name.has(p[j + 3 + k]));
                    }
                }
                let t = seq!['?', 'P', '<'] + x.name + seq!['>'];
                assert forall|k: int| 0 <= k < 3 implies p[j + k] == "?P<"@[k] by {
                    assert(p.subrange(j, j + 3)[k] == "?P<"@[k]);
                }
                assert(p.subrange(j, j + t.len()) =~= t);
            },
            _ => {},
        }
    } else if prefix_at(p, j, "?"@) {
        assert(p.subrange(j, j + 1)[0] == '?');
        lemma_flags_read(p, j + 1);
        lemma_flags_rest_reads(p, j + 1, Seq::empty());
    } else if j < p.len() && p[j] == '?' {
        assert(p.subrange(j, j + 1) =~= "?"@);
    }
}

/// The mode in a group.
pub proof fn lemma_mode_in(kind: GroupKindView, verbose: bool)
    ensures
        verbose_in(kind, verbose) == mode_in(kind, verbose),
{
    match kind {
        GroupKindView::NonCapturing(flags) => {
            lemma_mode_after(flags.items, verbose);
        },
        _ => {},
    }
}

pub proof fn lemma_part_reads(
    p: Seq<char>,
    octal_on: bool,
    c: Cursor,
    concat: ConcatView,
    s: int,
    mode: bool,
    i: int,
    verbose: bool,
)
    requires
        fits(p),
        concat_read(p, concat, s, mode, i, verbose),
        i <= c.index < p.len(),
        c.index == past(p, i, verbose),
    ensures
        match part(p, octal_on, verbose, c, concat) {
            (c1, Part::Bar) => p[c.index] == '|' && c1.index == c.index + 1,
            (c1, Part::More(after, next)) => concat_read(p, next, s, mode, c1.index, after),
            (c1, Part::Open(group)) => {
                let j = past(p, c.index + 1, verbose);
                &&& p[c.index] == '('
                &&& group.span == span_between(p, c.index, c.index + 1)
                &&& kind_reads(p, group.kind, j)
                &&& kind_end(p, group.kind, j) == c1.index
            },
            _ => true,
        },
{
    broadcast use lemma_span_index;

    reveal(part);
    if p[c.index] == '(' {
        lemma_group_open(p, verbose, c);
        lemma_open_reads(p, verbose, c);
        match group_open(p, verbose, c) {
            (c1, Ok(Either::Left(set))) => {
                let ast = AstView::Flags(set);
                lemma_mode_after(set.flags.items, verbose);
                assert(reads(p, ast, verbose));
                lemma_push_reads(p, concat, s, mode, i, verbose, ast, c1.index);
            },
            _ => {},
        }
    } else if p[c.index] != ')' && p[c.index] != '|' {
        lemma_item_reads(p, octal_on, c, concat, s, mode, i, verbose);
    }
}

/// The rest of an expression stands for what is written.
#[verifier::rlimit(30)]
pub proof fn lemma_expr_reads(
    p: Seq<char>,
    octal_on: bool,
    verbose: bool,
    c: Cursor,
    concat: ConcatView,
    alt: Option<AlternationView>,
    s0: int,
    mode0: bool,
    s: int,
    mode: bool,
)
    requires
        fits(p),
        0 <= c.index <= p.len(),
        concat_read(p, concat, s, mode, c.index, verbose),
        alt_read(p, alt, s0, mode0, s, mode),
    ensures
        match expr(p, octal_on, verbose, c, concat, alt) {
            (c1, Ok(end)) => {
                let ast = match end {
                    ExprEnd::Eof(ast) => ast,
                    ExprEnd::Paren(ast) => ast,
                };
                &&& expr_reads(p, ast, s0, mode0)
                &&& expr_end(p, ast, s0, mode0) == c1.index
            },
            (c1, Err(e)) => true,
        },
    decreases p.len() - c.index,
{
    broadcast use {lemma_span_index, lemma_skip_index};

    let i = c.index;
    let c1 = c.skip(p, verbose);
    lemma_skip(p, c, verbose);
    lemma_finish_reads(p, concat, alt, s0, mode0, s, mode, i, verbose);
    if c1.index < p.len() {
        lemma_part(p, octal_on, verbose, c1, concat);
        lemma_part_reads(p, octal_on, c1, concat, s, mode, i, verbose);
        match part(p, octal_on, verbose, c1, concat) {
            (c2, Part::Failed(e)) => {},
            (c2, Part::Close) => {},
            (c2, Part::Bar) => {
                lemma_add_branch_reads(p, concat, alt, s0, mode0, s, mode, i, verbose);
                lemma_expr_reads(
                    p,
                    octal_on,
                    verbose,
                    c2,
                    empty_concat(p, c2.index),
                    Some(add_branch(p, c1.index, concat, alt)),
                    s0,
                    mode0,
                    c2.index,
                    verbose,
                );
            },
            (c2, Part::More(after, next)) => {
                lemma_expr_reads(p, octal_on, after, c2, next, alt, s0, mode0, s, mode);
            },
            (c2, Part::Open(group)) => {
                let inner = verbose_in(group.kind, verbose);
                let start = empty_concat(p, c2.index);
                lemma_mode_in(group.kind, verbose);
                lemma_expr(p, octal_on, inner, c2, start, None);
                lemma_expr_reads(
                    p,
                    octal_on,
                    inner,
                    c2,
                    start,
                    None,
                    c2.index,
                    inner,
                    c2.index,
                    inner,
                );
                match expr(p, octal_on, inner, c2, start, None) {
                    (c3, Ok(ExprEnd::Paren(ast))) => {
                        let whole = close_group(p, c3.index, group, ast);
                        assert(ast_span(whole) == span_between(p, c1.index, c3.index + 1));
                        assert(reads(p, whole, verbose));
                        lemma_push_reads(p, concat, s, mode, i, verbose, whole, c3.index + 1);
                        lemma_expr_reads(
                            p,
                            octal_on,
                            verbose,
                            c3.at(c3.index + 1),
                            concat_push(concat, whole),
                            alt,
                            s0,
                            mode0,
                            s,
                            mode,
                        );
                    },
                    _ => {},
                }
            },
        }
    }
}

/// The tree of a text stands for what is written, node by node: every character
/// of the text belongs to what the tree says of it, or is skipped space, which
/// there is in verbose mode only.
pub proof fn law_tree_is_what_is_written(p: Seq<char>, options: Options)
    requires
        fits(p),
    ensures
        parse(p, options) matches Ok(x) ==> {
            &&& expr_reads(p, x.ast, 0, options.ignore_space)
            &&& expr_end(p, x.ast, 0, options.ignore_space) == p.len()
        },
{
    let start = Cursor { index: 0, comments: Seq::empty() };
    let v = options.ignore_space;
    lemma_expr(p, options.octal, v, start, empty_concat(p, 0), None);
    lemma_expr_reads(p, options.octal, v, start, empty_concat(p, 0), None, 0, v, 0, v);
}

} // verus!
