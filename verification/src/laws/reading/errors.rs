//! How far a text is read where it has an error.

use vstd::prelude::*;

use crate::ast::methods::ast_span;
use crate::ast::view::{AlternationView, ConcatView, GroupKindView};
use crate::ast::{Error, ErrorKind};
use crate::grammar::expr::{
    add_branch, close_group, concat_push, empty_concat, expr, lemma_expr, lemma_part, part, syntax,
    verbose_in, ExprEnd, Part,
};
use crate::grammar::space::{lemma_skip, Cursor};
use crate::laws::reading::class_errors::{class_blamed, lemma_class_faults};
use crate::laws::reading::expr::{
    alt_read, concat_read, kind_end, kind_reads, lemma_add_branch_reads, lemma_expr_reads,
    lemma_mode_in, lemma_part_reads, lemma_push_reads, mode_in, reads,
};
use crate::laws::reading::faults::{
    count_fault, escape_fault, group_fault, lemma_count_fault, lemma_escape_fault,
    lemma_group_fault,
};
use crate::laws::reading::leaf::lemma_skip_index;
use crate::laws::reading::{lemma_span_index, past};
use crate::text::{fits, span_between};

verus! {

/// An expression that is read up to a place in it: where it starts, with the
/// mode there, its branches, where its last branch starts, with the mode there,
/// the parts of that branch, and where they end, with the mode there.
pub struct Frame {
    pub start: int,
    pub mode: bool,
    pub alt: Option<AlternationView>,
    pub from: int,
    pub from_mode: bool,
    pub concat: ConcatView,
    pub end: int,
    pub verbose: bool,
}

/// What is read stands for what is written.
pub open spec fn frame_reads(p: Seq<char>, f: Frame) -> bool {
    &&& 0 <= f.end <= p.len()
    &&& concat_read(p, f.concat, f.from, f.from_mode, f.end, f.verbose)
    &&& alt_read(p, f.alt, f.start, f.mode, f.from, f.from_mode)
}

/// The place up to which an expression is read, behind skipped space.
pub open spec fn place(p: Seq<char>, f: Frame) -> int {
    past(p, f.end, f.verbose)
}

/// At the place up to which an expression is read, a group of the given kind is
/// opened. What is in it starts at the index `start`, in the given mode.
pub open spec fn opens(
    p: Seq<char>,
    f: Frame,
    kind: GroupKindView,
    start: int,
    mode: bool,
) -> bool {
    let i = place(p, f);
    let j = past(p, i + 1, f.verbose);
    &&& i < p.len()
    &&& p[i] == '('
    &&& kind_reads(p, kind, j)
    &&& start == kind_end(p, kind, j)
    &&& mode == mode_in(kind, f.verbose)
}

/// Expressions that are read up to a place in them, each in a group of the one
/// before it, where the first is that of the whole text.
pub open spec fn stack_reads(p: Seq<char>, frames: Seq<Frame>, verbose: bool) -> bool
    decreases frames.len(),
{
    &&& frames.len() > 0
    &&& frame_reads(p, frames.last())
    &&& starts_in(p, frames.drop_last(), frames.last().start, frames.last().mode, verbose)
}

/// An expression starts at the index `start`, in the given mode: that of the
/// whole text, or that in a group which the last of the given ones opens.
pub open spec fn starts_in(
    p: Seq<char>,
    outer: Seq<Frame>,
    start: int,
    mode: bool,
    verbose: bool,
) -> bool
    decreases outer.len(),
{
    if outer.len() == 0 {
        start == 0 && mode == verbose
    } else {
        &&& frame_reads(p, outer.last())
        &&& starts_in(p, outer.drop_last(), outer.last().start, outer.last().mode, verbose)
        &&& exists|kind: GroupKindView| opens(p, outer.last(), kind, start, mode)
    }
}

/// What is wrong at the place up to which a text is read: what stands there, or
/// a `)` that closes nothing, or the end of the text in a group, whose `(` is
/// the place up to which the expression around it is read.
pub open spec fn fault(p: Seq<char>, octal_on: bool, frames: Seq<Frame>, e: Error) -> bool {
    let f = frames.last();
    let i = place(p, f);
    ||| i < p.len() && part_fault(p, octal_on, i, f.verbose, e)
    ||| {
        &&& e.kind == ErrorKind::GroupUnopened
        &&& frames.len() == 1
        &&& i < p.len()
        &&& p[i] == ')'
        &&& e.span == span_between(p, i, i + 1)
    }
    ||| {
        let open = place(p, frames.drop_last().last());
        &&& e.kind == ErrorKind::GroupUnclosed
        &&& frames.len() >= 2
        &&& i == p.len()
        &&& e.span == span_between(p, open, open + 1)
    }
}

/// What is wrong with the part of an expression at the given index.
pub open spec fn part_fault(
    p: Seq<char>,
    octal_on: bool,
    i: int,
    verbose: bool,
    e: Error,
) -> bool {
    ||| escape_fault(p, octal_on, i, verbose, e)
    ||| count_fault(p, i, e)
    ||| group_fault(p, i, verbose, e)
    ||| class_blamed(p, octal_on, i, verbose, e)
}

/// A text is read up to a place at which something is wrong.
pub open spec fn blamed(p: Seq<char>, octal_on: bool, verbose: bool, e: Error) -> bool {
    exists|frames: Seq<Frame>|
        #[trigger] stack_reads(p, frames, verbose) && fault(p, octal_on, frames, e)
}

/// An expression is read up to the given index.
spec fn reached(p: Seq<char>, start: int, mode: bool, i: int) -> bool {
    exists|f: Frame|
        #[trigger] frame_reads(p, f) && f.start == start && f.mode == mode && place(p, f) == i
}

proof fn lemma_part_fault(
    p: Seq<char>,
    octal_on: bool,
    verbose: bool,
    c: Cursor,
    concat: ConcatView,
)
    requires
        fits(p),
        0 <= c.index < p.len(),
    ensures
        match part(p, octal_on, verbose, c, concat) {
            (_, Part::Failed(e)) => part_fault(p, octal_on, c.index, verbose, e),
            _ => true,
        },
{
    reveal(part);
    let ch = p[c.index];
    if ch == '(' {
        lemma_group_fault(p, verbose, c);
    } else if ch == '{' {
        lemma_count_fault(p, c.index);
    } else if ch == '[' {
        lemma_class_faults(p, octal_on, verbose, c);
    } else if ch == '\\' {
        lemma_escape_fault(p, octal_on, verbose, c.index);
    }
}

/// The stack with one more expression.
proof fn lemma_stack_push(p: Seq<char>, outer: Seq<Frame>, f: Frame, verbose: bool)
    requires
        frame_reads(p, f),
        starts_in(p, outer, f.start, f.mode, verbose),
    ensures
        stack_reads(p, outer.push(f), verbose),
        outer.push(f).last() == f,
        outer.push(f).drop_last() == outer,
{
    assert(outer.push(f).drop_last() =~= outer);
}

#[verifier::rlimit(40)]
proof fn lemma_expr_faults(
    p: Seq<char>,
    octal_on: bool,
    verbose: bool,
    c: Cursor,
    concat: ConcatView,
    alt: Option<AlternationView>,
    s0: int,
    mode0: bool,
    s: int,
    mode: bool,
    outer: Seq<Frame>,
    first: bool,
)
    requires
        fits(p),
        0 <= c.index <= p.len(),
        concat_read(p, concat, s, mode, c.index, verbose),
        alt_read(p, alt, s0, mode0, s, mode),
        starts_in(p, outer, s0, mode0, first),
    ensures
        match expr(p, octal_on, verbose, c, concat, alt) {
            (c1, Ok(_)) => reached(p, s0, mode0, c1.index),
            (c1, Err(e)) => blamed(p, octal_on, first, e),
        },
    decreases p.len() - c.index,
{
    broadcast use {lemma_span_index, lemma_skip_index};

    let i = c.index;
    let c1 = c.skip(p, verbose);
    let f = Frame {
        start: s0,
        mode: mode0,
        alt,
        from: s,
        from_mode: mode,
        concat,
        end: i,
        verbose,
    };
    lemma_skip(p, c, verbose);
    assert(frame_reads(p, f) && place(p, f) == c1.index);
    lemma_stack_push(p, outer, f, first);
    if c1.index < p.len() {
        lemma_part(p, octal_on, verbose, c1, concat);
        lemma_part_reads(p, octal_on, c1, concat, s, mode, i, verbose);
        lemma_part_fault(p, octal_on, verbose, c1, concat);
        match part(p, octal_on, verbose, c1, concat) {
            (c2, Part::Failed(e)) => {
                assert(fault(p, octal_on, outer.push(f), e));
            },
            (c2, Part::Close) => {},
            (c2, Part::Bar) => {
                lemma_add_branch_reads(p, concat, alt, s0, mode0, s, mode, i, verbose);
                lemma_expr_faults(
                    p,
                    octal_on,
                    verbose,
                    c2,
                    empty_concat(p, c2.index),
                    Some(add_branch(p, c1.index, concat, alt)),
                    s0,
                    mode0,
                    c2.index,
                    verbose,
                    outer,
                    first,
                );
            },
            (c2, Part::More(after, next)) => {
                lemma_expr_faults(
                    p,
                    octal_on,
                    after,
                    c2,
                    next,
                    alt,
                    s0,
                    mode0,
                    s,
                    mode,
                    outer,
                    first,
                );
            },
            (c2, Part::Open(group)) => {
                let inner = verbose_in(group.kind, verbose);
                let start = empty_concat(p, c2.index);
                let frames = outer.push(f);
                lemma_mode_in(group.kind, verbose);
                lemma_expr(p, octal_on, inner, c2, start, None);
                assert(opens(p, f, group.kind, c2.index, inner));
                assert(starts_in(p, frames, c2.index, inner, first));
                lemma_expr_reads(
                    p,
                    octal_on,
                    inner,
                    c2,
                    start,
                    None,
                    c2.index,
                    inner,
                    c2.index,
                    inner,
                );
                lemma_expr_faults(
                    p,
                    octal_on,
                    inner,
                    c2,
                    start,
                    None,
                    c2.index,
                    inner,
                    c2.index,
                    inner,
                    frames,
                    first,
                );
                match expr(p, octal_on, inner, c2, start, None) {
                    (c3, Ok(ExprEnd::Paren(ast))) => {
                        let whole = close_group(p, c3.index, group, ast);
                        assert(ast_span(whole) == span_between(
                            p,
                            c1.index,
                            c3.index + 1,
                        ));
                        assert(reads(p, whole, verbose));
                        lemma_push_reads(p, concat, s, mode, i, verbose, whole, c3.index + 1);
                        lemma_expr_faults(
                            p,
                            octal_on,
                            verbose,
                            c3.at(c3.index + 1),
                            concat_push(concat, whole),
                            alt,
                            s0,
                            mode0,
                            s,
                            mode,
                            outer,
                            first,
                        );
                    },
                    (c3, Ok(ExprEnd::Eof(ast))) => {
                        let g = choose|g: Frame|
                            #[trigger] frame_reads(p, g) && g.start == c2.index && g.mode == inner
                                && place(p, g) == c3.index;
                        let e = Error { span: group.span, kind: ErrorKind::GroupUnclosed };
                        lemma_stack_push(p, frames, g, first);
                        assert(fault(p, octal_on, frames.push(g), e));
                    },
                    _ => {},
                }
            },
        }
    }
}

/// Where a text is refused, it can be read up to the place of the error, and
/// what stands there is wrong in the way that the error says.
pub proof fn law_errors_are_what_is_written(p: Seq<char>, octal_on: bool, verbose: bool)
    requires
        fits(p),
    ensures
        syntax(p, octal_on, verbose).1 matches Err(e) ==> blamed(p, octal_on, verbose, e),
{
    let start = Cursor { index: 0, comments: Seq::empty() };
    let none = Seq::<Frame>::empty();
    lemma_expr(p, octal_on, verbose, start, empty_concat(p, 0), None);
    lemma_expr_faults(
        p,
        octal_on,
        verbose,
        start,
        empty_concat(p, 0),
        None,
        0,
        verbose,
        0,
        verbose,
        none,
        verbose,
    );
    match expr(p, octal_on, verbose, start, empty_concat(p, 0), None) {
        (c, Ok(ExprEnd::Paren(_))) => {
            let f = choose|f: Frame|
                #[trigger] frame_reads(p, f) && f.start == 0 && f.mode == verbose && place(p, f)
                    == c.index;
            let e = Error {
                span: span_between(p, c.index, c.index + 1),
                kind: ErrorKind::GroupUnopened,
            };
            lemma_stack_push(p, none, f, verbose);
            assert(fault(p, octal_on, none.push(f), e));
        },
        _ => {},
    }
}

} // verus!
