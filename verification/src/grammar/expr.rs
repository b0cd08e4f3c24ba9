//! Expressions.

use either::Either;
use vstd::prelude::*;

use crate::ast::methods::{ast_span, concat_into_ast, flag_state, group_flags};
use crate::ast::view::{
    AlternationView, AstView, ClassView, ConcatView, GroupKindView, GroupView, RepetitionView,
    WithCommentsView,
};
use crate::ast::{
    Error, ErrorKind, Flag, FlagsItem, RepetitionKind, RepetitionOp, RepetitionRange, Span,
};
use crate::grammar::class::{class, lemma_class};
use crate::grammar::escape::{lemma_primitive, primitive, PrimitiveView};
use crate::grammar::group::{group_open, lemma_group_open};
use crate::grammar::nest::{ast_nodes, nest_error};
use crate::grammar::number::{decimal, lemma_decimal};
use crate::grammar::space::{lemma_skip, Cursor};
use crate::grammar::{fail, Options};
use crate::text::{char_span_at, position_at, span_at, span_between};

verus! {

/// The concatenation that starts at the given index, with nothing in it.
pub open spec fn empty_concat(p: Seq<char>, i: int) -> ConcatView {
    ConcatView { span: span_at(p, i), asts: Seq::empty() }
}

/// A concatenation with one more part.
pub open spec fn concat_push(concat: ConcatView, ast: AstView) -> ConcatView {
    ConcatView { span: concat.span, asts: concat.asts.push(ast) }
}

/// The tree of a concatenation that ends at the given index.
pub open spec fn branch(p: Seq<char>, i: int, concat: ConcatView) -> AstView {
    concat_into_ast(
        ConcatView {
            span: Span { start: concat.span.start, end: position_at(p, i) },
            asts: concat.asts,
        },
    )
}

/// The branches of an alternation that has a `|` at the given index, where
/// `alt` holds the branches before the concatenation `concat`, if any.
pub open spec fn add_branch(
    p: Seq<char>,
    i: int,
    concat: ConcatView,
    alt: Option<AlternationView>,
) -> AlternationView {
    match alt {
        None => AlternationView {
            span: Span { start: concat.span.start, end: position_at(p, i) },
            asts: seq![branch(p, i, concat)],
        },
        Some(alt) => AlternationView {
            span: alt.span,
            asts: alt.asts.push(branch(p, i, concat)),
        },
    }
}

/// The tree of an expression that ends at the given index. Its last branch is
/// `concat`, and `alt` holds the branches before it, if any.
pub open spec fn finish(
    p: Seq<char>,
    i: int,
    concat: ConcatView,
    alt: Option<AlternationView>,
) -> AstView {
    match alt {
        None => branch(p, i, concat),
        Some(alt) => AstView::Alternation(
            AlternationView {
                span: Span { start: alt.span.start, end: position_at(p, i) },
                asts: alt.asts.push(branch(p, i, concat)),
            },
        ),
    }
}

/// A primitive as a tree.
pub open spec fn into_ast(prim: PrimitiveView) -> AstView {
    match prim {
        PrimitiveView::Literal(x) => AstView::Literal(x),
        PrimitiveView::Assertion(x) => AstView::Assertion(x),
        PrimitiveView::Dot(span) => AstView::Dot(span),
        PrimitiveView::Perl(x) => AstView::Class(ClassView::Perl(x)),
        PrimitiveView::Unicode(x) => AstView::Class(ClassView::Unicode(x)),
    }
}

/// What an operator of repetition at the given index applies to: the last part
/// of the concatenation, or the empty expression if there is none.
pub open spec fn operand(p: Seq<char>, i: int, concat: ConcatView) -> AstView {
    if concat.asts.len() == 0 {
        AstView::Empty(span_at(p, i))
    } else {
        concat.asts.last()
    }
}

/// A concatenation to whose last part an operator of repetition is applied,
/// which reaches from the index `i` to the index `end`.
pub open spec fn repeat(
    p: Seq<char>,
    i: int,
    end: int,
    concat: ConcatView,
    kind: RepetitionKind,
    greedy: bool,
) -> ConcatView {
    let ast = operand(p, i, concat);
    let front = if concat.asts.len() == 0 {
        concat.asts
    } else {
        concat.asts.drop_last()
    };
    ConcatView {
        span: concat.span,
        asts: front.push(
            AstView::Repetition(
                RepetitionView {
                    span: Span { start: ast_span(ast).start, end: position_at(p, end) },
                    op: RepetitionOp { span: span_between(p, i, end), kind },
                    greedy,
                    ast: Box::new(ast),
                },
            ),
        ),
    }
}

/// A repetition operator of one character, with the `?` behind it, if any,
/// which makes it ungreedy.
pub open spec fn uncounted(p: Seq<char>, i: int, concat: ConcatView, kind: RepetitionKind) -> (
    int,
    ConcatView,
) {
    let lazy = i + 1 < p.len() && p[i + 1] == '?';
    let end = if lazy {
        i + 2
    } else {
        i + 1
    };
    (end, repeat(p, i, end, concat, kind, !lazy))
}

/// The error of a counted repetition that starts at the index `i` and is not
/// closed at the index `end`.
pub open spec fn count_unclosed<T>(p: Seq<char>, i: int, end: int) -> (int, Result<T, Error>) {
    (end, fail(span_between(p, i, end), ErrorKind::CountedRepetitionUnclosed))
}

/// The bounds of a counted repetition, from its `{` up to its `}`.
pub open spec fn range(p: Seq<char>, i: int) -> (int, Result<RepetitionRange, Error>) {
    if i + 1 >= p.len() {
        count_unclosed(p, i, i + 1)
    } else {
        match decimal(p, i + 1) {
            (j, Err(e)) => (j, Err(e)),
            (j, Ok(m)) => if j < p.len() && p[j] == '}' {
                (j, Ok(RepetitionRange::Exactly(m)))
            } else if j >= p.len() || p[j] != ',' {
                count_unclosed(p, i, j)
            } else if j + 1 >= p.len() {
                count_unclosed(p, i, j + 1)
            } else if p[j + 1] == '}' {
                (j + 1, Ok(RepetitionRange::AtLeast(m)))
            } else {
                match decimal(p, j + 1) {
                    (k, Err(e)) => (k, Err(e)),
                    (k, Ok(n)) => if k < p.len() && p[k] == '}' {
                        (k, Ok(RepetitionRange::Bounded(m, n)))
                    } else {
                        count_unclosed(p, i, k)
                    },
                }
            },
        }
    }
}

/// A counted repetition, from its `{` on, with the `?` behind it, if any,
/// which makes it ungreedy.
pub open spec fn counted(p: Seq<char>, verbose: bool, c: Cursor, concat: ConcatView) -> (
    Cursor,
    Result<ConcatView, Error>,
) {
    match range(p, c.index) {
        (j, Err(e)) => (c.at(j), Err(e)),
        (j, Ok(range)) => {
            let c1 = c.at(j + 1).skip(p, verbose);
            let lazy = c1.index < p.len() && p[c1.index] == '?';
            let c2 = if lazy {
                c1.at(c1.index + 1)
            } else {
                c1
            };
            (
                c2,
                Ok(
                    repeat(p, c.index, c2.index, concat, RepetitionKind::Range(range), !lazy),
                ),
            )
        },
    }
}

/// The operator of repetition that a character stands for.
pub open spec fn repetition_kind(c: char) -> Option<RepetitionKind> {
    match c {
        '?' => Some(RepetitionKind::ZeroOrOne),
        '*' => Some(RepetitionKind::ZeroOrMore),
        '+' => Some(RepetitionKind::OneOrMore),
        _ => None,
    }
}

/// The next part of a concatenation that is neither a group nor a set of
/// flags, or the next operator of repetition.
pub open spec fn item(
    p: Seq<char>,
    octal_on: bool,
    verbose: bool,
    c: Cursor,
    concat: ConcatView,
) -> (Cursor, Result<ConcatView, Error>) {
    let i = c.index;
    match repetition_kind(p[i]) {
        Some(kind) => {
            let (end, concat) = uncounted(p, i, concat, kind);
            (c.at(end), Ok(concat))
        },
        None => if p[i] == '{' {
            counted(p, verbose, c, concat)
        } else if p[i] == '[' {
            match class(p, octal_on, verbose, c) {
                (c1, Err(e)) => (c1, Err(e)),
                (c1, Ok(class)) => (c1, Ok(concat_push(concat, AstView::Class(class)))),
            }
        } else {
            match primitive(p, octal_on, verbose, i) {
                (end, Err(e)) => (c.at(end), Err(e)),
                (end, Ok(prim)) => (c.at(end), Ok(concat_push(concat, into_ast(prim)))),
            }
        },
    }
}

/// Whether verbose mode is on behind a sequence of flags.
pub open spec fn verbose_after(items: Seq<FlagsItem>, verbose: bool) -> bool {
    match flag_state(items, Flag::IgnoreWhitespace) {
        Some(yes) => yes,
        None => verbose,
    }
}

/// Whether verbose mode is on in a group.
pub open spec fn verbose_in(kind: GroupKindView, verbose: bool) -> bool {
    match group_flags(kind) {
        Some(items) => verbose_after(items, verbose),
        None => verbose,
    }
}

/// The group that a `)` at the given index closes.
pub open spec fn close_group(p: Seq<char>, i: int, group: GroupView, ast: AstView) -> AstView {
    AstView::Group(
        GroupView {
            span: Span { start: group.span.start, end: position_at(p, i + 1) },
            kind: group.kind,
            ast: Box::new(ast),
        },
    )
}

/// What stands at the start of the rest of an expression.
#[verifier::ext_equal]
pub enum Part {
    /// Something that is not well-formed.
    Failed(Error),
    /// A `)`.
    Close,
    /// A `|`.
    Bar,
    /// A part of a concatenation, a set of flags or an operator of repetition:
    /// whether verbose mode is on behind it, and the concatenation with it.
    More(bool, ConcatView),
    /// The opening of a group.
    Open(GroupView),
}

/// What stands at the cursor behind the parts in `concat`. The cursor is moved
/// behind it, but not behind a `)`.
#[verifier::opaque]
pub open spec fn part(
    p: Seq<char>,
    octal_on: bool,
    verbose: bool,
    c: Cursor,
    concat: ConcatView,
) -> (Cursor, Part) {
    match p[c.index] {
        ')' => (c, Part::Close),
        '|' => (c.at(c.index + 1), Part::Bar),
        '(' => match group_open(p, verbose, c) {
            (c1, Err(e)) => (c1, Part::Failed(e)),
            (c1, Ok(Either::Left(set))) => (
                c1,
                Part::More(
                    verbose_after(set.flags.items, verbose),
                    concat_push(concat, AstView::Flags(set)),
                ),
            ),
            (c1, Ok(Either::Right(group))) => (c1, Part::Open(group)),
        },
        _ => match item(p, octal_on, verbose, c, concat) {
            (c1, Err(e)) => (c1, Part::Failed(e)),
            (c1, Ok(concat)) => (c1, Part::More(verbose, concat)),
        },
    }
}

/// What an expression ends at: the end of the text, or a `)` that the
/// expression does not open.
#[verifier::ext_equal]
pub enum ExprEnd {
    Eof(AstView),
    Paren(AstView),
}

/// The rest of an expression behind the parts in `concat` and the branches in
/// `alt`, if any. The cursor is left at what the expression ends at.
pub open spec fn expr(
    p: Seq<char>,
    octal_on: bool,
    verbose: bool,
    c: Cursor,
    concat: ConcatView,
    alt: Option<AlternationView>,
) -> (Cursor, Result<ExprEnd, Error>)
    decreases p.len() - c.index,
{
    let c1 = c.skip(p, verbose);
    proof {
        lemma_skip(p, c, verbose);
        if 0 <= c1.index < p.len() {
            lemma_part(p, octal_on, verbose, c1, concat);
        }
    }
    if !(0 <= c1.index < p.len()) {
        (c1, Ok(ExprEnd::Eof(finish(p, c1.index, concat, alt))))
    } else {
        match part(p, octal_on, verbose, c1, concat) {
            (c2, Part::Failed(e)) => (c2, Err(e)),
            (c2, Part::Close) => (c2, Ok(ExprEnd::Paren(finish(p, c2.index, concat, alt)))),
            (c2, Part::Bar) => expr(
                p,
                octal_on,
                verbose,
                c2,
                empty_concat(p, c2.index),
                Some(add_branch(p, c1.index, concat, alt)),
            ),
            (c2, Part::More(verbose, concat)) => expr(p, octal_on, verbose, c2, concat, alt),
            (c2, Part::Open(group)) => match expr(
                p,
                octal_on,
                verbose_in(group.kind, verbose),
                c2,
                empty_concat(p, c2.index),
                None,
            ) {
                (c3, Err(e)) => (c3, Err(e)),
                (c3, Ok(ExprEnd::Eof(_))) => (c3, fail(group.span, ErrorKind::GroupUnclosed)),
                (c3, Ok(ExprEnd::Paren(ast))) => if c.index < c3.index < p.len() {
                    expr(
                        p,
                        octal_on,
                        verbose,
                        c3.at(c3.index + 1),
                        concat_push(concat, close_group(p, c3.index, group, ast)),
                        alt,
                    )
                } else {
                    // By `lemma_expr`, what is in the group ends behind its start.
                    arbitrary()
                },
            },
        }
    }
}

/// The tree of a whole text, or the first error in it, with the cursor at the
/// end of the text or where the error was found.
pub open spec fn syntax(p: Seq<char>, octal_on: bool, verbose: bool) -> (Cursor, Result<
    AstView,
    Error,
>) {
    let start = Cursor { index: 0, comments: Seq::empty() };
    match expr(p, octal_on, verbose, start, empty_concat(p, 0), None) {
        (c, Err(e)) => (c, Err(e)),
        (c, Ok(ExprEnd::Eof(ast))) => (c, Ok(ast)),
        (c, Ok(ExprEnd::Paren(_))) => (
            c,
            fail(char_span_at(p, c.index), ErrorKind::GroupUnopened),
        ),
    }
}

/// What a parser with the given options makes of a text: its tree, if it is
/// not too deep, and its comments.
pub open spec fn parse(p: Seq<char>, options: Options) -> Result<WithCommentsView, Error> {
    match syntax(p, options.octal, options.ignore_space) {
        (c, Err(e)) => Err(e),
        (c, Ok(ast)) => match nest_error(ast_nodes(ast, 0), options.nest_limit) {
            Err(e) => Err(e),
            Ok(_) => Ok(WithCommentsView { ast, comments: c.comments }),
        },
    }
}

/// The tree alone, without the comments.
pub open spec fn tree(r: Result<WithCommentsView, Error>) -> Result<AstView, Error> {
    match r {
        Ok(x) => Ok(x.ast),
        Err(e) => Err(e),
    }
}

/// The bounds of a counted repetition move forward in their text.
pub proof fn lemma_range(p: Seq<char>, i: int)
    requires
        0 <= i < p.len(),
    ensures
        i < range(p, i).0 <= p.len(),
        range(p, i).1 is Ok ==> range(p, i).0 < p.len() && p[range(p, i).0] == '}',
{
    if i + 1 < p.len() {
        lemma_decimal(p, i + 1);
        let j = decimal(p, i + 1).0;
        if j + 1 < p.len() {
            lemma_decimal(p, j + 1);
        }
    }
}

/// A counted repetition moves the cursor forward in its text.
pub proof fn lemma_counted(p: Seq<char>, verbose: bool, c: Cursor, concat: ConcatView)
    requires
        0 <= c.index < p.len(),
    ensures
        c.index < counted(p, verbose, c, concat).0.index <= p.len(),
{
    lemma_range(p, c.index);
    lemma_skip(p, c.at(range(p, c.index).0 + 1), verbose);
}

/// A part of a concatenation moves the cursor forward in its text.
pub proof fn lemma_item(
    p: Seq<char>,
    octal_on: bool,
    verbose: bool,
    c: Cursor,
    concat: ConcatView,
)
    requires
        0 <= c.index < p.len(),
    ensures
        c.index < item(p, octal_on, verbose, c, concat).0.index <= p.len(),
{
    if repetition_kind(p[c.index]) is None {
        if p[c.index] == '{' {
            lemma_counted(p, verbose, c, concat);
        } else if p[c.index] == '[' {
            lemma_class(p, octal_on, verbose, c);
        } else {
            lemma_primitive(p, octal_on, verbose, c.index);
        }
    }
}

/// What stands at the cursor moves it forward, unless it is a `)`.
pub proof fn lemma_part(
    p: Seq<char>,
    octal_on: bool,
    verbose: bool,
    c: Cursor,
    concat: ConcatView,
)
    requires
        0 <= c.index < p.len(),
    ensures
        ({
            let (c1, next) = part(p, octal_on, verbose, c, concat);
            &&& c1.index <= p.len()
            &&& if next is Close {
                c1 == c && p[c.index] == ')'
            } else {
                c.index < c1.index
            }
        }),
{
    reveal(part);
    if p[c.index] == '(' {
        lemma_group_open(p, verbose, c);
    } else {
        lemma_item(p, octal_on, verbose, c, concat);
    }
}

/// An expression moves the cursor forward in its text. It ends at the end of
/// the text or at a `)`.
pub proof fn lemma_expr(
    p: Seq<char>,
    octal_on: bool,
    verbose: bool,
    c: Cursor,
    concat: ConcatView,
    alt: Option<AlternationView>,
)
    requires
        0 <= c.index <= p.len(),
    ensures
        ({
            let (c1, end) = expr(p, octal_on, verbose, c, concat, alt);
            &&& c.index <= c1.index <= p.len()
            &&& match end {
                Err(_) => true,
                Ok(ExprEnd::Eof(_)) => c1.index == p.len(),
                Ok(ExprEnd::Paren(_)) => c1.index < p.len() && p[c1.index] == ')',
            }
        }),
    decreases p.len() - c.index,
{
    let c1 = c.skip(p, verbose);
    lemma_skip(p, c, verbose);
    if c1.index < p.len() {
        lemma_part(p, octal_on, verbose, c1, concat);
        match part(p, octal_on, verbose, c1, concat) {
            (c2, Part::Failed(e)) => {},
            (c2, Part::Close) => {},
            (c2, Part::Bar) => {
                lemma_expr(
                    p,
                    octal_on,
                    verbose,
                    c2,
                    empty_concat(p, c2.index),
                    Some(add_branch(p, c1.index, concat, alt)),
                );
            },
            (c2, Part::More(verbose, concat)) => {
                lemma_expr(p, octal_on, verbose, c2, concat, alt);
            },
            (c2, Part::Open(group)) => {
                let inner = verbose_in(group.kind, verbose);
                let start = empty_concat(p, c2.index);
                lemma_expr(p, octal_on, inner, c2, start, None);
                match expr(p, octal_on, inner, c2, start, None) {
                    (c3, Ok(ExprEnd::Paren(ast))) => {
                        lemma_expr(
                            p,
                            octal_on,
                            verbose,
                            c3.at(c3.index + 1),
                            concat_push(concat, close_group(p, c3.index, group, ast)),
                            alt,
                        );
                    },
                    _ => {},
                }
            },
        }
    }
}

} // verus!
