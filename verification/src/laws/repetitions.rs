//! Operators of repetition, as they are written.

use vstd::prelude::*;

use crate::ast::view::{AstView, ConcatView, RepetitionView};
use crate::ast::{Error, Literal, LiteralKind, RepetitionKind, RepetitionOp, RepetitionRange};
use crate::chars::{decimal_digit, hex_digit, lemma_run_end_from, run_end, whitespace, CharSet};
use crate::grammar::expr::{
    concat_push, counted, empty_concat, expr, item, part, range, repeat, syntax, ExprEnd, Part,
};
use crate::grammar::number::decimal;
use crate::grammar::space::{comments_from, lemma_skip_at_end, skip_space, Cursor};
use crate::laws::reading::expr::meta;
use crate::laws::reading::leaf::lemma_value;
use crate::laws::reading::value;
use crate::text::span_between;

verus! {

/// A character that stands for itself in either mode.
pub open spec fn stands_for_itself(c: char) -> bool {
    !meta(c) && !whitespace(c) && c != '#'
}

/// The tree of a text that is a literal of one character, and an operator of
/// repetition.
pub open spec fn repeated(
    p: Seq<char>,
    c: char,
    kind: RepetitionKind,
    greedy: bool,
) -> AstView {
    let n = p.len() as int;
    AstView::Repetition(
        RepetitionView {
            span: span_between(p, 0, n),
            op: RepetitionOp { span: span_between(p, 1, n), kind },
            greedy,
            ast: Box::new(
                AstView::Literal(
                    Literal {
                        span: span_between(p, 0, 1),
                        kind: LiteralKind::Verbatim,
                        c,
                    },
                ),
            ),
        },
    )
}

/// The operator of repetition that is the given character.
pub open spec fn is_operator(op: char, kind: RepetitionKind) -> bool {
    match kind {
        RepetitionKind::ZeroOrOne => op == '?',
        RepetitionKind::ZeroOrMore => op == '*',
        RepetitionKind::OneOrMore => op == '+',
        RepetitionKind::Range(_) => false,
    }
}

/// A `?` where the repetition is not greedy, and nothing where it is.
pub open spec fn lazy_mark(greedy: bool) -> Seq<char> {
    if greedy {
        seq![]
    } else {
        seq!['?']
    }
}

/// The text of a counted repetition: a `{`, the first number, what comes behind
/// it, and a `}`.
pub open spec fn counted_text(c: char, m: Seq<char>, rest: Seq<char>, greedy: bool) -> Seq<char> {
    seq![c, '{'] + m + rest + seq!['}'] + lazy_mark(greedy)
}

/// Decimal digits, at least one, whose number fits into 32 bits.
pub open spec fn is_number(s: Seq<char>) -> bool {
    &&& s.len() > 0
    &&& forall|k: int| 0 <= k < s.len() ==> decimal_digit(#[trigger] s[k])
    &&& 0 <= value(s, 10) <= u32::MAX
}

/// The concatenation that holds the first character of a text.
spec fn literal_first(p: Seq<char>, c: char) -> ConcatView {
    let lit = Literal { span: span_between(p, 0, 1), kind: LiteralKind::Verbatim, c };
    concat_push(empty_concat(p, 0), AstView::Literal(lit))
}

/// A sequence of one tree.
proof fn lemma_one(ast: AstView)
    ensures
        Seq::<AstView>::empty().push(ast) == seq![ast],
        seq![ast].len() == 1,
        seq![ast].last() == ast,
        seq![ast].drop_last() == Seq::<AstView>::empty(),
{
    assert(seq![ast].drop_last() =~= Seq::<AstView>::empty());
}

/// A text whose first character stands for itself and whose rest is one more
/// part.
proof fn lemma_second_part(
    p: Seq<char>,
    c: char,
    octal_on: bool,
    verbose: bool,
    ast: AstView,
)
    requires
        p.len() > 1,
        p[0] == c,
        stands_for_itself(c),
        p[1] == '?' || p[1] == '*' || p[1] == '+' || p[1] == '{',
        ({
            let start = Cursor { index: 0, comments: Seq::empty() };
            let concat = literal_first(p, c);
            let next = ConcatView { span: concat.span, asts: seq![ast] };
            item(p, octal_on, verbose, start.at(1), concat) == (
                start.at(p.len() as int),
                Ok::<ConcatView, Error>(next),
            )
        }),
    ensures
        syntax(p, octal_on, verbose).1 == Ok::<AstView, Error>(ast),
{
    let start = Cursor { index: 0, comments: Seq::empty() };
    let second = start.at(1);
    let end = start.at(p.len() as int);
    let concat = literal_first(p, c);
    let next = ConcatView { span: concat.span, asts: seq![ast] };
    assert(start.skip(p, verbose) == start) by {
        assert(skip_space(p, 0) == 0);
        assert(start.comments + comments_from(p, 0) =~= start.comments);
    }
    assert(second.skip(p, verbose) == second) by {
        assert(skip_space(p, 1) == 1);
        assert(second.comments + comments_from(p, 1) =~= second.comments);
    }
    lemma_skip_at_end(p, end, verbose);
    assert(part(p, octal_on, verbose, start, empty_concat(p, 0)) == (
        second,
        Part::More(verbose, concat),
    )) by {
        reveal(part);
    }
    assert(part(p, octal_on, verbose, second, concat) == (end, Part::More(verbose, next))) by {
        reveal(part);
    }
    assert(expr(p, octal_on, verbose, end, next, None) == (
        end,
        Ok::<ExprEnd, Error>(ExprEnd::Eof(ast)),
    ));
    assert(expr(p, octal_on, verbose, second, concat, None) == expr(
        p,
        octal_on,
        verbose,
        end,
        next,
        None,
    ));
    assert(expr(p, octal_on, verbose, start, empty_concat(p, 0), None) == expr(
        p,
        octal_on,
        verbose,
        second,
        concat,
        None,
    ));
}

/// A character followed by `?`, `*` or `+` is repeated greedily, and followed by
/// one of them and a `?` it is not.
pub proof fn law_uncounted_repetition(
    c: char,
    op: char,
    kind: RepetitionKind,
    greedy: bool,
    octal_on: bool,
    verbose: bool,
)
    requires
        stands_for_itself(c),
        is_operator(op, kind),
    ensures
        ({
            let p = seq![c, op] + lazy_mark(greedy);
            syntax(p, octal_on, verbose).1 == Ok::<AstView, Error>(repeated(p, c, kind, greedy))
        }),
{
    let p = seq![c, op] + lazy_mark(greedy);
    let start = Cursor { index: 0, comments: Seq::empty() };
    let concat = literal_first(p, c);
    let ast = repeated(p, c, kind, greedy);
    let next = item(p, octal_on, verbose, start.at(1), concat).1->Ok_0;
    lemma_one(
        AstView::Literal(
            Literal { span: span_between(p, 0, 1), kind: LiteralKind::Verbatim, c },
        ),
    );
    lemma_one(ast);
    assert(next.asts == seq![ast]);
    lemma_second_part(p, c, octal_on, verbose, ast);
}

/// Digits between two indices are a number.
proof fn lemma_digits(p: Seq<char>, i: int, s: Seq<char>)
    requires
        0 <= i,
        i + s.len() < p.len(),
        p.subrange(i, i + s.len()) == s,
        is_number(s),
        p[i + s.len()] == ',' || p[i + s.len()] == '}',
    ensures
        decimal(p, i) == (i + s.len(), Ok::<u32, Error>(value(s, 10) as u32)),
{
    let j = i + s.len();
    assert forall|k: int| i <= k < j implies CharSet::Decimal.has(#[trigger] p[k]) by {
        assert(s[k - i] == p[k]);
        assert(decimal_digit(s[k - i]));
    }
    assert(CharSet::Decimal.has(p[i]));
    assert(run_end(p, i, CharSet::Whitespace) == i);
    lemma_run_end_from(p, i, j, CharSet::Decimal);
    assert(run_end(p, j, CharSet::Decimal) == j);
    assert(run_end(p, j, CharSet::Whitespace) == j);
    assert forall|k: int| 0 <= k < s.len() implies hex_digit(#[trigger] s[k]) by {
        assert(decimal_digit(s[k]));
    }
    lemma_value(s, 10);
}

proof fn lemma_counted_text(
    p: Seq<char>,
    c: char,
    end: int,
    range_is: RepetitionRange,
    greedy: bool,
    octal_on: bool,
    verbose: bool,
)
    requires
        1 < end < p.len(),
        p[0] == c,
        stands_for_itself(c),
        p[1] == '{',
        p[end] == '}',
        range(p, 1) == (end, Ok::<RepetitionRange, Error>(range_is)),
        greedy ==> p.len() == end + 1,
        !greedy ==> p.len() == end + 2 && p[end + 1] == '?',
    ensures
        syntax(p, octal_on, verbose).1 == Ok::<AstView, Error>(
            repeated(p, c, RepetitionKind::Range(range_is), greedy),
        ),
{
    let start = Cursor { index: 0, comments: Seq::empty() };
    let concat = literal_first(p, c);
    let ast = repeated(p, c, RepetitionKind::Range(range_is), greedy);
    let behind = start.at(end + 1);
    if greedy {
        lemma_skip_at_end(p, behind, verbose);
    } else {
        assert(skip_space(p, end + 1) == end + 1);
        assert(behind.comments + comments_from(p, end + 1) =~= behind.comments);
        assert(behind.skip(p, verbose) == behind);
    }
    let kind = RepetitionKind::Range(range_is);
    assert(counted(p, verbose, start.at(1), concat) == (
        start.at(p.len() as int),
        Ok::<ConcatView, Error>(repeat(p, 1, p.len() as int, concat, kind, greedy)),
    ));
    let next = item(p, octal_on, verbose, start.at(1), concat).1->Ok_0;
    lemma_one(
        AstView::Literal(
            Literal { span: span_between(p, 0, 1), kind: LiteralKind::Verbatim, c },
        ),
    );
    lemma_one(ast);
    assert(next.asts == seq![ast]);
    lemma_second_part(p, c, octal_on, verbose, ast);
}

/// A character followed by a number in braces is repeated exactly that many
/// times. With a `,` behind the number it is repeated at least that many times,
/// and with a `,` and another number at most as many times as that says.
pub proof fn law_counted_repetition(
    c: char,
    m: Seq<char>,
    n: Seq<char>,
    greedy: bool,
    octal_on: bool,
    verbose: bool,
)
    requires
        stands_for_itself(c),
        is_number(m),
        is_number(n),
    ensures
        ({
            let p = counted_text(c, m, seq![], greedy);
            let kind = RepetitionKind::Range(RepetitionRange::Exactly(value(m, 10) as u32));
            syntax(p, octal_on, verbose).1 == Ok::<AstView, Error>(repeated(p, c, kind, greedy))
        }),
        ({
            let p = counted_text(c, m, seq![','], greedy);
            let kind = RepetitionKind::Range(RepetitionRange::AtLeast(value(m, 10) as u32));
            syntax(p, octal_on, verbose).1 == Ok::<AstView, Error>(repeated(p, c, kind, greedy))
        }),
        ({
            let p = counted_text(c, m, seq![','] + n, greedy);
            let kind = RepetitionKind::Range(
                RepetitionRange::Bounded(value(m, 10) as u32, value(n, 10) as u32),
            );
            syntax(p, octal_on, verbose).1 == Ok::<AstView, Error>(repeated(p, c, kind, greedy))
        }),
{
    let a = 2 + m.len() as int;
    let p1 = counted_text(c, m, seq![], greedy);
    assert(p1.subrange(2, a) =~= m);
    lemma_digits(p1, 2, m);
    lemma_counted_text(
        p1,
        c,
        a,
        RepetitionRange::Exactly(value(m, 10) as u32),
        greedy,
        octal_on,
        verbose,
    );
    let p2 = counted_text(c, m, seq![','], greedy);
    assert(p2.subrange(2, a) =~= m);
    lemma_digits(p2, 2, m);
    lemma_counted_text(
        p2,
        c,
        a + 1,
        RepetitionRange::AtLeast(value(m, 10) as u32),
        greedy,
        octal_on,
        verbose,
    );
    let p3 = counted_text(c, m, seq![','] + n, greedy);
    let b = a + 1 + n.len() as int;
    assert(p3.subrange(2, a) =~= m);
    assert(p3.subrange(a + 1, b) =~= n);
    assert(p3[a + 1] == n[0]);
    assert(decimal_digit(n[0]));
    lemma_digits(p3, 2, m);
    lemma_digits(p3, a + 1, n);
    lemma_counted_text(
        p3,
        c,
        b,
        RepetitionRange::Bounded(value(m, 10) as u32, value(n, 10) as u32),
        greedy,
        octal_on,
        verbose,
    );
}

} // verus!
