//! Literal characters.

use vstd::prelude::*;

use crate::ast::view::{AstView, ConcatView};
use crate::ast::{Error, Literal, LiteralKind};
use crate::chars::{hex_digit, lemma_run_end_from, octal_digit, punct, CharSet};
use crate::grammar::escape::{escape, hex_kind, PrimitiveView};
use crate::grammar::expr::{concat_push, empty_concat, expr, into_ast, part, syntax, ExprEnd, Part};
use crate::grammar::number::{number, scalar};
use crate::grammar::space::{lemma_skip_at_end, Cursor};
use crate::text::span_between;

verus! {

/// A text in which every character that has a meaning of its own is escaped.
pub open spec fn quote(s: Seq<char>) -> Seq<char>
    decreases s.len(),
{
    if s.len() == 0 {
        Seq::empty()
    } else {
        quote(s.drop_last()) + quote_char(s.last())
    }
}

/// A character, with a backslash before it where it has a meaning of its own.
pub open spec fn quote_char(c: char) -> Seq<char> {
    if punct(c) {
        seq!['\\', c]
    } else {
        seq![c]
    }
}

/// A tree that consists of the given character.
pub open spec fn is_char(ast: AstView, c: char) -> bool {
    match ast {
        AstView::Literal(lit) => lit.c == c,
        _ => false,
    }
}

/// Trees that consist of the given characters, one each.
pub open spec fn are_chars(asts: Seq<AstView>, s: Seq<char>) -> bool {
    &&& asts.len() == s.len()
    &&& forall|k: int| 0 <= k < s.len() ==> is_char(#[trigger] asts[k], s[k])
}

/// A tree that consists of the characters of a text, one behind the other.
pub open spec fn spells(ast: AstView, s: Seq<char>) -> bool {
    if s.len() == 0 {
        ast is Empty
    } else if s.len() == 1 {
        is_char(ast, s[0])
    } else {
        match ast {
            AstView::Concat(concat) => are_chars(concat.asts, s),
            _ => false,
        }
    }
}

proof fn lemma_quote_split(s: Seq<char>, k: int)
    requires
        0 <= k <= s.len(),
    ensures
        quote(s) == quote(s.take(k)) + quote(s.skip(k)),
    decreases s.len(),
{
    if k < s.len() {
        let front = s.drop_last();
        lemma_quote_split(front, k);
        assert(front.take(k) == s.take(k));
        assert(s.skip(k).drop_last() == front.skip(k));
        assert(quote(s) =~= quote(s.take(k)) + quote(s.skip(k)));
    } else {
        assert(s.take(k) == s);
        assert(quote(s.skip(k)) =~= Seq::empty());
    }
}

/// What stands in a quoted text behind its first characters.
proof fn lemma_quote_next(s: Seq<char>, k: int)
    requires
        0 <= k < s.len(),
    ensures
        ({
            let p = quote(s);
            let i = quote(s.take(k)).len() as int;
            let next = quote_char(s[k]);
            &&& quote(s.take(k + 1)).len() == i + next.len()
            &&& i + next.len() <= p.len()
            &&& p.subrange(i, i + next.len()) == next
        }),
{
    lemma_quote_split(s, k);
    lemma_quote_split(s, k + 1);
    let upto = s.take(k + 1);
    assert(upto.drop_last() == s.take(k));
    assert(upto.last() == s[k]);
    let i = quote(s.take(k)).len() as int;
    let next = quote_char(s[k]);
    assert(quote(s).subrange(i, i + next.len()) =~= next);
}

/// A quoted character is read as the character.
proof fn lemma_quoted_char(
    p: Seq<char>,
    octal_on: bool,
    c: Cursor,
    concat: ConcatView,
    ch: char,
)
    requires
        0 <= c.index,
        c.index + quote_char(ch).len() <= p.len(),
        p.subrange(c.index, c.index + quote_char(ch).len()) == quote_char(ch),
    ensures
        match part(p, octal_on, false, c, concat) {
            (c1, Part::More(verbose, next)) => {
                &&& !verbose
                &&& c1 == c.at(c.index + quote_char(ch).len())
                &&& next.span == concat.span
                &&& next.asts.len() == concat.asts.len() + 1
                &&& next.asts.drop_last() == concat.asts
                &&& is_char(next.asts.last(), ch)
            },
            _ => false,
        },
{
    reveal(part);
    reveal(escape);
    let i = c.index;
    let quoted = p.subrange(i, i + quote_char(ch).len());
    assert(p[i] == quoted[0]);
    if punct(ch) {
        assert(p[i + 1] == quoted[1]);
    }
    match part(p, octal_on, false, c, concat) {
        (c1, Part::More(verbose, next)) => {
            assert(next.asts.drop_last() =~= concat.asts);
        },
        _ => {},
    }
}

proof fn lemma_quoted_rest(
    s: Seq<char>,
    octal_on: bool,
    c: Cursor,
    concat: ConcatView,
    k: int,
)
    requires
        0 <= k <= s.len(),
        c.index == quote(s.take(k)).len(),
        are_chars(concat.asts, s.take(k)),
    ensures
        match expr(quote(s), octal_on, false, c, concat, None) {
            (c1, Ok(ExprEnd::Eof(ast))) => spells(ast, s),
            _ => false,
        },
    decreases s.len() - k,
{
    let p = quote(s);
    if k < s.len() {
        lemma_quote_next(s, k);
        lemma_quoted_char(p, octal_on, c, concat, s[k]);
        match part(p, octal_on, false, c, concat) {
            (c1, Part::More(verbose, next)) => {
                assert forall|j: int| 0 <= j < s.take(k + 1).len() implies is_char(
                    #[trigger] next.asts[j],
                    s.take(k + 1)[j],
                ) by {
                    if j < k {
                        assert(next.asts[j] == next.asts.drop_last()[j]);
                        assert(is_char(concat.asts[j], s.take(k)[j]));
                    }
                }
                lemma_quoted_rest(s, octal_on, c1, next, k + 1);
            },
            _ => {},
        }
    } else {
        assert(s.take(k) == s);
        if s.len() > 0 {
            assert(is_char(concat.asts[0], s[0]));
        }
    }
}

/// Every text can be written as a pattern: a text in which every character with
/// a meaning of its own is escaped is read, outside of verbose mode, as the
/// characters of the text.
pub proof fn law_quoted_text_is_literal(s: Seq<char>, octal_on: bool)
    ensures
        match syntax(quote(s), octal_on, false).1 {
            Ok(ast) => spells(ast, s),
            Err(_) => false,
        },
{
    assert(s.take(0) =~= Seq::empty());
    lemma_quoted_rest(
        s,
        octal_on,
        Cursor { index: 0, comments: Seq::empty() },
        empty_concat(quote(s), 0),
        0,
    );
}

/// A text that is one escape sequence is read as what that stands for.
pub proof fn lemma_single_escape(p: Seq<char>, octal_on: bool, verbose: bool, prim: PrimitiveView)
    requires
        p.len() > 0,
        p[0] == '\\',
        escape(p, octal_on, verbose, 0) == (p.len() as int, Ok::<PrimitiveView, Error>(prim)),
    ensures
        syntax(p, octal_on, verbose).1 == Ok::<AstView, Error>(into_ast(prim)),
{
    reveal(part);
    reveal_with_fuel(expr, 2);
    let start = Cursor { index: 0, comments: Seq::empty() };
    let end = start.at(p.len() as int);
    assert(start.skip(p, verbose) == start);
    lemma_skip_at_end(p, end, verbose);
    let concat = empty_concat(p, 0);
    assert(concat_push(concat, into_ast(prim)).asts =~= seq![into_ast(prim)]);
}

/// A backslash and one to three octal digits stand for the character with that
/// number, where octal literals are supported.
pub proof fn law_octal_literal(digits: Seq<char>, verbose: bool)
    requires
        1 <= digits.len() <= 3,
        forall|k: int| 0 <= k < digits.len() ==> octal_digit(#[trigger] digits[k]),
    ensures
        ({
            let p = seq!['\\'] + digits;
            syntax(p, true, verbose).1 == Ok::<AstView, Error>(
                AstView::Literal(
                    Literal {
                        span: span_between(p, 0, p.len() as int),
                        kind: LiteralKind::Octal,
                        c: number(digits, 8) as char,
                    },
                ),
            )
        }),
{
    reveal(escape);
    let p = seq!['\\'] + digits;
    let n = p.len() as int;
    assert forall|k: int| 1 <= k < n implies CharSet::Octal.has(#[trigger] p[k]) by {
        assert(p[k] == digits[k - 1]);
    }
    lemma_run_end_from(p, 1, n, CharSet::Octal);
    assert(p.subrange(1, n) =~= digits);
    assert(octal_digit(p[1]));
    let lit = Literal {
        span: span_between(p, 0, n),
        kind: LiteralKind::Octal,
        c: number(digits, 8) as char,
    };
    lemma_single_escape(p, true, verbose, PrimitiveView::Literal(lit));
}

/// The letter `x`, `u` or `U` and two, four or eight hexadecimal digits stand
/// for the character with that number, if there is one.
pub proof fn law_hex_literal(letter: char, digits: Seq<char>, octal_on: bool, verbose: bool)
    requires
        letter == 'x' || letter == 'u' || letter == 'U',
        digits.len() == hex_kind(letter).spec_digits(),
        forall|k: int| 0 <= k < digits.len() ==> hex_digit(#[trigger] digits[k]),
        scalar(number(digits, 16)) is Some,
    ensures
        ({
            let p = seq!['\\', letter] + digits;
            syntax(p, octal_on, verbose).1 == Ok::<AstView, Error>(
                AstView::Literal(
                    Literal {
                        span: span_between(p, 0, p.len() as int),
                        kind: LiteralKind::HexFixed(hex_kind(letter)),
                        c: scalar(number(digits, 16))->0,
                    },
                ),
            )
        }),
{
    reveal(escape);
    let p = seq!['\\', letter] + digits;
    let n = p.len() as int;
    assert forall|k: int| 2 <= k < n implies CharSet::Hex.has(#[trigger] p[k]) by {
        assert(p[k] == digits[k - 2]);
    }
    lemma_run_end_from(p, 2, n, CharSet::Hex);
    assert(p.subrange(2, n) =~= digits);
    assert(hex_digit(p[2]));
    let lit = Literal {
        span: span_between(p, 0, n),
        kind: LiteralKind::HexFixed(hex_kind(letter)),
        c: scalar(number(digits, 16))->0,
    };
    lemma_single_escape(p, octal_on, verbose, PrimitiveView::Literal(lit));
}

/// The letter `x`, `u` or `U` and any hexadecimal digits in braces stand for the
/// character with that number, if there is one.
pub proof fn law_hex_brace_literal(letter: char, digits: Seq<char>, octal_on: bool, verbose: bool)
    requires
        letter == 'x' || letter == 'u' || letter == 'U',
        digits.len() > 0,
        forall|k: int| 0 <= k < digits.len() ==> hex_digit(#[trigger] digits[k]),
        scalar(number(digits, 16)) is Some,
    ensures
        ({
            let p = seq!['\\', letter, '{'] + digits + seq!['}'];
            syntax(p, octal_on, verbose).1 == Ok::<AstView, Error>(
                AstView::Literal(
                    Literal {
                        span: span_between(p, 0, p.len() as int),
                        kind: LiteralKind::HexBrace(hex_kind(letter)),
                        c: scalar(number(digits, 16))->0,
                    },
                ),
            )
        }),
{
    reveal(escape);
    let p = seq!['\\', letter, '{'] + digits + seq!['}'];
    let n = p.len() as int;
    assert forall|k: int| 3 <= k < n - 1 implies CharSet::Hex.has(#[trigger] p[k]) by {
        assert(p[k] == digits[k - 3]);
    }
    lemma_run_end_from(p, 3, n - 1, CharSet::Hex);
    assert(p[n - 1] == '}');
    assert(p.subrange(3, n - 1) =~= digits);
    let lit = Literal {
        span: span_between(p, 0, n),
        kind: LiteralKind::HexBrace(hex_kind(letter)),
        c: scalar(number(digits, 16))->0,
    };
    lemma_single_escape(p, octal_on, verbose, PrimitiveView::Literal(lit));
}

} // verus!
