//! Literals, assertions and the classes that are written as an escape.

use vstd::prelude::*;

use crate::ast::view::{ClassUnicodeKindView, ClassUnicodeView};
use crate::ast::{
    Assertion, AssertionKind, ClassPerl, ClassPerlKind, ClassUnicodeOpKind, Error, ErrorKind,
    HexLiteralKind, Literal, LiteralKind, Span, SpecialLiteralKind,
};
use crate::chars::{find_char, lemma_run_end, octal_digit, punct, run_end, CharSet};
use crate::grammar::fail;
use crate::grammar::number::{number, scalar};
use crate::text::{char_span_at, position_at, span_at, span_between};

verus! {

/// An expression with no sub-expressions.
#[verifier::ext_equal]
pub enum PrimitiveView {
    Literal(Literal),
    Assertion(Assertion),
    Dot(Span),
    Perl(ClassPerl),
    Unicode(ClassUnicodeView),
}

/// The smaller of two numbers.
pub open spec fn least(a: int, b: int) -> int {
    if a <= b {
        a
    } else {
        b
    }
}

/// An octal literal, from its first digit on. It has at most three digits.
pub open spec fn octal(p: Seq<char>, i: int) -> (int, Literal) {
    let end = least(run_end(p, i, CharSet::Octal), i + 3);
    (
        end,
        Literal {
            span: span_between(p, i, end),
            kind: LiteralKind::Octal,
            c: number(p.subrange(i, end), 8) as char,
        },
    )
}

/// The kind of hex literal that a letter introduces.
pub open spec fn hex_kind(c: char) -> HexLiteralKind {
    if c == 'x' {
        HexLiteralKind::X
    } else if c == 'u' {
        HexLiteralKind::UnicodeShort
    } else {
        HexLiteralKind::UnicodeLong
    }
}

/// The digits of a hex literal that is not in braces.
pub open spec fn hex_digits(p: Seq<char>, i: int, kind: HexLiteralKind) -> (int, Result<
    Literal,
    Error,
>) {
    let last = i + kind.spec_digits();
    let end = least(run_end(p, i, CharSet::Hex), last);
    if end < last {
        if end >= p.len() {
            (end, fail(span_at(p, end), ErrorKind::EscapeUnexpectedEof))
        } else {
            (end, fail(char_span_at(p, end), ErrorKind::EscapeHexInvalidDigit { c: p[end] }))
        }
    } else {
        match scalar(number(p.subrange(i, end), 16)) {
            None => (end, fail(span_between(p, i, end), ErrorKind::EscapeHexInvalid)),
            Some(c) => (
                end,
                Ok(
                    Literal {
                        span: span_between(p, i, end),
                        kind: LiteralKind::HexFixed(kind),
                        c,
                    },
                ),
            ),
        }
    }
}

/// A hex literal in braces, from its `{` on.
pub open spec fn hex_brace(p: Seq<char>, i: int, kind: HexLiteralKind) -> (int, Result<
    Literal,
    Error,
>) {
    let end = run_end(p, i + 1, CharSet::Hex);
    if end >= p.len() {
        (end, fail(span_between(p, i, end), ErrorKind::EscapeUnexpectedEof))
    } else if p[end] != '}' {
        (end, fail(char_span_at(p, end), ErrorKind::EscapeHexInvalidDigit { c: p[end] }))
    } else if end == i + 1 {
        (end + 1, fail(span_between(p, i, end + 1), ErrorKind::EscapeHexEmpty))
    } else {
        match scalar(number(p.subrange(i + 1, end), 16)) {
            None => (end + 1, fail(span_between(p, i + 1, end), ErrorKind::EscapeHexInvalid)),
            Some(c) => (
                end + 1,
                Ok(
                    Literal {
                        span: span_between(p, i + 1, end + 1),
                        kind: LiteralKind::HexBrace(kind),
                        c,
                    },
                ),
            ),
        }
    }
}

/// A hex literal, from the letter that introduces it on.
pub open spec fn hex(p: Seq<char>, i: int) -> (int, Result<Literal, Error>) {
    if i + 1 >= p.len() {
        (i + 1, fail(span_at(p, i + 1), ErrorKind::EscapeUnexpectedEof))
    } else if p[i + 1] == '{' {
        hex_brace(p, i + 1, hex_kind(p[i]))
    } else {
        hex_digits(p, i + 1, hex_kind(p[i]))
    }
}

/// The first index from `i` on at which `!=` stands, or the end of the text.
pub open spec fn find_not_equal(s: Seq<char>, i: int) -> int
    decreases s.len() - i,
{
    if i >= s.len() || (i + 1 < s.len() && s[i] == '!' && s[i + 1] == '=') {
        i
    } else {
        find_not_equal(s, i + 1)
    }
}

/// What the text between the braces of a Unicode class names. Of the
/// operators `!=`, `:` and `=` the first that occurs splits the text, where it
/// occurs first.
pub open spec fn unicode_kind(name: Seq<char>) -> ClassUnicodeKindView {
    let ne = find_not_equal(name, 0);
    let colon = find_char(name, 0, ':');
    let eq = find_char(name, 0, '=');
    if ne < name.len() {
        ClassUnicodeKindView::NamedValue {
            op: ClassUnicodeOpKind::NotEqual,
            name: name.take(ne),
            value: name.skip(ne + 2),
        }
    } else if colon < name.len() {
        ClassUnicodeKindView::NamedValue {
            op: ClassUnicodeOpKind::Colon,
            name: name.take(colon),
            value: name.skip(colon + 1),
        }
    } else if eq < name.len() {
        ClassUnicodeKindView::NamedValue {
            op: ClassUnicodeOpKind::Equal,
            name: name.take(eq),
            value: name.skip(eq + 1),
        }
    } else {
        ClassUnicodeKindView::Named(name)
    }
}

/// A Unicode class, from its `p` or `P` on.
pub open spec fn unicode_class(p: Seq<char>, i: int) -> (int, Result<ClassUnicodeView, Error>) {
    let negated = p[i] == 'P';
    if i + 1 >= p.len() {
        (i + 1, fail(span_at(p, i + 1), ErrorKind::EscapeUnexpectedEof))
    } else if p[i + 1] == '{' {
        let end = find_char(p, i + 2, '}');
        if end >= p.len() {
            (end, fail(span_at(p, end), ErrorKind::EscapeUnexpectedEof))
        } else {
            (
                end + 1,
                Ok(
                    ClassUnicodeView {
                        span: span_between(p, i + 2, end + 1),
                        negated,
                        kind: unicode_kind(p.subrange(i + 2, end)),
                    },
                ),
            )
        }
    } else {
        (
            i + 2,
            Ok(
                ClassUnicodeView {
                    span: char_span_at(p, i + 1),
                    negated,
                    kind: ClassUnicodeKindView::OneLetter(p[i + 1]),
                },
            ),
        )
    }
}

/// The letters that name a Perl class.
pub open spec fn perl_letter(c: char) -> bool {
    c == 'd' || c == 's' || c == 'w' || c == 'D' || c == 'S' || c == 'W'
}

/// The Perl class that a letter names.
pub open spec fn perl_class(p: Seq<char>, i: int) -> ClassPerl {
    ClassPerl {
        span: char_span_at(p, i),
        kind: if p[i] == 'd' || p[i] == 'D' {
            ClassPerlKind::Digit
        } else if p[i] == 's' || p[i] == 'S' {
            ClassPerlKind::Space
        } else {
            ClassPerlKind::Word
        },
        negated: p[i] == 'D' || p[i] == 'S' || p[i] == 'W',
    }
}

/// The character that an escaped letter stands for. An escaped space is a
/// space in verbose mode only.
pub open spec fn special_literal(c: char, verbose: bool) -> Option<(SpecialLiteralKind, char)> {
    match c {
        'a' => Some((SpecialLiteralKind::Bell, '\x07')),
        'f' => Some((SpecialLiteralKind::FormFeed, '\x0C')),
        't' => Some((SpecialLiteralKind::Tab, '\t')),
        'n' => Some((SpecialLiteralKind::LineFeed, '\n')),
        'r' => Some((SpecialLiteralKind::CarriageReturn, '\r')),
        'v' => Some((SpecialLiteralKind::VerticalTab, '\x0B')),
        ' ' => if verbose {
            Some((SpecialLiteralKind::Space, ' '))
        } else {
            None
        },
        _ => None,
    }
}

/// The assertion that an escaped letter stands for.
pub open spec fn escaped_assertion(c: char) -> Option<AssertionKind> {
    match c {
        'A' => Some(AssertionKind::StartText),
        'z' => Some(AssertionKind::EndText),
        'b' => Some(AssertionKind::WordBoundary),
        'B' => Some(AssertionKind::NotWordBoundary),
        _ => None,
    }
}

/// An escape that consists of a backslash and one character.
pub open spec fn simple_escape(p: Seq<char>, i: int, verbose: bool) -> Result<
    PrimitiveView,
    Error,
> {
    let span = span_between(p, i, i + 2);
    let c = p[i + 1];
    if punct(c) {
        Ok(PrimitiveView::Literal(Literal { span, kind: LiteralKind::Punctuation, c }))
    } else {
        match special_literal(c, verbose) {
            Some((kind, c)) => Ok(
                PrimitiveView::Literal(Literal { span, kind: LiteralKind::Special(kind), c }),
            ),
            None => match escaped_assertion(c) {
                Some(kind) => Ok(PrimitiveView::Assertion(Assertion { span, kind })),
                None => fail(span, ErrorKind::EscapeUnrecognized { c }),
            },
        }
    }
}

/// An escape sequence, from its backslash on.
#[verifier::opaque]
pub open spec fn escape(p: Seq<char>, octal_on: bool, verbose: bool, i: int) -> (int, Result<
    PrimitiveView,
    Error,
>) {
    let start = position_at(p, i);
    let c = p[i + 1];
    if i + 1 >= p.len() {
        (i + 1, fail(span_between(p, i, i + 1), ErrorKind::EscapeUnexpectedEof))
    } else if '0' <= c <= '9' && !octal_on {
        (i + 1, fail(span_between(p, i, i + 2), ErrorKind::UnsupportedBackreference))
    } else if octal_digit(c) {
        let (end, lit) = octal(p, i + 1);
        (
            end,
            Ok(PrimitiveView::Literal(Literal { span: Span { start, end: lit.span.end }, ..lit })),
        )
    } else if c == 'x' || c == 'u' || c == 'U' {
        match hex(p, i + 1) {
            (end, Err(e)) => (end, Err(e)),
            (end, Ok(lit)) => (
                end,
                Ok(
                    PrimitiveView::Literal(
                        Literal { span: Span { start, end: lit.span.end }, ..lit },
                    ),
                ),
            ),
        }
    } else if c == 'p' || c == 'P' {
        match unicode_class(p, i + 1) {
            (end, Err(e)) => (end, Err(e)),
            (end, Ok(cls)) => (
                end,
                Ok(
                    PrimitiveView::Unicode(
                        ClassUnicodeView { span: Span { start, end: cls.span.end }, ..cls },
                    ),
                ),
            ),
        }
    } else if perl_letter(c) {
        let cls = perl_class(p, i + 1);
        (
            i + 2,
            Ok(PrimitiveView::Perl(ClassPerl { span: Span { start, end: cls.span.end }, ..cls })),
        )
    } else {
        (i + 2, simple_escape(p, i, verbose))
    }
}

/// A character that stands for itself.
pub open spec fn verbatim(p: Seq<char>, i: int) -> Literal {
    Literal { span: char_span_at(p, i), kind: LiteralKind::Verbatim, c: p[i] }
}

/// A primitive outside of brackets.
pub open spec fn primitive(p: Seq<char>, octal_on: bool, verbose: bool, i: int) -> (int, Result<
    PrimitiveView,
    Error,
>) {
    let span = char_span_at(p, i);
    match p[i] {
        '\\' => escape(p, octal_on, verbose, i),
        '.' => (i + 1, Ok(PrimitiveView::Dot(span))),
        '^' => (
            i + 1,
            Ok(PrimitiveView::Assertion(Assertion { span, kind: AssertionKind::StartLine })),
        ),
        '$' => (
            i + 1,
            Ok(PrimitiveView::Assertion(Assertion { span, kind: AssertionKind::EndLine })),
        ),
        _ => (i + 1, Ok(PrimitiveView::Literal(verbatim(p, i)))),
    }
}

/// A primitive in brackets.
pub open spec fn class_item(p: Seq<char>, octal_on: bool, verbose: bool, i: int) -> (int, Result<
    PrimitiveView,
    Error,
>) {
    if p[i] == '\\' {
        escape(p, octal_on, verbose, i)
    } else {
        (i + 1, Ok(PrimitiveView::Literal(verbatim(p, i))))
    }
}

/// An escape sequence is not empty and lies in its text.
pub proof fn lemma_escape(p: Seq<char>, octal_on: bool, verbose: bool, i: int)
    requires
        0 <= i < p.len(),
    ensures
        i < escape(p, octal_on, verbose, i).0 <= p.len(),
{
    reveal(escape);
    if i + 1 < p.len() {
        lemma_run_end(p, i + 1, CharSet::Octal);
        if i + 2 < p.len() {
            lemma_run_end(p, i + 2, CharSet::Hex);
            lemma_run_end(p, i + 3, CharSet::Hex);
            lemma_run_end(p, i + 3, CharSet::Except('}'));
        }
    }
}

/// A primitive is not empty and lies in its text.
pub proof fn lemma_primitive(p: Seq<char>, octal_on: bool, verbose: bool, i: int)
    requires
        0 <= i < p.len(),
    ensures
        i < primitive(p, octal_on, verbose, i).0 <= p.len(),
{
    lemma_escape(p, octal_on, verbose, i);
}

/// A primitive in brackets is not empty and lies in its text.
pub proof fn lemma_class_item(p: Seq<char>, octal_on: bool, verbose: bool, i: int)
    requires
        0 <= i < p.len(),
    ensures
        i < class_item(p, octal_on, verbose, i).0 <= p.len(),
{
    lemma_escape(p, octal_on, verbose, i);
}

} // verus!
