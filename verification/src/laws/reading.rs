//! How a tree is read from its text.
//!
//! The relations here say of a tree, node by node, which characters of the
//! pattern it stands for, and that nothing but skipped space stands between its
//! parts.

use vstd::prelude::*;

use crate::ast::view::{ClassUnicodeKindView, ClassUnicodeView, FlagsView};
use crate::ast::{
    Assertion, AssertionKind, ClassPerl, ClassPerlKind, ClassUnicodeOpKind, Flag, FlagsItem,
    FlagsItemKind, HexLiteralKind, Literal, LiteralKind, Position, Span, SpecialLiteralKind,
};
use crate::chars::{hex_digit, octal_digit, punct, whitespace};
use crate::text::{fits, lemma_offset_monotone, position_at, span_between};

pub mod class;
pub mod class_errors;
pub mod errors;
pub mod expr;
pub mod faults;
pub mod leaf;
pub mod notes;
pub mod remarks;

verus! {

/// The index that has the given position.
pub open spec fn index_of(p: Seq<char>, pos: Position) -> int {
    choose|i: int| 0 <= i <= p.len() && #[trigger] position_at(p, i) == pos
}

/// The index at which a span starts.
pub open spec fn lo(p: Seq<char>, span: Span) -> int {
    index_of(p, span.start)
}

/// The index at which a span ends.
pub open spec fn hi(p: Seq<char>, span: Span) -> int {
    index_of(p, span.end)
}

/// A span of the text.
pub open spec fn spans(p: Seq<char>, span: Span) -> bool {
    &&& 0 <= lo(p, span) <= hi(p, span) <= p.len()
    &&& span == span_between(p, lo(p, span), hi(p, span))
}

/// The characters that a span covers.
pub open spec fn text(p: Seq<char>, span: Span) -> Seq<char> {
    p.subrange(lo(p, span), hi(p, span))
}

/// The index behind the line of the given index.
pub open spec fn line_end(p: Seq<char>, i: int) -> int
    decreases p.len() - i,
{
    if i >= p.len() {
        i
    } else if p[i] == '\n' {
        i + 1
    } else {
        line_end(p, i + 1)
    }
}

/// The first index from `i` on that is neither white space nor in a comment,
/// which reaches from a `#` to the end of its line.
pub open spec fn blank_end(p: Seq<char>, i: int) -> int
    decreases p.len() - i,
{
    proof {
        if 0 <= i < p.len() {
            lemma_line_end(p, i + 1);
        }
    }
    if !(0 <= i < p.len()) {
        i
    } else if whitespace(p[i]) {
        blank_end(p, i + 1)
    } else if p[i] == '#' {
        blank_end(p, line_end(p, i + 1))
    } else {
        i
    }
}

/// The end of a line lies in its text.
pub proof fn lemma_line_end(p: Seq<char>, i: int)
    requires
        0 <= i <= p.len(),
    ensures
        i <= line_end(p, i) <= p.len(),
    decreases p.len() - i,
{
    if i < p.len() {
        lemma_line_end(p, i + 1);
    }
}

/// The index behind the space that is skipped at the given index, which is none
/// outside of verbose mode.
pub open spec fn past(p: Seq<char>, i: int, verbose: bool) -> int {
    if verbose {
        blank_end(p, i)
    } else {
        i
    }
}

/// The value of a digit.
pub open spec fn digit(c: char) -> int {
    if c <= '9' {
        c as int - 0x30
    } else if c <= 'F' {
        c as int - 0x41 + 10
    } else {
        c as int - 0x61 + 10
    }
}

/// The number that digits denote.
pub open spec fn value(digits: Seq<char>, radix: int) -> int
    decreases digits.len(),
{
    if digits.len() == 0 {
        0
    } else {
        value(digits.drop_last(), radix) * radix + digit(digits.last())
    }
}

/// Hexadecimal digits, at least one.
pub open spec fn hex_digits(s: Seq<char>) -> bool {
    s.len() > 0 && forall|k: int| 0 <= k < s.len() ==> hex_digit(#[trigger] s[k])
}

/// The letter of a hex literal.
pub open spec fn hex_letter(kind: HexLiteralKind) -> char {
    match kind {
        HexLiteralKind::X => 'x',
        HexLiteralKind::UnicodeShort => 'u',
        HexLiteralKind::UnicodeLong => 'U',
    }
}

/// The number of digits of a hex literal that is not in braces.
pub open spec fn hex_count(kind: HexLiteralKind) -> int {
    match kind {
        HexLiteralKind::X => 2,
        HexLiteralKind::UnicodeShort => 4,
        HexLiteralKind::UnicodeLong => 8,
    }
}

/// The letter of a special literal.
pub open spec fn special_letter(kind: SpecialLiteralKind) -> char {
    match kind {
        SpecialLiteralKind::Bell => 'a',
        SpecialLiteralKind::FormFeed => 'f',
        SpecialLiteralKind::Tab => 't',
        SpecialLiteralKind::LineFeed => 'n',
        SpecialLiteralKind::CarriageReturn => 'r',
        SpecialLiteralKind::VerticalTab => 'v',
        SpecialLiteralKind::Space => ' ',
    }
}

/// The character of a special literal.
pub open spec fn special_char(kind: SpecialLiteralKind) -> char {
    match kind {
        SpecialLiteralKind::Bell => '\x07',
        SpecialLiteralKind::FormFeed => '\x0C',
        SpecialLiteralKind::Tab => '\x09',
        SpecialLiteralKind::LineFeed => '\x0A',
        SpecialLiteralKind::CarriageReturn => '\x0D',
        SpecialLiteralKind::VerticalTab => '\x0B',
        SpecialLiteralKind::Space => '\x20',
    }
}

/// A literal stands for what is written.
pub open spec fn literal_reads(p: Seq<char>, lit: Literal, verbose: bool) -> bool {
    let t = text(p, lit.span);
    let n = t.len() as int;
    &&& spans(p, lit.span)
    &&& match lit.kind {
        LiteralKind::Verbatim => t == seq![lit.c] && lit.c != '\\',
        LiteralKind::Punctuation => t == seq!['\\', lit.c] && punct(lit.c),
        LiteralKind::Octal => {
            &&& 2 <= n <= 4
            &&& t[0] == '\\'
            &&& forall|k: int| 1 <= k < n ==> octal_digit(#[trigger] t[k])
            &&& lit.c as int == value(t.subrange(1, n), 8)
            &&& n < 4 && hi(p, lit.span) < p.len() ==> !octal_digit(p[hi(p, lit.span)])
        },
        LiteralKind::HexFixed(kind) => {
            &&& n == 2 + hex_count(kind)
            &&& t[0] == '\\'
            &&& t[1] == hex_letter(kind)
            &&& hex_digits(t.subrange(2, n))
            &&& lit.c as int == value(t.subrange(2, n), 16)
        },
        LiteralKind::HexBrace(kind) => {
            &&& n >= 5
            &&& t[0] == '\\'
            &&& t[1] == hex_letter(kind)
            &&& t[2] == '{'
            &&& t[n - 1] == '}'
            &&& hex_digits(t.subrange(3, n - 1))
            &&& lit.c as int == value(t.subrange(3, n - 1), 16)
        },
        LiteralKind::Special(kind) => {
            &&& t == seq!['\\', special_letter(kind)]
            &&& lit.c == special_char(kind)
            &&& kind is Space ==> verbose
        },
    }
}

/// How an assertion is written.
pub open spec fn assertion_text(kind: AssertionKind) -> Seq<char> {
    match kind {
        AssertionKind::StartLine => seq!['^'],
        AssertionKind::EndLine => seq!['$'],
        AssertionKind::StartText => seq!['\\', 'A'],
        AssertionKind::EndText => seq!['\\', 'z'],
        AssertionKind::WordBoundary => seq!['\\', 'b'],
        AssertionKind::NotWordBoundary => seq!['\\', 'B'],
    }
}

/// An assertion stands for what is written.
pub open spec fn assertion_reads(p: Seq<char>, x: Assertion) -> bool {
    spans(p, x.span) && text(p, x.span) == assertion_text(x.kind)
}

/// The letter of a Perl class.
pub open spec fn perl_char(kind: ClassPerlKind, negated: bool) -> char {
    match kind {
        ClassPerlKind::Digit => if negated {
            'D'
        } else {
            'd'
        },
        ClassPerlKind::Space => if negated {
            'S'
        } else {
            's'
        },
        ClassPerlKind::Word => if negated {
            'W'
        } else {
            'w'
        },
    }
}

/// A Perl class stands for what is written.
pub open spec fn perl_reads(p: Seq<char>, x: ClassPerl) -> bool {
    spans(p, x.span) && text(p, x.span) == seq!['\\', perl_char(x.kind, x.negated)]
}

/// No `!=` stands before the given index.
pub open spec fn no_not_equal(s: Seq<char>, i: int) -> bool {
    forall|k: int|
        0 <= k < i && k + 1 < s.len() ==> !(#[trigger] s[k] == '!' && s[k + 1] == '=')
}

/// The character does not occur.
pub open spec fn lacks(s: Seq<char>, c: char) -> bool {
    forall|k: int| 0 <= k < s.len() ==> #[trigger] s[k] != c
}

/// What stands between the braces of a Unicode class is what the class names.
/// The first `!=` splits it, or else the first `:`, or else the first `=`.
pub open spec fn names(kind: ClassUnicodeKindView, body: Seq<char>) -> bool {
    match kind {
        ClassUnicodeKindView::OneLetter(_) => false,
        ClassUnicodeKindView::Named(name) => {
            &&& name == body
            &&& no_not_equal(body, body.len() as int)
            &&& lacks(body, ':')
            &&& lacks(body, '=')
        },
        ClassUnicodeKindView::NamedValue { op, name, value } => match op {
            ClassUnicodeOpKind::NotEqual => {
                &&& body == name + seq!['!', '='] + value
                &&& no_not_equal(body, name.len() as int)
            },
            ClassUnicodeOpKind::Colon => {
                &&& body == name + seq![':'] + value
                &&& no_not_equal(body, body.len() as int)
                &&& lacks(name, ':')
            },
            ClassUnicodeOpKind::Equal => {
                &&& body == name + seq!['='] + value
                &&& no_not_equal(body, body.len() as int)
                &&& lacks(body, ':')
                &&& lacks(name, '=')
            },
        },
    }
}

/// A Unicode class stands for what is written: it is negated if and only if its
/// letter is a `P`.
pub open spec fn unicode_reads(p: Seq<char>, x: ClassUnicodeView) -> bool {
    let t = text(p, x.span);
    let n = t.len() as int;
    &&& spans(p, x.span)
    &&& n >= 3
    &&& t[0] == '\\'
    &&& t[1] == if x.negated {
        'P'
    } else {
        'p'
    }
    &&& match x.kind {
        ClassUnicodeKindView::OneLetter(c) => n == 3 && t[2] == c && c != '{',
        kind => {
            &&& n >= 4
            &&& t[2] == '{'
            &&& t[n - 1] == '}'
            &&& lacks(t.subrange(3, n - 1), '}')
            &&& names(kind, t.subrange(3, n - 1))
        },
    }
}

/// How an item of a sequence of flags is written.
pub open spec fn flag_char(kind: FlagsItemKind) -> char {
    match kind {
        FlagsItemKind::Negation => '-',
        FlagsItemKind::Flag(Flag::CaseInsensitive) => 'i',
        FlagsItemKind::Flag(Flag::MultiLine) => 'm',
        FlagsItemKind::Flag(Flag::DotMatchesNewLine) => 's',
        FlagsItemKind::Flag(Flag::SwapGreed) => 'U',
        FlagsItemKind::Flag(Flag::Unicode) => 'u',
        FlagsItemKind::Flag(Flag::IgnoreWhitespace) => 'x',
    }
}

/// Flags stand for what is written from the index `i` on, one character each.
pub open spec fn items_read(p: Seq<char>, items: Seq<FlagsItem>, i: int) -> bool {
    forall|k: int|
        0 <= k < items.len() ==> {
            &&& i + k < p.len()
            &&& (#[trigger] items[k]).span == span_between(p, i + k, i + k + 1)
            &&& p[i + k] == flag_char(items[k].kind)
        }
}

/// Flags stand for what is written, and cover it.
pub open spec fn flags_read(p: Seq<char>, flags: FlagsView, i: int) -> bool {
    &&& flags.span == span_between(p, i, i + flags.items.len())
    &&& items_read(p, flags.items, i)
}

/// The flag `x`.
pub open spec fn is_x(item: FlagsItem) -> bool {
    item.kind == FlagsItemKind::Flag(Flag::IgnoreWhitespace)
}

/// The flag `x` is at the index `k`, and neither that flag nor a negation stands
/// before it.
pub open spec fn turns_on(items: Seq<FlagsItem>, k: int) -> bool {
    &&& 0 <= k < items.len()
    &&& is_x(items[k])
    &&& forall|j: int|
        0 <= j < k ==> !is_x(#[trigger] items[j]) && items[j].kind != FlagsItemKind::Negation
}

/// The mode behind flags: as before if the flag `x` is not among them, and
/// otherwise on if no negation stands before it.
pub open spec fn mode_after(items: Seq<FlagsItem>, verbose: bool) -> bool {
    if forall|k: int| 0 <= k < items.len() ==> !is_x(#[trigger] items[k]) {
        verbose
    } else {
        exists|k: int| turns_on(items, k)
    }
}

/// The index of a position.
pub proof fn lemma_index(p: Seq<char>, i: int)
    requires
        fits(p),
        0 <= i <= p.len(),
    ensures
        index_of(p, position_at(p, i)) == i,
{
    let j = index_of(p, position_at(p, i));
    assert(0 <= j <= p.len() && position_at(p, j) == position_at(p, i));
    lemma_offset_monotone(p, i, p.len() as int);
    lemma_offset_monotone(p, j, p.len() as int);
    if i < j {
        lemma_offset_monotone(p, i, j);
    } else {
        lemma_offset_monotone(p, j, i);
    }
}

/// The indices of a span.
pub broadcast proof fn lemma_span_index(p: Seq<char>, i: int, j: int)
    requires
        fits(p),
        0 <= i <= j <= p.len(),
    ensures
        spans(p, #[trigger] span_between(p, i, j)),
        lo(p, span_between(p, i, j)) == i,
        hi(p, span_between(p, i, j)) == j,
        text(p, span_between(p, i, j)) == p.subrange(i, j),
{
    lemma_index(p, i);
    lemma_index(p, j);
}

} // verus!
