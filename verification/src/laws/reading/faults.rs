//! What is wrong where an error is found.

use vstd::prelude::*;

use crate::ast::methods::{find_item, lemma_find_item};
use crate::ast::view::FlagsView;
use crate::ast::{Error, ErrorKind, FlagsItem, FlagsItemKind};
use crate::chars::{
    capture_char, decimal_digit, find_char, hex_digit, lemma_run_end, octal_digit, punct, run_end,
    whitespace, CharSet,
};
use crate::grammar::escape::{escape, hex, least};
use crate::grammar::expr::range;
use crate::grammar::group::{
    ends_flags, flags, flags_item_kind, flags_rest, group_open, lemma_capture_name,
    lemma_group_prefixes, lookaround_end, name_end,
};
use crate::grammar::number::{decimal, lemma_decimal};
use crate::grammar::space::{lemma_skip, Cursor};
use crate::laws::reading::class::stands_at;
use crate::laws::reading::expr::{count_at, lemma_count_at};
use crate::laws::reading::leaf::{lemma_skip_index, lemma_value};
use crate::laws::reading::{flag_char, items_read, past, value};
use crate::text::{char_span_at, fits, prefix_at, span_between};

verus! {

/// A letter that introduces a hex literal.
pub open spec fn hex_intro(c: char) -> bool {
    c == 'x' || c == 'u' || c == 'U'
}

/// The number of digits that a hex literal has behind its letter, without braces.
pub open spec fn hex_len(c: char) -> int {
    if c == 'x' {
        2
    } else if c == 'u' {
        4
    } else {
        8
    }
}

/// Hexadecimal digits stand between two indices.
pub open spec fn hex_between(p: Seq<char>, i: int, j: int) -> bool {
    &&& i <= j <= p.len()
    &&& forall|k: int| i <= k < j ==> hex_digit(#[trigger] p[k])
}

/// A letter that has a meaning behind a backslash.
pub open spec fn escapable(c: char, octal_on: bool, verbose: bool) -> bool {
    ||| punct(c)
    ||| c == 'd' || c == 'D' || c == 's' || c == 'S' || c == 'w' || c == 'W'
    ||| c == 'p' || c == 'P' || c == 'x' || c == 'u' || c == 'U'
    ||| c == 'a' || c == 'f' || c == 't' || c == 'n' || c == 'r' || c == 'v'
    ||| c == 'A' || c == 'z' || c == 'b' || c == 'B'
    ||| c == ' ' && verbose
    ||| octal_digit(c) && octal_on
}

/// The number of a Unicode scalar value.
pub open spec fn is_scalar(n: int) -> bool {
    0 <= n < 0xD800 || 0xE000 <= n <= 0x10FFFF
}

/// The text ends in the middle of the escape sequence at the given index.
pub open spec fn escape_cut_off(p: Seq<char>, i: int, e: Error) -> bool {
    let n = p.len() as int;
    let end = span_between(p, n, n);
    let c = p[i + 1];
    ||| i + 1 == n && e.span == span_between(p, i, n)
    ||| i + 2 == n && (hex_intro(c) || c == 'p' || c == 'P') && e.span == end
    ||| {
        &&& i + 2 < n
        &&& hex_intro(c)
        &&& p[i + 2] == '{'
        &&& hex_between(p, i + 3, n)
        &&& e.span == span_between(p, i + 2, n)
    }
    ||| {
        &&& i + 2 < n
        &&& hex_intro(c)
        &&& hex_between(p, i + 2, n)
        &&& n - i - 2 < hex_len(c)
        &&& e.span == end
    }
    ||| {
        &&& i + 2 < n
        &&& c == 'p' || c == 'P'
        &&& p[i + 2] == '{'
        &&& forall|k: int| i + 3 <= k < n ==> #[trigger] p[k] != '}'
        &&& e.span == end
    }
}

/// The hex literal at the given index has a digit that is none, at the index
/// `j`.
pub open spec fn bad_hex_digit(p: Seq<char>, i: int, j: int) -> bool {
    &&& i + 2 <= j < p.len()
    &&& hex_intro(p[i + 1])
    &&& !hex_digit(p[j])
    &&& if p[i + 2] == '{' {
        i + 2 < j && hex_between(p, i + 3, j) && p[j] != '}'
    } else {
        hex_between(p, i + 2, j) && j - i - 2 < hex_len(p[i + 1])
    }
}

/// The hex literal at the given index has digits from `a` to `b`.
pub open spec fn hex_number(p: Seq<char>, i: int, a: int, b: int) -> bool {
    &&& i + 2 <= a < b <= p.len()
    &&& hex_intro(p[i + 1])
    &&& hex_between(p, a, b)
    &&& if p[i + 2] == '{' {
        a == i + 3 && b < p.len() && p[b] == '}'
    } else {
        a == i + 2 && b - a == hex_len(p[i + 1])
    }
}

/// What is wrong with the escape sequence at the given index.
pub open spec fn escape_fault(
    p: Seq<char>,
    octal_on: bool,
    i: int,
    verbose: bool,
    e: Error,
) -> bool {
    let c = p[i + 1];
    &&& 0 <= i < p.len()
    &&& p[i] == '\\'
    &&& match e.kind {
        ErrorKind::EscapeUnexpectedEof => escape_cut_off(p, i, e),
        ErrorKind::EscapeUnrecognized { c: found } => {
            &&& i + 1 < p.len()
            &&& found == c
            &&& !escapable(c, octal_on, verbose)
            &&& decimal_digit(c) ==> octal_on
            &&& e.span == span_between(p, i, i + 2)
        },
        ErrorKind::UnsupportedBackreference => {
            &&& i + 1 < p.len()
            &&& decimal_digit(c)
            &&& !octal_on
            &&& e.span == span_between(p, i, i + 2)
        },
        ErrorKind::EscapeHexEmpty => {
            &&& i + 3 < p.len()
            &&& hex_intro(c)
            &&& p[i + 2] == '{'
            &&& p[i + 3] == '}'
            &&& e.span == span_between(p, i + 2, i + 4)
        },
        ErrorKind::EscapeHexInvalid => exists|a: int, b: int|
            #[trigger] hex_number(p, i, a, b) && !is_scalar(value(p.subrange(a, b), 16)) && e.span
                == span_between(p, a, b),
        ErrorKind::EscapeHexInvalidDigit { c: found } => exists|j: int|
            #[trigger] bad_hex_digit(p, i, j) && found == p[j] && e.span == span_between(
                p,
                j,
                j + 1,
            ),
        _ => false,
    }
}

proof fn lemma_hex_fault(p: Seq<char>, octal_on: bool, i: int, verbose: bool)
    requires
        0 <= i,
        i + 1 < p.len(),
        p[i] == '\\',
        hex_intro(p[i + 1]),
    ensures
        match hex(p, i + 1) {
            (_, Err(e)) => escape_fault(p, octal_on, i, verbose, e),
            _ => true,
        },
{
    if i + 2 < p.len() {
        let from = if p[i + 2] == '{' {
            i + 3
        } else {
            i + 2
        };
        let run = run_end(p, from, CharSet::Hex);
        lemma_run_end(p, from, CharSet::Hex);
        assert forall|k: int| from <= k < run implies hex_digit(#[trigger] p[k]) by {
            assert(CharSet::Hex.has(p[k]));
        }
        let end = if p[i + 2] == '{' {
            run
        } else {
            least(run, i + 2 + hex_len(p[i + 1]))
        };
        let digits = p.subrange(from, end);
        assert forall|k: int| 0 <= k < digits.len() implies hex_digit(#[trigger] digits[k]) by {
            assert(hex_digit(p[from + k]));
        }
        lemma_value(digits, 16);
        match hex(p, i + 1) {
            (_, Err(e)) => {
                match e.kind {
                    ErrorKind::EscapeHexInvalidDigit { c } => {
                        assert(bad_hex_digit(p, i, end));
                    },
                    ErrorKind::EscapeHexInvalid => {
                        assert(hex_number(p, i, from, end));
                    },
                    _ => {},
                }
            },
            _ => {},
        }
    }
}

/// An escape sequence that is refused has something wrong.
pub proof fn lemma_escape_fault(p: Seq<char>, octal_on: bool, verbose: bool, i: int)
    requires
        0 <= i < p.len(),
        p[i] == '\\',
    ensures
        match escape(p, octal_on, verbose, i) {
            (_, Err(e)) => escape_fault(p, octal_on, i, verbose, e),
            _ => true,
        },
{
    reveal(escape);
    if i + 1 < p.len() {
        let c = p[i + 1];
        if hex_intro(c) {
            lemma_hex_fault(p, octal_on, i, verbose);
        } else if c == 'p' || c == 'P' {
            if i + 2 < p.len() {
                lemma_run_end(p, i + 3, CharSet::Except('}'));
                assert forall|k: int| i + 3 <= k < find_char(p, i + 3, '}') implies #[trigger] p[k]
                    != '}' by {
                    assert(CharSet::Except('}').has(p[k]));
                }
            }
        }
    }
}

/// A number is to start at the index `a`, behind white space, in the counted
/// repetition at the index `i`: it is the first, or the second, behind a `,`.
pub open spec fn number_due(p: Seq<char>, i: int, j: int, a: int) -> bool {
    &&& i < j <= a <= p.len()
    &&& j < p.len()
    &&& j == i + 1 || p[j - 1] == ',' && p[j] != '}' && exists|m: u32|
        #[trigger] count_at(p, i + 1, j - 1, m)
    &&& forall|k: int| j <= k < a ==> whitespace(#[trigger] p[k])
}

/// Decimal digits stand between two indices, and no digit behind them.
pub open spec fn digits_between(p: Seq<char>, a: int, b: int) -> bool {
    &&& a < b <= p.len()
    &&& forall|k: int| a <= k < b ==> decimal_digit(#[trigger] p[k])
    &&& b < p.len() ==> !decimal_digit(p[b])
}

/// The counted repetition at the index `i` is not closed at the index `j`.
pub open spec fn count_open(p: Seq<char>, i: int, j: int) -> bool {
    ||| j == i + 1 && j == p.len()
    ||| (exists|m: u32| #[trigger] count_at(p, i + 1, j, m)) && (j == p.len() || p[j] != '}'
        && p[j] != ',')
    ||| j == p.len() && p[j - 1] == ',' && exists|m: u32| #[trigger] count_at(p, i + 1, j - 1, m)
    ||| (j == p.len() || p[j] != '}') && exists|k: int, n: u32|
        {
            &&& i < k < j
            &&& p[k] == ','
            &&& exists|m: u32| #[trigger] count_at(p, i + 1, k, m)
            &&& #[trigger] count_at(p, k + 1, j, n)
        }
}

/// What is wrong with the counted repetition at the given index.
pub open spec fn count_fault(p: Seq<char>, i: int, e: Error) -> bool {
    &&& 0 <= i < p.len()
    &&& p[i] == '{'
    &&& match e.kind {
        ErrorKind::DecimalEmpty => exists|j: int, a: int|
            {
                &&& #[trigger] number_due(p, i, j, a)
                &&& a < p.len() ==> !decimal_digit(p[a]) && !whitespace(p[a])
                &&& e.span == span_between(p, a, a)
            },
        ErrorKind::DecimalInvalid => exists|j: int, a: int, b: int|
            {
                &&& #[trigger] number_due(p, i, j, a)
                &&& #[trigger] digits_between(p, a, b)
                &&& value(p.subrange(a, b), 10) > u32::MAX
                &&& e.span == span_between(p, a, b)
            },
        ErrorKind::CountedRepetitionUnclosed => exists|j: int|
            #[trigger] count_open(p, i, j) && e.span == span_between(p, i, j),
        _ => false,
    }
}

proof fn lemma_decimal_fault(p: Seq<char>, i: int, j: int)
    requires
        0 <= i < j < p.len(),
        p[i] == '{',
        j == i + 1 || p[j - 1] == ',' && p[j] != '}' && exists|m: u32|
            #[trigger] count_at(p, i + 1, j - 1, m),
    ensures
        match decimal(p, j) {
            (_, Err(e)) => count_fault(p, i, e),
            _ => true,
        },
{
    let a = run_end(p, j, CharSet::Whitespace);
    let b = run_end(p, a, CharSet::Decimal);
    lemma_run_end(p, j, CharSet::Whitespace);
    lemma_run_end(p, a, CharSet::Decimal);
    assert forall|k: int| j <= k < a implies whitespace(#[trigger] p[k]) by {
        assert(CharSet::Whitespace.has(p[k]));
    }
    assert forall|k: int| a <= k < b implies decimal_digit(#[trigger] p[k]) by {
        assert(CharSet::Decimal.has(p[k]));
    }
    let digits = p.subrange(a, b);
    assert forall|k: int| 0 <= k < digits.len() implies hex_digit(#[trigger] digits[k]) by {
        assert(decimal_digit(p[a + k]));
    }
    lemma_value(digits, 10);
    assert(number_due(p, i, j, a));
    if a < b {
        assert(digits_between(p, a, b));
    }
}

/// A counted repetition that is refused has something wrong.
pub proof fn lemma_count_fault(p: Seq<char>, i: int)
    requires
        0 <= i < p.len(),
        p[i] == '{',
    ensures
        match range(p, i) {
            (_, Err(e)) => count_fault(p, i, e),
            _ => true,
        },
{
    if i + 1 >= p.len() {
        assert(count_open(p, i, i + 1));
    } else {
        lemma_decimal(p, i + 1);
        lemma_decimal_fault(p, i, i + 1);
        lemma_count_at(p, i + 1);
        match decimal(p, i + 1) {
            (j, Ok(m)) => {
                assert(count_at(p, i + 1, j, m));
                if j >= p.len() || (p[j] != '}' && p[j] != ',') {
                    assert(count_open(p, i, j));
                } else if p[j] == ',' {
                    assert(count_at(p, i + 1, (j + 1) - 1, m));
                    if j + 1 >= p.len() {
                        assert(count_open(p, i, j + 1));
                    } else if p[j + 1] != '}' {
                        lemma_decimal(p, j + 1);
                        lemma_decimal_fault(p, i, j + 1);
                        lemma_count_at(p, j + 1);
                        match decimal(p, j + 1) {
                            (k, Ok(n)) => {
                                assert(count_at(p, j + 1, k, n));
                                if k >= p.len() || p[k] != '}' {
                                    assert(count_open(p, i, k));
                                }
                            },
                            _ => {},
                        }
                    }
                }
            },
            _ => {},
        }
    }
}

/// How look-around assertions are written behind their `(`.
pub open spec fn lookaround_text(k: int) -> Seq<char> {
    if k == 0 {
        seq!['?', '=']
    } else if k == 1 {
        seq!['?', '!']
    } else if k == 2 {
        seq!['?', '<', '=']
    } else {
        seq!['?', '<', '!']
    }
}

/// The opening of a capture group with a name.
pub open spec fn names_group(p: Seq<char>, i: int) -> bool {
    stands_at(p, i, seq!['?', 'P', '<'])
}

/// The characters of a name stand between two indices, and none of them behind.
pub open spec fn name_between(p: Seq<char>, i: int, j: int) -> bool {
    &&& i <= j <= p.len()
    &&& forall|k: int| i <= k < j ==> capture_char(#[trigger] p[k], k == i)
    &&& j < p.len() ==> !capture_char(p[j], j == i)
}

/// A character that can stand among flags.
pub open spec fn is_flag_char(c: char) -> bool {
    c == '-' || c == 'i' || c == 'm' || c == 's' || c == 'U' || c == 'u' || c == 'x'
}

/// What is wrong behind the given flags, which start at the index `i`.
pub open spec fn flags_fault(p: Seq<char>, i: int, items: Seq<FlagsItem>, e: Error) -> bool {
    let j = i + items.len();
    &&& items_read(p, items, i)
    &&& j <= p.len()
    &&& match e.kind {
        ErrorKind::FlagUnexpectedEof => j == p.len() && e.span == span_between(p, j, j),
        ErrorKind::FlagUnrecognized { flag } => {
            &&& j < p.len()
            &&& flag == p[j]
            &&& !is_flag_char(flag) && flag != ':' && flag != ')'
            &&& e.span == span_between(p, j, j + 1)
        },
        ErrorKind::FlagDuplicate { flag, original } => {
            &&& j < p.len()
            &&& flag == p[j]
            &&& flag != '-'
            &&& exists|k: int|
                0 <= k < items.len() && (#[trigger] items[k]).span == original && flag_char(
                    items[k].kind,
                ) == flag
            &&& e.span == span_between(p, j, j + 1)
        },
        ErrorKind::FlagRepeatedNegation { original } => {
            &&& j < p.len()
            &&& p[j] == '-'
            &&& exists|k: int|
                0 <= k < items.len() && (#[trigger] items[k]).span == original && items[k].kind
                    == FlagsItemKind::Negation
            &&& e.span == span_between(p, j, j + 1)
        },
        ErrorKind::FlagDanglingNegation => {
            &&& j < p.len()
            &&& p[j] == ':' || p[j] == ')'
            &&& items.len() > 0
            &&& items.last().kind == FlagsItemKind::Negation
            &&& e.span == items.last().span
        },
        ErrorKind::FlagMissing => {
            &&& j < p.len()
            &&& p[j] == ')'
            &&& items.len() == 0
            &&& e.span == span_between(p, j, j)
        },
        _ => false,
    }
}

/// Something is wrong with the flags that start at the index `i`.
pub open spec fn flags_blamed(p: Seq<char>, i: int, e: Error) -> bool {
    exists|items: Seq<FlagsItem>| flags_fault(p, i, items, e)
}

/// The character `c` stands where the name that starts at the index `i` goes on
/// or is to be closed.
pub open spec fn name_blamed(p: Seq<char>, i: int, c: char, e: Error) -> bool {
    exists|k: int|
        {
            &&& #[trigger] name_between(p, i, k)
            &&& k < p.len()
            &&& c == p[k]
            &&& c != '>'
            &&& e.span == span_between(p, k, k + 1)
        }
}

/// What is wrong with the opening of the group at the given index.
pub open spec fn group_fault(p: Seq<char>, i: int, verbose: bool, e: Error) -> bool {
    let j = past(p, i + 1, verbose);
    &&& 0 <= i < p.len()
    &&& p[i] == '('
    &&& match e.kind {
        ErrorKind::UnsupportedLookAround => exists|k: int|
            #[trigger] stands_at(p, j, lookaround_text(k)) && e.span == span_between(
                p,
                i,
                j + lookaround_text(k).len(),
            ),
        ErrorKind::GroupNameEmpty => {
            &&& names_group(p, j)
            &&& j + 3 < p.len()
            &&& p[j + 3] == '>'
            &&& e.span == span_between(p, j + 3, j + 3)
        },
        ErrorKind::GroupNameUnexpectedEof => {
            &&& names_group(p, j)
            &&& name_between(p, j + 3, p.len() as int)
            &&& e.span == span_between(p, p.len() as int, p.len() as int)
        },
        ErrorKind::GroupNameInvalid { c } => {
            names_group(p, j) && name_blamed(p, j + 3, c, e)
        },
        _ => {
            &&& j < p.len()
            &&& p[j] == '?'
            &&& !names_group(p, j)
            &&& forall|k: int| !(#[trigger] stands_at(p, j, lookaround_text(k)))
            &&& flags_blamed(p, j + 1, e)
        },
    }
}

proof fn lemma_flags_fault(p: Seq<char>, i: int, items: Seq<FlagsItem>)
    requires
        fits(p),
        0 <= i,
        i + items.len() <= p.len(),
        items_read(p, items, i),
    ensures
        match flags_rest(p, i + items.len(), items) {
            (_, Err(e)) => flags_blamed(p, i, e),
            _ => true,
        },
    decreases p.len() - i - items.len(),
{
    let j = i + items.len();
    match flags_rest(p, j, items) {
        (_, Err(e)) => {
            if j < p.len() && !ends_flags(p[j]) && flags_item_kind(p[j]) is Some {
                let kind = flags_item_kind(p[j])->0;
                lemma_find_item(items, kind);
                if find_item(items, kind) is None {
                    let item = FlagsItem { span: char_span_at(p, j), kind };
                    let next = items.push(item);
                    assert forall|k: int| 0 <= k < next.len() implies {
                        &&& i + k < p.len()
                        &&& (#[trigger] next[k]).span == span_between(p, i + k, i + k + 1)
                        &&& p[i + k] == flag_char(next[k].kind)
                    } by {
                        if k < items.len() {
                            assert(next[k] == items[k]);
                        }
                    }
                    lemma_flags_fault(p, i, next);
                } else {
                    let k = find_item(items, kind)->0;
                    assert(items[k].kind == kind);
                    assert(flags_fault(p, i, items, e));
                }
            } else {
                assert(flags_fault(p, i, items, e));
            }
        },
        _ => {},
    }
}

proof fn lemma_name_fault(p: Seq<char>, i: int)
    requires
        0 <= i <= p.len(),
    ensures
        name_between(p, i, name_end(p, i)),
{
    lemma_capture_name(p, i);
    if i < p.len() && capture_char(p[i], true) {
        lemma_run_end(p, i + 1, CharSet::Name);
        let j = name_end(p, i);
        assert forall|k: int| i <= k < j implies capture_char(#[trigger] p[k], k == i) by {
            if k > i {
                assert(CharSet::Name.has(p[k]));
            }
        }
    }
}

proof fn lemma_prefix(p: Seq<char>, i: int, s: Seq<char>)
    requires
        0 <= i,
    ensures
        prefix_at(p, i, s) == stands_at(p, i, s),
{
}

/// The opening of a group that is refused has something wrong.
#[verifier::rlimit(30)]
pub proof fn lemma_group_fault(p: Seq<char>, verbose: bool, c: Cursor)
    requires
        fits(p),
        0 <= c.index < p.len(),
        p[c.index] == '(',
    ensures
        match group_open(p, verbose, c) {
            (_, Err(e)) => group_fault(p, c.index, verbose, e),
            _ => true,
        },
{
    broadcast use lemma_skip_index;

    lemma_group_prefixes();
    lemma_skip(p, c.at(c.index + 1), verbose);
    let i = c.index;
    let j = c.at(i + 1).skip(p, verbose).index;
    lemma_prefix(p, j, "?="@);
    lemma_prefix(p, j, "?!"@);
    lemma_prefix(p, j, "?<="@);
    lemma_prefix(p, j, "?<!"@);
    lemma_prefix(p, j, "?P<"@);
    lemma_prefix(p, j, "?"@);
    assert(lookaround_text(0) == "?="@);
    assert(lookaround_text(1) == "?!"@);
    assert(lookaround_text(2) == "?<="@);
    assert(lookaround_text(3) == "?<!"@);
    match group_open(p, verbose, c) {
        (_, Err(e)) => {
            if lookaround_end(p, j) is Some {
                assert(stands_at(p, j, lookaround_text(0)) || stands_at(p, j, lookaround_text(1))
                    || stands_at(p, j, lookaround_text(2)) || stands_at(
                    p,
                    j,
                    lookaround_text(3),
                ));
                assert(group_fault(p, i, verbose, e));
            } else if prefix_at(p, j, "?P<"@) {
                lemma_capture_name(p, j + 3);
                lemma_name_fault(p, j + 3);
            } else {
                assert forall|k: int| !(#[trigger] stands_at(p, j, lookaround_text(k))) by {
                    assert(lookaround_text(k) == "?="@ || lookaround_text(k) == "?!"@
                        || lookaround_text(k) == "?<="@ || lookaround_text(k) == "?<!"@);
                }
                assert(p.subrange(j, j + 1)[0] == '?');
                let none = Seq::<FlagsItem>::empty();
                assert(items_read(p, none, j + 1));
                lemma_flags_fault(p, j + 1, none);
                assert(flags(p, j + 1).1 == Err::<FlagsView, Error>(e));
                assert(group_fault(p, i, verbose, e));
            }
        },
        _ => {},
    }
}

} // verus!
