//! How primitives and flags are read.

use vstd::prelude::*;

use crate::ast::methods::{find_item, lemma_find_item};
use crate::ast::view::ClassUnicodeView;
use crate::ast::{Flag, FlagsItem, FlagsItemKind, Literal};
use crate::chars::{
    find_char, hex_digit, lemma_run_end, octal_digit, run_end, whitespace, CharSet,
};
use crate::grammar::class::primitive_span;
use crate::grammar::escape::{
    class_item, escape, find_not_equal, hex, lemma_escape, octal, primitive, unicode_class,
    unicode_kind, verbatim, PrimitiveView,
};
use crate::grammar::expr::verbose_after;
use crate::grammar::group::{flags, flags_item_kind, flags_rest, lemma_flags_rest};
use crate::grammar::number::number;
use crate::grammar::space::{skip_space, Cursor};
use crate::laws::reading::{
    assertion_reads, blank_end, flag_char, flags_read, is_x, items_read, lemma_line_end,
    lemma_span_index, line_end, literal_reads, mode_after, names, no_not_equal, past, perl_reads,
    spans, text, turns_on, unicode_reads, value,
};
use crate::laws::spans::leaf::lemma_escape_spans;
use crate::parser::escape::lemma_octal_number;
use crate::text::{char_span_at, fits, span_between};

verus! {

/// The space that the grammar skips.
pub proof fn lemma_skip_is_past(p: Seq<char>, i: int)
    requires
        0 <= i <= p.len(),
    ensures
        skip_space(p, i) == blank_end(p, i),
    decreases p.len() - i,
{
    if i < p.len() {
        lemma_line_end(p, i + 1);
        lemma_comment_is_line(p, i, i + 1);
        if whitespace(p[i]) {
            lemma_skip_is_past(p, i + 1);
        } else if p[i] == '#' {
            lemma_skip_is_past(p, line_end(p, i + 1));
        }
    }
}

/// The end of a line.
pub proof fn lemma_comment_is_line(p: Seq<char>, i: int, j: int)
    requires
        0 <= i < j <= p.len(),
    ensures
        line_end(p, j) == {
            let end = find_char(p, j, '\n');
            if end < p.len() {
                end + 1
            } else {
                end
            }
        },
    decreases p.len() - j,
{
    if j < p.len() && p[j] != '\n' {
        lemma_comment_is_line(p, i, j + 1);
    }
}

/// The cursor behind skipped space.
pub broadcast proof fn lemma_skip_index(p: Seq<char>, c: Cursor, verbose: bool)
    requires
        0 <= c.index <= p.len(),
    ensures
        (#[trigger] c.skip(p, verbose)).index == past(p, c.index, verbose),
{
    lemma_skip_is_past(p, c.index);
}

/// Skipped space ends in its text, where nothing is left to skip.
pub proof fn lemma_past(p: Seq<char>, i: int, verbose: bool)
    requires
        0 <= i <= p.len(),
    ensures
        i <= past(p, i, verbose) <= p.len(),
        past(p, past(p, i, verbose), verbose) == past(p, i, verbose),
    decreases p.len() - i,
{
    if verbose && i < p.len() {
        lemma_line_end(p, i + 1);
        if whitespace(p[i]) {
            lemma_past(p, i + 1, verbose);
        } else if p[i] == '#' {
            lemma_past(p, line_end(p, i + 1), verbose);
        }
    }
}

/// The number of digits.
pub proof fn lemma_value(digits: Seq<char>, radix: nat)
    requires
        forall|k: int| 0 <= k < digits.len() ==> hex_digit(#[trigger] digits[k]),
    ensures
        number(digits, radix) == value(digits, radix as int),
    decreases digits.len(),
{
    if digits.len() > 0 {
        let front = digits.drop_last();
        assert forall|k: int| 0 <= k < front.len() implies hex_digit(
            #[trigger] front[k],
        ) by {
            assert(front[k] == digits[k]);
        }
        lemma_value(front, radix);
        assert(hex_digit(digits[digits.len() - 1]));
    }
}

/// A primitive stands for what is written.
pub open spec fn prim_reads(p: Seq<char>, prim: PrimitiveView, verbose: bool) -> bool {
    match prim {
        PrimitiveView::Literal(x) => literal_reads(p, x, verbose),
        PrimitiveView::Assertion(x) => assertion_reads(p, x),
        PrimitiveView::Dot(span) => spans(p, span) && text(p, span) == seq!['.'],
        PrimitiveView::Perl(x) => perl_reads(p, x),
        PrimitiveView::Unicode(x) => unicode_reads(p, x),
    }
}

proof fn lemma_find_not_equal(s: Seq<char>, i: int)
    requires
        0 <= i <= s.len(),
        no_not_equal(s, i),
    ensures
        ({
            let j = find_not_equal(s, i);
            &&& i <= j <= s.len()
            &&& no_not_equal(s, j)
            &&& j < s.len() ==> j + 1 < s.len() && s[j] == '!' && s[j + 1] == '='
        }),
    decreases s.len() - i,
{
    if i < s.len() && !(i + 1 < s.len() && s[i] == '!' && s[i + 1] == '=') {
        lemma_find_not_equal(s, i + 1);
    }
}

/// What stands between the braces of a Unicode class is what it names.
pub proof fn lemma_names(body: Seq<char>)
    ensures
        names(unicode_kind(body), body),
{
    lemma_find_not_equal(body, 0);
    lemma_run_end(body, 0, CharSet::Except(':'));
    lemma_run_end(body, 0, CharSet::Except('='));
    let ne = find_not_equal(body, 0);
    let colon = find_char(body, 0, ':');
    let eq = find_char(body, 0, '=');
    if ne < body.len() {
        assert(body =~= body.take(ne) + seq!['!', '='] + body.skip(ne + 2));
    } else if colon < body.len() {
        assert(body =~= body.take(colon) + seq![':'] + body.skip(colon + 1));
        assert forall|k: int| 0 <= k < body.take(colon).len() implies #[trigger] body.take(
            colon,
        )[k] != ':' by {
            assert(CharSet::Except(':').has(body[k]));
        }
    } else {
        assert forall|k: int| 0 <= k < body.len() implies #[trigger] body[k] != ':' by {
            assert(CharSet::Except(':').has(body[k]));
        }
        if eq < body.len() {
            assert(body =~= body.take(eq) + seq!['='] + body.skip(eq + 1));
            assert forall|k: int| 0 <= k < body.take(eq).len() implies #[trigger] body.take(
                eq,
            )[k] != '=' by {
                assert(CharSet::Except('=').has(body[k]));
            }
        } else {
            assert forall|k: int| 0 <= k < body.len() implies #[trigger] body[k] != '=' by {
                assert(CharSet::Except('=').has(body[k]));
            }
        }
    }
}

proof fn lemma_octal_reads(p: Seq<char>, i: int, verbose: bool)
    requires
        fits(p),
        0 <= i,
        i + 1 < p.len(),
        p[i] == '\\',
        octal_digit(p[i + 1]),
    ensures
        ({
            let (end, lit) = octal(p, i + 1);
            literal_reads(p, (Literal { span: span_between(p, i, end), ..lit }), verbose)
        }),
{
    broadcast use lemma_span_index;

    let last = run_end(p, i + 1, CharSet::Octal);
    lemma_run_end(p, i + 1, CharSet::Octal);
    let (end, lit) = octal(p, i + 1);
    let t = p.subrange(i, end);
    let digits = p.subrange(i + 1, end);
    assert(t.subrange(1, t.len() as int) =~= digits);
    assert forall|k: int| 1 <= k < t.len() implies octal_digit(#[trigger] t[k]) by {
        assert(CharSet::Octal.has(p[i + k]));
    }
    assert forall|k: int| 0 <= k < digits.len() implies octal_digit(
        #[trigger] digits[k],
    ) by {
        assert(CharSet::Octal.has(p[i + 1 + k]));
    }
    lemma_value(digits, 8);
    lemma_octal_number(digits);
}

proof fn lemma_hex_reads(p: Seq<char>, i: int, verbose: bool)
    requires
        fits(p),
        0 <= i,
        i + 1 < p.len(),
        p[i] == '\\',
        p[i + 1] == 'x' || p[i + 1] == 'u' || p[i + 1] == 'U',
    ensures
        match hex(p, i + 1) {
            (end, Ok(lit)) => literal_reads(
                p,
                (Literal { span: span_between(p, i, end), ..lit }),
                verbose,
            ),
            _ => true,
        },
{
    broadcast use lemma_span_index;

    if i + 2 < p.len() {
        let brace = p[i + 2] == '{';
        let from = if brace {
            i + 3
        } else {
            i + 2
        };
        let run = run_end(p, from, CharSet::Hex);
        lemma_run_end(p, from, CharSet::Hex);
        match hex(p, i + 1) {
            (end, Ok(lit)) => {
                let to = if brace {
                    end - 1
                } else {
                    end
                };
                let t = p.subrange(i, end);
                let digits = p.subrange(from, to);
                assert forall|k: int| 0 <= k < digits.len() implies hex_digit(
                    #[trigger] digits[k],
                ) by {
                    assert(CharSet::Hex.has(p[from + k]));
                }
                assert(t.subrange(from - i, to - i) =~= digits);
                lemma_value(digits, 16);
            },
            _ => {},
        }
    }
}

proof fn lemma_unicode_reads(p: Seq<char>, i: int)
    requires
        fits(p),
        0 <= i,
        i + 1 < p.len(),
        p[i] == '\\',
        p[i + 1] == 'p' || p[i + 1] == 'P',
    ensures
        match unicode_class(p, i + 1) {
            (end, Ok(cls)) => unicode_reads(
                p,
                (ClassUnicodeView { span: span_between(p, i, end), ..cls }),
            ),
            _ => true,
        },
{
    broadcast use lemma_span_index;

    if i + 2 < p.len() && p[i + 2] == '{' {
        let end = find_char(p, i + 3, '}');
        lemma_run_end(p, i + 3, CharSet::Except('}'));
        if end < p.len() {
            let t = p.subrange(i, end + 1);
            let body = p.subrange(i + 3, end);
            assert(t.subrange(3, t.len() - 1) =~= body);
            lemma_names(body);
            assert forall|k: int| 0 <= k < body.len() implies #[trigger] body[k] != '}' by {
                assert(CharSet::Except('}').has(p[i + 3 + k]));
            }
        }
    }
}

/// An escape sequence stands for what is written.
#[verifier::rlimit(40)]
pub proof fn lemma_escape_reads(p: Seq<char>, octal_on: bool, verbose: bool, i: int)
    requires
        fits(p),
        0 <= i < p.len(),
        p[i] == '\\',
    ensures
        match escape(p, octal_on, verbose, i) {
            (end, Ok(prim)) => {
                &&& primitive_span(prim) == span_between(p, i, end)
                &&& prim_reads(p, prim, verbose)
                &&& !(prim is Literal && prim->Literal_0.kind is Verbatim)
            },
            (end, Err(e)) => true,
        },
{
    broadcast use lemma_span_index;

    lemma_escape(p, octal_on, verbose, i);
    lemma_escape_spans(p, octal_on, verbose, i);
    reveal(escape);
    if i + 1 < p.len() {
        let c = p[i + 1];
        if octal_digit(c) {
            lemma_octal_reads(p, i, verbose);
        } else if c == 'x' || c == 'u' || c == 'U' {
            lemma_hex_reads(p, i, verbose);
        } else if c == 'p' || c == 'P' {
            lemma_unicode_reads(p, i);
        } else {
            assert(p.subrange(i, i + 2) =~= seq!['\\', c]);
        }
    }
}

/// A character that stands for itself.
pub proof fn lemma_verbatim_reads(p: Seq<char>, i: int, verbose: bool)
    requires
        fits(p),
        0 <= i < p.len(),
        p[i] != '\\',
    ensures
        literal_reads(p, verbatim(p, i), verbose),
        p.subrange(i, i + 1) == seq![p[i]],
{
    broadcast use lemma_span_index;

    assert(p.subrange(i, i + 1) =~= seq![p[i]]);
}

/// A primitive stands for what is written.
pub proof fn lemma_primitive_reads(p: Seq<char>, octal_on: bool, verbose: bool, i: int)
    requires
        fits(p),
        0 <= i < p.len(),
    ensures
        match primitive(p, octal_on, verbose, i) {
            (end, Ok(prim)) => {
                &&& primitive_span(prim) == span_between(p, i, end)
                &&& prim_reads(p, prim, verbose)
            },
            (end, Err(e)) => true,
        },
        match class_item(p, octal_on, verbose, i) {
            (end, Ok(prim)) => {
                &&& primitive_span(prim) == span_between(p, i, end)
                &&& prim_reads(p, prim, verbose)
            },
            (end, Err(e)) => true,
        },
{
    broadcast use lemma_span_index;

    if p[i] == '\\' {
        lemma_escape_reads(p, octal_on, verbose, i);
    } else {
        lemma_verbatim_reads(p, i, verbose);
    }
}

proof fn lemma_items_read(p: Seq<char>, i: int, items: Seq<FlagsItem>)
    requires
        fits(p),
        0 <= i,
        i + items.len() <= p.len(),
        items_read(p, items, i),
    ensures
        match flags_rest(p, i + items.len(), items) {
            (end, Ok(all)) => end == i + all.len() && items_read(p, all, i),
            _ => true,
        },
    decreases p.len() - i - items.len(),
{
    let j = i + items.len();
    if j < p.len() {
        match flags_item_kind(p[j]) {
            Some(kind) => {
                let item = FlagsItem { span: char_span_at(p, j), kind };
                let next = items.push(item);
                assert forall|k: int| 0 <= k < next.len() implies {
                    &&& i + k < p.len()
                    &&& (#[trigger] next[k]).span == span_between(p, i + k, i + k + 1)
                    &&& p[i + k] == flag_char(next[k].kind)
                } by {
                    if k < items.len() {
                        assert(next[k] == items[k]);
                    }
                }
                lemma_items_read(p, i, next);
            },
            None => {},
        }
    }
}

/// Flags stand for what is written.
pub proof fn lemma_flags_read(p: Seq<char>, i: int)
    requires
        fits(p),
        0 <= i <= p.len(),
    ensures
        match flags(p, i) {
            (end, Ok(flags)) => {
                &&& flags_read(p, flags, i)
                &&& end == i + flags.items.len()
                &&& end < p.len()
                &&& p[end] == ':' || p[end] == ')'
            },
            _ => true,
        },
{
    lemma_items_read(p, i, Seq::empty());
    lemma_flags_rest(p, i, Seq::empty());
}

/// The mode behind flags is the one that they say.
pub proof fn lemma_mode_after(items: Seq<FlagsItem>, verbose: bool)
    ensures
        verbose_after(items, verbose) == mode_after(items, verbose),
{
    let x = FlagsItemKind::Flag(Flag::IgnoreWhitespace);
    lemma_find_item(items, x);
    match find_item(items, x) {
        None => {
            assert forall|k: int| 0 <= k < items.len() implies !is_x(#[trigger] items[k]) by {}
        },
        Some(i) => {
            let front = items.take(i);
            lemma_find_item(front, FlagsItemKind::Negation);
            assert(is_x(items[i]));
            assert(forall|j: int| 0 <= j < i ==> #[trigger] items[j] == front[j]);
            if find_item(front, FlagsItemKind::Negation) is None {
                assert(turns_on(items, i));
            } else {
                let n = find_item(front, FlagsItemKind::Negation)->0;
                assert forall|k: int| turns_on(items, k) implies false by {
                    if k < i {
                        assert(items[k].kind != x);
                    } else if k > i {
                        assert(!is_x(items[i]));
                    } else {
                        assert(items[n].kind != FlagsItemKind::Negation);
                    }
                }
            }
        },
    }
}

} // verus!
