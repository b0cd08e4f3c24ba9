//! Numbers.

use vstd::prelude::*;

use crate::ast::{Error, ErrorKind};
use crate::chars::{lemma_run_end, run_end, CharSet};
use crate::grammar::fail;
use crate::text::span_between;

verus! {

/// The value of a digit.
pub open spec fn digit_value(c: char) -> nat {
    if '0' <= c <= '9' {
        (c as int - '0' as int) as nat
    } else if 'a' <= c <= 'f' {
        (c as int - 'a' as int + 10) as nat
    } else if 'A' <= c <= 'F' {
        (c as int - 'A' as int + 10) as nat
    } else {
        0
    }
}

/// The number that a sequence of digits denotes in the given radix.
pub open spec fn number(digits: Seq<char>, radix: nat) -> nat
    decreases digits.len(),
{
    if digits.len() == 0 {
        0
    } else {
        number(digits.drop_last(), radix) * radix + digit_value(digits.last())
    }
}

/// The Unicode scalar value of the given number, if there is one.
pub open spec fn scalar(n: nat) -> Option<char> {
    if n <= 0xD7FF || 0xE000 <= n <= 0x10FFFF {
        Some(n as char)
    } else {
        None
    }
}

/// A decimal number with white space around it.
pub open spec fn decimal(p: Seq<char>, i: int) -> (int, Result<u32, Error>) {
    let start = run_end(p, i, CharSet::Whitespace);
    let end = run_end(p, start, CharSet::Decimal);
    let next = run_end(p, end, CharSet::Whitespace);
    let n = number(p.subrange(start, end), 10);
    if start == end {
        (next, fail(span_between(p, start, end), ErrorKind::DecimalEmpty))
    } else if n > u32::MAX {
        (next, fail(span_between(p, start, end), ErrorKind::DecimalInvalid))
    } else {
        (next, Ok(n as u32))
    }
}

/// A digit is less than the greatest radix.
pub proof fn lemma_digit_value(c: char)
    ensures
        digit_value(c) < 16,
{
}

/// More digits do not make a number smaller.
pub proof fn lemma_number(digits: Seq<char>, k: int, radix: nat)
    requires
        0 <= k <= digits.len(),
        1 <= radix,
    ensures
        number(digits.take(k), radix) <= number(digits, radix),
    decreases digits.len(),
{
    if k < digits.len() {
        let front = digits.drop_last();
        lemma_number(front, k, radix);
        assert(front.take(k) == digits.take(k));
        let n = number(front, radix);
        assert(n <= n * radix) by (nonlinear_arith)
            requires
                1 <= radix,
        ;
    } else {
        assert(digits.take(k) == digits);
    }
}

/// A decimal number moves forward in its text.
pub proof fn lemma_decimal(p: Seq<char>, i: int)
    requires
        0 <= i <= p.len(),
    ensures
        i <= decimal(p, i).0 <= p.len(),
        decimal(p, i).1 is Ok ==> i < decimal(p, i).0,
{
    let start = run_end(p, i, CharSet::Whitespace);
    let end = run_end(p, start, CharSet::Decimal);
    lemma_run_end(p, i, CharSet::Whitespace);
    lemma_run_end(p, start, CharSet::Decimal);
    lemma_run_end(p, end, CharSet::Whitespace);
}

} // verus!
