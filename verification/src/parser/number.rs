//! Parsing numbers.

use vstd::prelude::*;

use crate::ast::{Error, ErrorKind, Span};
use crate::chars::{lemma_run_end, run_end, CharSet};
use crate::grammar::number::{decimal, digit_value, lemma_digit_value, lemma_number, number, scalar};
use crate::parser::ParserI;

verus! {

/// [`std::char::from_u32`] returns the character of the given number, and `None`
/// if the number is not that of a Unicode scalar value.
pub assume_specification[ std::char::from_u32 ](i: u32) -> (r: Option<char>)
    ensures
        r == scalar(i as nat),
;

/// Return the value of the given digit.
fn digit(c: char) -> (r: u32)
    ensures
        r == digit_value(c),
{
    if '0' <= c && c <= '9' {
        c as u32 - '0' as u32
    } else if 'a' <= c && c <= 'f' {
        c as u32 - 'a' as u32 + 10
    } else if 'A' <= c && c <= 'F' {
        c as u32 - 'A' as u32 + 10
    } else {
        0
    }
}

impl ParserI {
    /// Return the number that the digits between two indices denote, if it
    /// fits into 32 bits.
    pub fn number(&self, from: usize, to: usize, radix: u32) -> (r: Option<u32>)
        requires
            self.wf(),
            from <= to <= self@.pattern.len(),
            1 <= radix <= 16,
        ensures
            r == if number(self@.pattern.subrange(from as int, to as int), radix as nat)
                <= u32::MAX {
                Some(
                    number(self@.pattern.subrange(from as int, to as int), radix as nat) as u32,
                )
            } else {
                None
            },
    {
        let ghost digits = self@.pattern.subrange(from as int, to as int);
        let mut n: u64 = 0;
        let mut i: usize = from;
        while i < to
            invariant
                self.wf(),
                from <= i <= to <= self@.pattern.len(),
                digits == self@.pattern.subrange(from as int, to as int),
                1 <= radix <= 16,
                n == number(digits.take(i - from), radix as nat),
                n <= u32::MAX,
            decreases to - i,
        {
            let d = digit(self.char_of(i));
            proof {
                lemma_digit_value(self@.pattern[i as int]);
                assert(digits.take(i + 1 - from).drop_last() == digits.take(i - from));
                assert(n * radix <= u32::MAX * 16) by (nonlinear_arith)
                    requires
                        0 <= n <= u32::MAX,
                        1 <= radix <= 16,
                ;
            }
            n = n * (radix as u64) + (d as u64);
            i = i + 1;
            if n > 0xFFFF_FFFF {
                proof {
                    lemma_number(digits, i - from, radix as nat);
                }
                return None;
            }
        }
        assert(digits.take(to - from) == digits);
        Some(n as u32)
    }

    /// Return the character whose number the hexadecimal digits between two
    /// indices denote, if there is one.
    pub fn scalar(&self, from: usize, to: usize) -> (r: Option<char>)
        requires
            self.wf(),
            from <= to <= self@.pattern.len(),
        ensures
            r == scalar(number(self@.pattern.subrange(from as int, to as int), 16)),
    {
        match self.number(from, to, 16) {
            Some(n) => std::char::from_u32(n),
            None => None,
        }
    }

    /// Parse a decimal number into a u32 while trimming leading and trailing
    /// whitespace.
    ///
    /// This expects the parser to be positioned at the first position where
    /// a decimal digit could occur. This will advance the parser to the byte
    /// immediately following the last contiguous decimal digit and the
    /// whitespace behind it.
    ///
    /// If no decimal digit could be found or if there was a problem parsing
    /// the complete set of digits into a u32, then an error is returned.
    pub fn parse_decimal(&mut self) -> (r: Result<u32, Error>)
        requires
            old(self).wf(),
        ensures
            final(self).wf(),
            final(self)@ == old(self)@.at(decimal(old(self)@.pattern, old(self)@.index).0),
            r == decimal(old(self)@.pattern, old(self)@.index).1,
    {
        let ghost p = self@.pattern;
        proof {
            self.lemma_wf();
            lemma_run_end(p, self@.index, CharSet::Whitespace);
            let start = run_end(p, self@.index, CharSet::Whitespace);
            lemma_run_end(p, start, CharSet::Decimal);
        }
        self.bump_while(CharSet::Whitespace);
        let start = self.pos();
        let from = self.index;
        self.bump_while(CharSet::Decimal);
        let span = Span::new(start, self.pos());
        let to = self.index;
        self.bump_while(CharSet::Whitespace);
        if from == to {
            return Err(Error { span, kind: ErrorKind::DecimalEmpty });
        }
        match self.number(from, to, 10) {
            Some(n) => Ok(n),
            None => Err(Error { span, kind: ErrorKind::DecimalInvalid }),
        }
    }
}

} // verus!
