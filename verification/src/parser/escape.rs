//! Parsing literals, assertions and the classes that are written as an escape.

use vstd::prelude::*;

use crate::ast::{
    Assertion, AssertionKind, ClassPerl, ClassPerlKind, ClassUnicode, ClassUnicodeKind,
    ClassUnicodeOpKind, Error, ErrorKind, HexLiteralKind, Literal, LiteralKind, Position, Span,
    SpecialLiteralKind,
};
use crate::chars::{
    find_char, is_hex, is_punct, lemma_run_end, lemma_run_end_from, octal_digit, CharSet,
};
use crate::grammar::escape::{
    class_item, escape, find_not_equal, hex, hex_brace, hex_digits, octal, perl_class, perl_letter,
    primitive, simple_escape, unicode_class, unicode_kind,
};
use crate::grammar::number::number;
use crate::grammar::viewed;
use crate::parser::ParserI;
use crate::primitive::Primitive;
use crate::text::position_at;

verus! {

/// A number of at most three octal digits.
pub proof fn lemma_octal_number(digits: Seq<char>)
    requires
        digits.len() <= 3,
        forall|k: int| 0 <= k < digits.len() ==> octal_digit(#[trigger] digits[k]),
    ensures
        number(digits, 8) <= 0o777,
{
    reveal_with_fuel(number, 4);
}

impl ParserI {
    /// Parse a primitive AST. e.g., A literal, non-set character class or
    /// assertion.
    ///
    /// This assumes that the parser expects a primitive at the current
    /// location. i.e., All other non-primitive cases have been handled.
    /// For example, if the parser's position is at `|`, then `|` will be
    /// treated as a literal (e.g., inside a character class).
    ///
    /// This advances the parser to the first character immediately following
    /// the primitive.
    pub fn parse_primitive(&mut self) -> (r: Result<Primitive, Error>)
        requires
            old(self).wf(),
            !old(self)@.eof(),
        ensures
            ({
                let s = old(self)@;
                let (end, prim) = primitive(s.pattern, s.options.octal, s.verbose, s.index);
                &&& final(self).wf()
                &&& final(self)@ == s.at(end)
                &&& viewed(r) == prim
            }),
    {
        let c = self.char();
        if c == '\\' {
            return self.parse_escape();
        }
        let span = self.span_char();
        self.bump();
        match c {
            '.' => Ok(Primitive::Dot(span)),
            '^' => Ok(
                Primitive::Assertion(Assertion { span, kind: AssertionKind::StartLine }),
            ),
            '$' => Ok(Primitive::Assertion(Assertion { span, kind: AssertionKind::EndLine })),
            c => Ok(Primitive::Literal(Literal { span, kind: LiteralKind::Verbatim, c })),
        }
    }

    /// Parse an escape sequence as a primitive AST.
    ///
    /// This assumes the parser is positioned at the start of the escape
    /// sequence, i.e., `\`. It advances the parser to the first position
    /// immediately following the escape sequence.
    #[verifier::rlimit(30)]
    pub fn parse_escape(&mut self) -> (r: Result<Primitive, Error>)
        requires
            old(self).wf(),
            old(self)@.looks_at('\\'),
        ensures
            ({
                let s = old(self)@;
                let (end, prim) = escape(s.pattern, s.options.octal, s.verbose, s.index);
                &&& final(self).wf()
                &&& final(self)@ == s.at(end)
                &&& viewed(r) == prim
            }),
    {
        proof {
            reveal(escape);
        }
        let start = self.pos();
        if !self.bump() {
            return Err(
                Error {
                    span: Span::new(start, self.pos()),
                    kind: ErrorKind::EscapeUnexpectedEof,
                },
            );
        }
        let c = self.char();
        // Put some of the more complicated routines into helpers.
        if '0' <= c && c <= '9' && !self.parser().octal {
            return Err(
                Error {
                    span: Span::new(start, self.span_char().end),
                    kind: ErrorKind::UnsupportedBackreference,
                },
            );
        }
        if '0' <= c && c <= '7' {
            let mut lit = self.parse_octal();
            lit.span.start = start;
            return Ok(Primitive::Literal(lit));
        }
        match c {
            'x' | 'u' | 'U' => {
                let mut lit = self.parse_hex()?;
                lit.span.start = start;
                return Ok(Primitive::Literal(lit));
            },
            'p' | 'P' => {
                let mut cls = self.parse_unicode_class()?;
                cls.span.start = start;
                return Ok(Primitive::Unicode(cls));
            },
            'd' | 's' | 'w' | 'D' | 'S' | 'W' => {
                let mut cls = self.parse_perl_class();
                cls.span.start = start;
                return Ok(Primitive::Perl(cls));
            },
            _ => {},
        }
        // Handle all of the one letter sequences in one place.
        self.bump();
        let span = Span::new(start, self.pos());
        self.one_letter_escape(span, c)
    }

    /// Return the primitive that an escaped character stands for.
    fn one_letter_escape(&self, span: Span, c: char) -> (r: Result<Primitive, Error>)
        requires
            self.wf(),
            2 <= self@.index,
            c == self@.pattern[self@.index - 1],
            span.start == position_at(self@.pattern, self@.index - 2),
            span.end == position_at(self@.pattern, self@.index),
        ensures
            viewed(r) == simple_escape(self@.pattern, self@.index - 2, self@.verbose),
    {
        if is_punct(c) {
            return Ok(Primitive::Literal(Literal { span, kind: LiteralKind::Punctuation, c }));
        }
        let (kind, c): (SpecialLiteralKind, char) = match c {
            'a' => (SpecialLiteralKind::Bell, '\x07'),
            'f' => (SpecialLiteralKind::FormFeed, '\x0C'),
            't' => (SpecialLiteralKind::Tab, '\t'),
            'n' => (SpecialLiteralKind::LineFeed, '\n'),
            'r' => (SpecialLiteralKind::CarriageReturn, '\r'),
            'v' => (SpecialLiteralKind::VerticalTab, '\x0B'),
            ' ' if self.ignore_space() => (SpecialLiteralKind::Space, ' '),
            c => {
                let kind = match c {
                    'A' => AssertionKind::StartText,
                    'z' => AssertionKind::EndText,
                    'b' => AssertionKind::WordBoundary,
                    'B' => AssertionKind::NotWordBoundary,
                    c => {
                        return Err(Error { span, kind: ErrorKind::EscapeUnrecognized { c } });
                    },
                };
                return Ok(Primitive::Assertion(Assertion { span, kind }));
            },
        };
        Ok(Primitive::Literal(Literal { span, kind: LiteralKind::Special(kind), c }))
    }

    /// Parse an octal representation of a Unicode codepoint up to 3 digits
    /// long. This expects the parser to be positioned at the first octal
    /// digit and advances the parser to the first character immediately
    /// following the octal number. This also assumes that parsing octal
    /// escapes is enabled.
    ///
    /// Assuming the preconditions are met, this routine can never fail.
    pub fn parse_octal(&mut self) -> (r: Literal)
        requires
            old(self).wf(),
            old(self)@.options.octal,
            !old(self)@.eof(),
            octal_digit(old(self)@.pattern[old(self)@.index]),
        ensures
            final(self).wf(),
            final(self)@ == old(self)@.at(octal(old(self)@.pattern, old(self)@.index).0),
            r == octal(old(self)@.pattern, old(self)@.index).1,
    {
        let ghost p = self@.pattern;
        let ghost i = self@.index;
        let start = self.pos();
        let from = self.index;
        // Parse up to two more digits.
        let mut n: usize = 1;
        self.bump();
        while n < 3 && !self.at_end() && '0' <= self.char() && self.char() <= '7'
            invariant
                self.wf(),
                p == old(self)@.pattern,
                i == old(self)@.index,
                1 <= n <= 3,
                self@ == old(self)@.at(i + n),
                i + n <= p.len(),
                forall|k: int| i <= k < i + n ==> octal_digit(#[trigger] p[k]),
            decreases 3 - n,
        {
            self.bump();
            n = n + 1;
        }
        let end = self.pos();
        let to = self.index;
        proof {
            lemma_run_end_from(p, i, i + n, CharSet::Octal);
            lemma_run_end(p, i + n, CharSet::Octal);
            lemma_octal_number(p.subrange(i, i + n));
        }
        let codepoint = self.number(from, to, 8).unwrap();
        // The max value for 3 digit octal is 0777 = 511 and [0, 511] has no
        // invalid Unicode scalar values.
        let c = std::char::from_u32(codepoint).unwrap();
        Literal { span: Span::new(start, end), kind: LiteralKind::Octal, c }
    }

    /// Parse a hex representation of a Unicode codepoint. This handles both
    /// hex notations, i.e., `\xFF` and `\x{FFFF}`. This expects the parser to
    /// be positioned at the `x`, `u` or `U` prefix. The parser is advanced to
    /// the first character immediately following the hexadecimal literal.
    pub fn parse_hex(&mut self) -> (r: Result<Literal, Error>)
        requires
            old(self).wf(),
            old(self)@.looks_at('x') || old(self)@.looks_at('u') || old(self)@.looks_at('U'),
        ensures
            final(self).wf(),
            final(self)@ == old(self)@.at(hex(old(self)@.pattern, old(self)@.index).0),
            r == hex(old(self)@.pattern, old(self)@.index).1,
    {
        let hex_kind = match self.char() {
            'x' => HexLiteralKind::X,
            'u' => HexLiteralKind::UnicodeShort,
            _ => HexLiteralKind::UnicodeLong,
        };
        if !self.bump() {
            return Err(Error { span: self.span(), kind: ErrorKind::EscapeUnexpectedEof });
        }
        if self.char() == '{' {
            self.parse_hex_brace(hex_kind)
        } else {
            self.parse_hex_digits(hex_kind)
        }
    }

    /// Parse an N-digit hex representation of a Unicode codepoint. This
    /// expects the parser to be positioned at the first digit and will advance
    /// the parser to the first character immediately following the escape
    /// sequence.
    ///
    /// The number of digits is 2 (for `\xNN`), 4 (for `\uNNNN`) or 8 (for
    /// `\UNNNNNNNN`).
    pub fn parse_hex_digits(&mut self, kind: HexLiteralKind) -> (r: Result<Literal, Error>)
        requires
            old(self).wf(),
            !old(self)@.eof(),
        ensures
            final(self).wf(),
            final(self)@ == old(self)@.at(
                hex_digits(old(self)@.pattern, old(self)@.index, kind).0,
            ),
            r == hex_digits(old(self)@.pattern, old(self)@.index, kind).1,
    {
        let ghost p = self@.pattern;
        let ghost i = self@.index;
        let start = self.pos();
        let from = self.index;
        let digits = kind.digits();
        let mut k: u32 = 0;
        while k < digits
            invariant
                self.wf(),
                p == old(self)@.pattern,
                i == old(self)@.index,
                digits == kind.spec_digits(),
                0 <= k <= digits,
                self@ == old(self)@.at(i + k),
                0 <= i <= i + k <= p.len(),
                forall|j: int| i <= j < i + k ==> CharSet::Hex.has(#[trigger] p[j]),
            decreases digits - k,
        {
            proof {
                lemma_run_end_from(p, i, i + k, CharSet::Hex);
            }
            if self.at_end() {
                return Err(Error { span: self.span(), kind: ErrorKind::EscapeUnexpectedEof });
            }
            if !is_hex(self.char()) {
                return Err(
                    Error {
                        span: self.span_char(),
                        kind: ErrorKind::EscapeHexInvalidDigit { c: self.char() },
                    },
                );
            }
            self.bump();
            k = k + 1;
        }
        proof {
            lemma_run_end_from(p, i, i + k, CharSet::Hex);
            lemma_run_end(p, i + k, CharSet::Hex);
        }
        let end = self.pos();
        match self.scalar(from, self.index) {
            None => Err(Error { span: Span::new(start, end), kind: ErrorKind::EscapeHexInvalid }),
            Some(c) => Ok(
                Literal { span: Span::new(start, end), kind: LiteralKind::HexFixed(kind), c },
            ),
        }
    }

    /// Parse a hex representation of any Unicode scalar value. This expects
    /// the parser to be positioned at the opening brace `{` and will advance
    /// the parser to the first character following the closing brace `}`.
    pub fn parse_hex_brace(&mut self, kind: HexLiteralKind) -> (r: Result<Literal, Error>)
        requires
            old(self).wf(),
            !old(self)@.eof(),
        ensures
            final(self).wf(),
            final(self)@ == old(self)@.at(hex_brace(old(self)@.pattern, old(self)@.index, kind).0),
            r == hex_brace(old(self)@.pattern, old(self)@.index, kind).1,
    {
        proof {
            lemma_run_end(self@.pattern, self@.index + 1, CharSet::Hex);
        }
        let brace_pos = self.pos();
        self.bump();
        let start = self.pos();
        let from = self.index;
        self.bump_while(CharSet::Hex);
        if self.at_end() {
            return Err(
                Error {
                    span: Span::new(brace_pos, self.pos()),
                    kind: ErrorKind::EscapeUnexpectedEof,
                },
            );
        }
        if self.char() != '}' {
            return Err(
                Error {
                    span: self.span_char(),
                    kind: ErrorKind::EscapeHexInvalidDigit { c: self.char() },
                },
            );
        }
        let end = self.pos();
        let to = self.index;
        self.bump();
        if from == to {
            return Err(
                Error { span: Span::new(brace_pos, self.pos()), kind: ErrorKind::EscapeHexEmpty },
            );
        }
        match self.scalar(from, to) {
            None => Err(Error { span: Span::new(start, end), kind: ErrorKind::EscapeHexInvalid }),
            Some(c) => Ok(
                Literal {
                    span: Span::new(start, self.pos()),
                    kind: LiteralKind::HexBrace(kind),
                    c,
                },
            ),
        }
    }

    /// Parse a Unicode class in either the single character notation, `\pN`
    /// or the multi-character bracketed notation, `\p{Greek}`. This assumes
    /// the parser is positioned at the `p` (or `P` for negation) and will
    /// advance the parser to the character immediately following the class.
    ///
    /// Note that this does not check whether the class name is valid or not.
    pub fn parse_unicode_class(&mut self) -> (r: Result<ClassUnicode, Error>)
        requires
            old(self).wf(),
            old(self)@.looks_at('p') || old(self)@.looks_at('P'),
        ensures
            final(self).wf(),
            final(self)@ == old(self)@.at(unicode_class(old(self)@.pattern, old(self)@.index).0),
            viewed(r) == unicode_class(old(self)@.pattern, old(self)@.index).1,
    {
        let ghost p = self@.pattern;
        let ghost i = self@.index;
        let negated = self.char() == 'P';
        if !self.bump() {
            return Err(Error { span: self.span(), kind: ErrorKind::EscapeUnexpectedEof });
        }
        let (start, kind): (Position, ClassUnicodeKind) = if self.char() == '{' {
            self.bump();
            let start = self.pos();
            let from = self.index;
            proof {
                lemma_run_end(p, i + 2, CharSet::Except('}'));
            }
            self.bump_while(CharSet::Except('}'));
            if self.at_end() {
                return Err(Error { span: self.span(), kind: ErrorKind::EscapeUnexpectedEof });
            }
            let to = self.index;
            self.bump();
            (start, self.unicode_kind(from, to))
        } else {
            let start = self.pos();
            let c = self.char();
            self.bump();
            (start, ClassUnicodeKind::OneLetter(c))
        };
        Ok(ClassUnicode { span: Span::new(start, self.pos()), negated, kind })
    }

    /// Return what the part of the pattern between two indices means between
    /// the braces of a Unicode class.
    fn unicode_kind(&self, from: usize, to: usize) -> (r: ClassUnicodeKind)
        requires
            self.wf(),
            from <= to <= self@.pattern.len(),
        ensures
            r@ == unicode_kind(self@.pattern.subrange(from as int, to as int)),
    {
        let ghost name = self@.pattern.subrange(from as int, to as int);
        let i = self.find_not_equal(from, to);
        if i < to {
            assert(name.take(i - from) == self@.pattern.subrange(from as int, i as int));
            assert(name.skip(i + 2 - from) == self@.pattern.subrange(i + 2, to as int));
            return ClassUnicodeKind::NamedValue {
                op: ClassUnicodeOpKind::NotEqual,
                name: self.substring(from, i),
                value: self.substring(i + 2, to),
            };
        }
        let i = self.find(from, to, ':');
        if i < to {
            assert(name.take(i - from) == self@.pattern.subrange(from as int, i as int));
            assert(name.skip(i + 1 - from) == self@.pattern.subrange(i + 1, to as int));
            return ClassUnicodeKind::NamedValue {
                op: ClassUnicodeOpKind::Colon,
                name: self.substring(from, i),
                value: self.substring(i + 1, to),
            };
        }
        let i = self.find(from, to, '=');
        if i < to {
            assert(name.take(i - from) == self@.pattern.subrange(from as int, i as int));
            assert(name.skip(i + 1 - from) == self@.pattern.subrange(i + 1, to as int));
            return ClassUnicodeKind::NamedValue {
                op: ClassUnicodeOpKind::Equal,
                name: self.substring(from, i),
                value: self.substring(i + 1, to),
            };
        }
        ClassUnicodeKind::Named(self.substring(from, to))
    }

    /// Return the index of the first occurrence of the given character between
    /// two indices, or the second index if there is none.
    fn find(&self, from: usize, to: usize, c: char) -> (r: usize)
        requires
            self.wf(),
            from <= to <= self@.pattern.len(),
        ensures
            r == from + find_char(self@.pattern.subrange(from as int, to as int), 0, c),
            from <= r <= to,
    {
        let ghost name = self@.pattern.subrange(from as int, to as int);
        let mut i: usize = from;
        while i < to && self.char_of(i) != c
            invariant
                self.wf(),
                from <= i <= to <= self@.pattern.len(),
                name == self@.pattern.subrange(from as int, to as int),
                find_char(name, i - from, c) == find_char(name, 0, c),
            decreases to - i,
        {
            i = i + 1;
        }
        i
    }

    /// Return the index of the first occurrence of `!=` between two indices,
    /// or the second index if there is none.
    fn find_not_equal(&self, from: usize, to: usize) -> (r: usize)
        requires
            self.wf(),
            from <= to <= self@.pattern.len(),
        ensures
            r == from + find_not_equal(self@.pattern.subrange(from as int, to as int), 0),
            from <= r,
            r == to || r + 2 <= to,
    {
        let ghost name = self@.pattern.subrange(from as int, to as int);
        let mut i: usize = from;
        while i < to && !(i + 1 < to && self.char_of(i) == '!' && self.char_of(i + 1) == '=')
            invariant
                self.wf(),
                from <= i <= to <= self@.pattern.len(),
                name == self@.pattern.subrange(from as int, to as int),
                find_not_equal(name, i - from) == find_not_equal(name, 0),
            decreases to - i,
        {
            i = i + 1;
        }
        i
    }

    /// Parse a Perl character class, e.g., `\d` or `\W`. This assumes the
    /// parser is currently at a valid character class name and will be
    /// advanced to the character immediately following the class.
    pub fn parse_perl_class(&mut self) -> (r: ClassPerl)
        requires
            old(self).wf(),
            !old(self)@.eof(),
            perl_letter(old(self)@.pattern[old(self)@.index]),
        ensures
            final(self).wf(),
            final(self)@ == old(self)@.at(old(self)@.index + 1),
            r == perl_class(old(self)@.pattern, old(self)@.index),
    {
        let c = self.char();
        let span = self.span_char();
        self.bump();
        let (negated, kind): (bool, ClassPerlKind) = match c {
            'd' => (false, ClassPerlKind::Digit),
            'D' => (true, ClassPerlKind::Digit),
            's' => (false, ClassPerlKind::Space),
            'S' => (true, ClassPerlKind::Space),
            'w' => (false, ClassPerlKind::Word),
            _ => (true, ClassPerlKind::Word),
        };
        ClassPerl { span, kind, negated }
    }

    /// Parse a single item in a character class as a primitive, where the
    /// primitive either consists of a verbatim literal or a single escape
    /// sequence.
    ///
    /// This assumes the parser is positioned at the beginning of a primitive,
    /// and advances the parser to the first position after the primitive if
    /// successful.
    ///
    /// Note that it is the caller's responsibility to report an error if an
    /// illegal primitive was parsed.
    pub fn parse_set_class_item(&mut self) -> (r: Result<Primitive, Error>)
        requires
            old(self).wf(),
            !old(self)@.eof(),
        ensures
            ({
                let s = old(self)@;
                let (end, prim) = class_item(s.pattern, s.options.octal, s.verbose, s.index);
                &&& final(self).wf()
                &&& final(self)@ == s.at(end)
                &&& viewed(r) == prim
            }),
    {
        if self.char() == '\\' {
            self.parse_escape()
        } else {
            let x = Primitive::Literal(
                Literal { span: self.span_char(), kind: LiteralKind::Verbatim, c: self.char() },
            );
            self.bump();
            Ok(x)
        }
    }
}

} // verus!
