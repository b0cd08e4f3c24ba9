//! Parsing the openings of groups, and flags.

use either::Either;
use vstd::prelude::*;

use crate::ast::{
    Ast, CaptureName, Error, ErrorKind, Flag, Flags, FlagsItem, FlagsItemKind, Group, GroupKind,
    SetFlags, Span,
};
use crate::chars::{is_capture_char, CharSet};
use crate::grammar::group::{
    capture_name, ends_flags, flag_of, flags, flags_rest, group_open, lemma_capture_name,
    lemma_flags_rest, lemma_group_prefixes,
};
use crate::grammar::{viewed, viewed_either};
use crate::parser::ParserI;
use crate::text::{char_span_at, span_at};

verus! {

impl ParserI {
    /// Parse a group (which contains a sub-expression) or a set of flags.
    ///
    /// If a group was found, then it is returned with an empty AST. If a set
    /// of flags is found, then that set is returned.
    ///
    /// The parser should be positioned at the opening parenthesis.
    ///
    /// This advances the parser to the character at the start of the
    /// sub-expression (in the case of a group) or to the closing parenthesis
    /// immediately following the set of flags.
    ///
    /// # Errors
    ///
    /// If flags are given and incorrectly specified, then a corresponding
    /// error is returned.
    ///
    /// If a capture name is given and it is incorrectly specified, then a
    /// corresponding error is returned.
    pub fn parse_group(&mut self) -> (r: Result<Either<SetFlags, Group>, Error>)
        requires
            old(self).wf(),
            old(self)@.looks_at('('),
        ensures
            ({
                let s = old(self)@;
                let (c, group) = group_open(s.pattern, s.verbose, s.cursor());
                &&& final(self).wf()
                &&& match group {
                    Ok(Either::Left(_)) => {
                        &&& final(self)@ == s.with(c.at(c.index - 1))
                        &&& final(self)@.looks_at(')')
                    },
                    _ => final(self)@ == s.with(c),
                }
                &&& viewed_either(r) == group
            }),
    {
        proof {
            lemma_group_prefixes();
        }
        let open_span = self.span_char();
        self.bump();
        self.bump_space();
        if self.is_lookaround_prefix() {
            return Err(
                Error {
                    span: Span::new(open_span.start, self.span().end),
                    kind: ErrorKind::UnsupportedLookAround,
                },
            );
        }
        if self.bump_if("?P<") {
            let cap = self.parse_capture_name()?;
            Ok(
                Either::Right(
                    Group {
                        span: open_span,
                        kind: GroupKind::CaptureName(cap),
                        ast: Box::new(Ast::Empty(self.span())),
                    },
                ),
            )
        } else if self.bump_if("?") {
            proof {
                self.lemma_wf();
                lemma_flags_rest(self@.pattern, self@.index, Seq::empty());
            }
            let flags = self.parse_flags()?;
            if self.char() == ')' {
                let span = open_span.with_end(self.span_char().end);
                Ok(Either::Left(SetFlags { span, flags }))
            } else {
                self.bump();
                Ok(
                    Either::Right(
                        Group {
                            span: open_span,
                            kind: GroupKind::NonCapturing(flags),
                            ast: Box::new(Ast::Empty(self.span())),
                        },
                    ),
                )
            }
        } else {
            Ok(
                Either::Right(
                    Group {
                        span: open_span,
                        kind: GroupKind::CaptureIndex,
                        ast: Box::new(Ast::Empty(self.span())),
                    },
                ),
            )
        }
    }

    /// Parses a capture group name. Assumes that the parser is positioned at
    /// the first character in the name following the opening `<` (and may
    /// possibly be EOF). This advances the parser to the first character
    /// following the closing `>`.
    pub fn parse_capture_name(&mut self) -> (r: Result<CaptureName, Error>)
        requires
            old(self).wf(),
        ensures
            final(self).wf(),
            final(self)@ == old(self)@.at(capture_name(old(self)@.pattern, old(self)@.index).0),
            viewed(r) == capture_name(old(self)@.pattern, old(self)@.index).1,
    {
        proof {
            self.lemma_wf();
            lemma_capture_name(self@.pattern, self@.index);
        }
        let start = self.pos();
        let from = self.index;
        if !self.at_end() && is_capture_char(self.char(), true) {
            self.bump();
            self.bump_while(CharSet::Name);
        }
        if self.at_end() {
            return Err(Error { span: self.span(), kind: ErrorKind::GroupNameUnexpectedEof });
        }
        if self.char() != '>' {
            return Err(
                Error {
                    span: self.span_char(),
                    kind: ErrorKind::GroupNameInvalid { c: self.char() },
                },
            );
        }
        let end = self.pos();
        let to = self.index;
        self.bump();
        if from == to {
            return Err(Error { span: Span::new(start, start), kind: ErrorKind::GroupNameEmpty });
        }
        Ok(CaptureName { span: Span::new(start, end), name: self.substring(from, to) })
    }

    /// Parse a sequence of flags starting at the current character.
    ///
    /// This advances the parser to the character immediately following the
    /// flags, which is guaranteed to be either `:` or `)`.
    ///
    /// # Errors
    ///
    /// If any flags are duplicated, then an error is returned.
    ///
    /// If the negation operator is used more than once, then an error is
    /// returned.
    ///
    /// If no flags could be found where a group is not opened or if the
    /// negation operation is not followed by any flags, then an error is
    /// returned.
    pub fn parse_flags(&mut self) -> (r: Result<Flags, Error>)
        requires
            old(self).wf(),
        ensures
            final(self).wf(),
            final(self)@ == old(self)@.at(flags(old(self)@.pattern, old(self)@.index).0),
            viewed(r) == flags(old(self)@.pattern, old(self)@.index).1,
            r is Ok ==> !final(self)@.eof() && ends_flags(
                final(self)@.pattern[final(self)@.index],
            ),
    {
        let ghost p = self@.pattern;
        let ghost start = self@.index;
        proof {
            self.lemma_wf();
            lemma_flags_rest(p, start, Seq::empty());
        }
        let mut flags = Flags { span: self.span(), items: Vec::new() };
        while !self.at_end() && self.char() != ':' && self.char() != ')'
            invariant
                self.wf(),
                p == old(self)@.pattern,
                start == old(self)@.index,
                self@ == old(self)@.at(self@.index),
                flags.span == span_at(p, start),
                flags_rest(p, self@.index, flags.items@) == flags_rest(p, start, Seq::empty()),
            decreases p.len() - self@.index,
        {
            let negation = self.char() == '-';
            let kind = if negation {
                FlagsItemKind::Negation
            } else {
                FlagsItemKind::Flag(self.parse_flag()?)
            };
            let item = FlagsItem { span: self.span_char(), kind };
            if let Some(i) = flags.add_item(item) {
                let original = flags.items[i].span;
                let kind = if negation {
                    ErrorKind::FlagRepeatedNegation { original }
                } else {
                    ErrorKind::FlagDuplicate { flag: self.char(), original }
                };
                return Err(Error { span: self.span_char(), kind });
            }
            self.bump();
        }
        if self.at_end() {
            return Err(Error { span: self.span(), kind: ErrorKind::FlagUnexpectedEof });
        }
        if flags.items.len() == 0 {
            if self.char() == ')' {
                return Err(Error { span: self.span(), kind: ErrorKind::FlagMissing });
            }
        } else {
            let last = flags.items[flags.items.len() - 1];
            if last.kind == FlagsItemKind::Negation {
                return Err(Error { span: last.span, kind: ErrorKind::FlagDanglingNegation });
            }
        }
        flags.span.end = self.pos();
        Ok(flags)
    }

    /// Parse the current character as a flag. Do not advance the parser.
    ///
    /// # Errors
    ///
    /// If the flag is not recognized, then an error is returned.
    pub fn parse_flag(&self) -> (r: Result<Flag, Error>)
        requires
            self.wf(),
            !self@.eof(),
        ensures
            match flag_of(self@.pattern[self@.index]) {
                Some(flag) => r == Ok::<Flag, Error>(flag),
                None => r == Err::<Flag, Error>(
                    Error {
                        span: char_span_at(self@.pattern, self@.index),
                        kind: ErrorKind::FlagUnrecognized { flag: self@.pattern[self@.index] },
                    },
                ),
            },
    {
        match self.char() {
            'i' => Ok(Flag::CaseInsensitive),
            'm' => Ok(Flag::MultiLine),
            's' => Ok(Flag::DotMatchesNewLine),
            'U' => Ok(Flag::SwapGreed),
            'u' => Ok(Flag::Unicode),
            'x' => Ok(Flag::IgnoreWhitespace),
            c => Err(
                Error {
                    span: self.span_char(),
                    kind: ErrorKind::FlagUnrecognized { flag: c },
                },
            ),
        }
    }
}

} // verus!
