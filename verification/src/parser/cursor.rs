//! Moving through a pattern.

use vstd::prelude::*;
use vstd::string::StrSliceExecFns;

use crate::ast::view::group_view;
use crate::ast::{Comment, Position, Span};
use crate::chars::{is_whitespace, lemma_run_end_from, run_end, CharSet};
use crate::grammar::group::{lemma_group_prefixes, lookaround_end};
use crate::grammar::space::{
    comment_at, comment_end, comments_from, lemma_comment_end, lemma_skip_at_end, skip_space,
};
use crate::parser::ParserI;
use crate::text::{
    char_len_utf8, char_span_at, lemma_line_column_bound, lemma_offset_monotone, offset_at,
    position_at, prefix_at, span_at,
};

verus! {

broadcast use group_view;

impl ParserI {
    /// Return the current offset of the parser.
    ///
    /// The offset starts at `0` from the beginning of the regular expression
    /// pattern string.
    pub fn offset(&self) -> (r: usize)
        requires
            self.wf(),
        ensures
            r == position_at(self@.pattern, self@.index).offset,
    {
        self.pos.offset
    }

    /// Return the current line number of the parser.
    ///
    /// The line number starts at `1`.
    pub fn line(&self) -> (r: usize)
        requires
            self.wf(),
        ensures
            r == position_at(self@.pattern, self@.index).line,
    {
        self.pos.line
    }

    /// Return the current column of the parser.
    ///
    /// The column number starts at `1` and is reset whenever a `\n` is seen.
    pub fn column(&self) -> (r: usize)
        requires
            self.wf(),
        ensures
            r == position_at(self@.pattern, self@.index).column,
    {
        self.pos.column
    }

    /// Return whether the parser should ignore whitespace or not.
    pub fn ignore_space(&self) -> (r: bool)
        ensures
            r == self@.verbose,
    {
        self.ignore_space
    }

    /// Return the character at the current position of the parser.
    pub fn char(&self) -> (r: char)
        requires
            self.wf(),
            !self@.eof(),
        ensures
            r == self@.pattern[self@.index],
    {
        self.chars[self.index]
    }

    /// Return the character at the given index.
    pub fn char_of(&self, i: usize) -> (r: char)
        requires
            self.wf(),
            i < self@.pattern.len(),
        ensures
            r == self@.pattern[i as int],
    {
        self.chars[i]
    }

    /// Return the character at the given position, which is the offset of a
    /// character.
    pub fn char_at(&self, i: usize) -> (r: char)
        requires
            self.wf(),
            exists|k: int|
                0 <= k < self@.pattern.len() && #[trigger] offset_at(self@.pattern, k) == i,
        ensures
            forall|k: int|
                0 <= k < self@.pattern.len() && #[trigger] offset_at(self@.pattern, k) == i ==> r
                    == self@.pattern[k],
    {
        let ghost p = self@.pattern;
        let ghost at = choose|k: int| 0 <= k < p.len() && #[trigger] offset_at(p, k) == i;
        let mut k: usize = 0;
        let mut offset: usize = 0;
        while offset < i
            invariant
                self.wf(),
                p == self@.pattern,
                0 <= k <= at < p.len(),
                offset == offset_at(p, k as int),
                offset_at(p, at) == i,
            decreases at - k,
        {
            proof {
                lemma_offset_monotone(p, k + 1, at);
            }
            offset = offset + char_len_utf8(self.chars[k]);
            k = k + 1;
        }
        proof {
            lemma_offset_monotone(p, k as int, at);
            assert forall|j: int| 0 <= j < p.len() && #[trigger] offset_at(p, j) == i implies j
                == at by {
                if j < at {
                    lemma_offset_monotone(p, j, at);
                } else {
                    lemma_offset_monotone(p, at, j);
                }
            }
        }
        self.chars[k]
    }

    /// Return the position behind the current character.
    fn next_pos(&self) -> (r: Position)
        requires
            self.wf(),
            !self@.eof(),
        ensures
            r == position_at(self@.pattern, self@.index + 1),
    {
        let ghost p = self.pattern@;
        proof {
            lemma_offset_monotone(p, self.index + 1, p.len() as int);
            lemma_line_column_bound(p, self.index as int);
            lemma_line_column_bound(p, self.index + 1);
        }
        let c = self.char();
        if c == '\n' {
            Position::new(self.pos.offset + char_len_utf8(c), self.pos.line + 1, 1)
        } else {
            Position::new(self.pos.offset + char_len_utf8(c), self.pos.line, self.pos.column + 1)
        }
    }

    /// Bump the parser to the next Unicode scalar value.
    ///
    /// If the end of the input has been reached, then `false` is returned.
    pub fn bump(&mut self) -> (r: bool)
        requires
            old(self).wf(),
        ensures
            final(self).wf(),
            final(self)@ == if old(self)@.eof() {
                old(self)@
            } else {
                old(self)@.at(old(self)@.index + 1)
            },
            r == !final(self)@.eof(),
    {
        if self.at_end() {
            return false;
        }
        self.pos = self.next_pos();
        self.index = self.index + 1;
        !self.at_end()
    }

    /// Bump the parser over all characters of the given set that follow.
    pub fn bump_while(&mut self, set: CharSet)
        requires
            old(self).wf(),
        ensures
            final(self).wf(),
            final(self)@ == old(self)@.at(run_end(old(self)@.pattern, old(self)@.index, set)),
    {
        let ghost start = self@;
        while !self.at_end() && set.contains(self.char())
            invariant
                self.wf(),
                start.index <= self@.index <= start.pattern.len(),
                self@ == start.at(self@.index),
                forall|k: int|
                    start.index <= k < self@.index ==> set.has(#[trigger] start.pattern[k]),
            decreases start.pattern.len() - self@.index,
        {
            self.bump();
        }
        proof {
            lemma_run_end_from(start.pattern, start.index, self@.index, set);
        }
    }

    /// If the substring starting at the current position of the parser has
    /// the given prefix, then bump the parser to the character immediately
    /// following the prefix and return true. Otherwise, don't bump the parser
    /// and return false.
    pub fn bump_if(&mut self, prefix: &str) -> (r: bool)
        requires
            old(self).wf(),
        ensures
            final(self).wf(),
            r == prefix_at(old(self)@.pattern, old(self)@.index, prefix@),
            final(self)@ == if r {
                old(self)@.at(old(self)@.index + prefix@.len())
            } else {
                old(self)@
            },
    {
        let n: usize = prefix.unicode_len();
        let ghost start = self@;
        if n > self.chars.len() - self.index {
            return false;
        }
        let mut k: usize = 0;
        while k < n
            invariant
                self.wf(),
                self@ == start,
                n == prefix@.len(),
                k <= n <= start.pattern.len() - start.index,
                forall|j: int|
                    0 <= j < k ==> start.pattern[start.index + j] == #[trigger] prefix@[j],
            decreases n - k,
        {
            if self.chars[self.index + k] != prefix.get_char(k) {
                assert(start.pattern.subrange(start.index, start.index + n)[k as int]
                    != prefix@[k as int]);
                return false;
            }
            k = k + 1;
        }
        assert(start.pattern.subrange(start.index, start.index + n) == prefix@);
        let mut k: usize = 0;
        while k < n
            invariant
                self.wf(),
                self@ == start.at(start.index + k),
                k <= n <= start.pattern.len() - start.index,
            decreases n - k,
        {
            self.bump();
            k = k + 1;
        }
        true
    }

    /// Returns true if and only if the parser is positioned at a look-around
    /// prefix, and then moves the parser behind it. The conditions under which
    /// this returns true must always correspond to a regular expression that
    /// would otherwise be consider invalid.
    ///
    /// This should only be called immediately after parsing the opening of
    /// a group or a set of flags.
    pub fn is_lookaround_prefix(&mut self) -> (r: bool)
        requires
            old(self).wf(),
        ensures
            final(self).wf(),
            match lookaround_end(old(self)@.pattern, old(self)@.index) {
                Some(end) => r && final(self)@ == old(self)@.at(end),
                None => !r && final(self)@ == old(self)@,
            },
    {
        proof {
            lemma_group_prefixes();
        }
        self.bump_if("?=") || self.bump_if("?!") || self.bump_if("?<=") || self.bump_if("?<!")
    }

    /// Bump the parser, and if the `x` flag is enabled, bump through any
    /// subsequent spaces. Return true if and only if the parser is not at
    /// EOF.
    pub fn bump_and_bump_space(&mut self) -> (r: bool)
        requires
            old(self).wf(),
        ensures
            final(self).wf(),
            final(self)@ == if old(self)@.eof() {
                old(self)@
            } else {
                old(self)@.with(
                    old(self)@.cursor().at(old(self)@.index + 1).skip(
                        old(self)@.pattern,
                        old(self)@.verbose,
                    ),
                )
            },
            r == !final(self)@.eof(),
    {
        if !self.bump() {
            proof {
                lemma_skip_at_end(self@.pattern, self@.cursor(), self@.verbose);
            }
            return false;
        }
        self.bump_space();
        !self.at_end()
    }

    /// If the `x` flag is enabled (i.e., whitespace insensitivity with
    /// comments), then this will advance the parser through all whitespace
    /// and comments to the next non-whitespace non-comment byte.
    ///
    /// If the `x` flag is disabled, then this is a no-op.
    ///
    /// This should be used selectively throughout the parser where
    /// arbitrary whitespace is permitted when the `x` flag is enabled. For
    /// example, `{   5  , 6}` is equivalent to `{5,6}`, but
    /// `\p{G r e e k}` is not equivalent to `\p{Greek}`.
    pub fn bump_space(&mut self)
        requires
            old(self).wf(),
        ensures
            final(self).wf(),
            final(self)@ == old(self)@.with(
                old(self)@.cursor().skip(old(self)@.pattern, old(self)@.verbose),
            ),
    {
        if !self.ignore_space() {
            return ;
        }
        let ghost start = self@;
        let ghost p = start.pattern;
        while !self.at_end() && (is_whitespace(self.char()) || self.char() == '#')
            invariant
                self.wf(),
                p == start.pattern,
                start.index <= self@.index <= p.len(),
                self@ == start.with(self@.cursor()),
                skip_space(p, self@.index) == skip_space(p, start.index),
                self@.comments + comments_from(p, self@.index) =~= start.comments + comments_from(
                    p,
                    start.index,
                ),
            decreases p.len() - self@.index,
        {
            if self.char() == '#' {
                proof {
                    lemma_comment_end(p, self@.index);
                }
                self.bump_comment();
            } else {
                self.bump();
            }
        }
        assert(comments_from(p, self@.index) =~= Seq::empty());
        assert(self@.comments =~= start.comments + comments_from(p, start.index));
    }

    /// Bump the parser over the comment that starts at the current character,
    /// and add it to the comments found so far.
    fn bump_comment(&mut self)
        requires
            old(self).wf(),
            old(self)@.looks_at('#'),
        ensures
            final(self).wf(),
            final(self)@.index == comment_end(old(self)@.pattern, old(self)@.index),
            final(self)@.comments == old(self)@.comments.push(
                comment_at(old(self)@.pattern, old(self)@.index),
            ),
            final(self)@ == old(self)@.with(final(self)@.cursor()),
    {
        let ghost p = self@.pattern;
        proof {
            lemma_comment_end(p, self@.index);
        }
        let start = self.pos();
        self.bump();
        let from = self.index;
        self.bump_while(CharSet::Except('\n'));
        let text = self.substring(from, self.index);
        self.bump();
        let comment = Comment { span: Span::new(start, self.pos()), comment: text };
        self.comments.push(comment);
    }

    /// Return the part of the pattern between two indices.
    pub fn substring(&self, from: usize, to: usize) -> (r: String)
        requires
            self.wf(),
            from <= to <= self@.pattern.len(),
        ensures
            r@ == self@.pattern.subrange(from as int, to as int),
    {
        self.pattern.as_str().substring_char(from, to).to_string()
    }

    /// Peek at the next character in the input without advancing the parser.
    ///
    /// If the input has been exhausted, then this returns `None`.
    pub fn peek(&self) -> (r: Option<char>)
        requires
            self.wf(),
        ensures
            r == if self@.index + 1 < self@.pattern.len() {
                Some(self@.pattern[self@.index + 1])
            } else {
                None
            },
    {
        if self.is_eof() {
            None
        } else {
            Some(self.chars[self.index + 1])
        }
    }

    /// Returns true if the next call to `bump` would return false.
    ///
    /// This holds at the end of the input and at its last character.
    pub fn is_eof(&self) -> (r: bool)
        requires
            self.wf(),
        ensures
            r == (self@.index + 1 >= self@.pattern.len()),
    {
        self.at_end() || self.index + 1 == self.chars.len()
    }

    /// Returns true if the end of the input has been reached, so that there is
    /// no current character.
    pub fn at_end(&self) -> (r: bool)
        requires
            self.wf(),
        ensures
            r == self@.eof(),
    {
        self.index == self.chars.len()
    }

    /// Return the current position of the parser, which includes the offset,
    /// line and column.
    pub fn pos(&self) -> (r: Position)
        requires
            self.wf(),
        ensures
            r == position_at(self@.pattern, self@.index),
    {
        self.pos
    }

    /// Create a span at the current position of the parser. Both the start
    /// and end of the span are set.
    pub fn span(&self) -> (r: Span)
        requires
            self.wf(),
        ensures
            r == span_at(self@.pattern, self@.index),
    {
        Span::splat(self.pos())
    }

    /// Create a span that covers the current character.
    pub fn span_char(&self) -> (r: Span)
        requires
            self.wf(),
            !self@.eof(),
        ensures
            r == char_span_at(self@.pattern, self@.index),
    {
        Span::new(self.pos(), self.next_pos())
    }
}

} // verus!
