//! White space and comments.

use vstd::prelude::*;

use crate::ast::view::CommentView;
use crate::chars::{find_char, lemma_run_end, whitespace, CharSet};
use crate::text::span_between;

verus! {

/// A place in a text together with the comments found so far.
#[verifier::ext_equal]
pub struct Cursor {
    pub index: int,
    pub comments: Seq<CommentView>,
}

impl Cursor {
    /// The cursor at another index.
    pub open spec fn at(self, index: int) -> Cursor {
        Cursor { index, comments: self.comments }
    }

    /// The cursor behind white space and comments, which are skipped in
    /// verbose mode only.
    pub open spec fn skip(self, p: Seq<char>, verbose: bool) -> Cursor {
        if verbose {
            Cursor {
                index: skip_space(p, self.index),
                comments: self.comments + comments_from(p, self.index),
            }
        } else {
            self
        }
    }
}

/// The index behind the comment that starts at the given index. A line feed at
/// the end of a comment belongs to it.
pub open spec fn comment_end(p: Seq<char>, i: int) -> int {
    let end = find_char(p, i + 1, '\n');
    if end < p.len() {
        end + 1
    } else {
        end
    }
}

/// The comment that starts at the given index.
pub open spec fn comment_at(p: Seq<char>, i: int) -> CommentView {
    CommentView {
        span: span_between(p, i, comment_end(p, i)),
        comment: p.subrange(i + 1, find_char(p, i + 1, '\n')),
    }
}

/// The first index from `i` on that is behind white space and comments.
pub open spec fn skip_space(p: Seq<char>, i: int) -> int
    decreases p.len() - i,
{
    proof {
        if 0 <= i < p.len() {
            lemma_comment_end(p, i);
        }
    }
    if !(0 <= i < p.len()) {
        i
    } else if whitespace(p[i]) {
        skip_space(p, i + 1)
    } else if p[i] == '#' {
        skip_space(p, comment_end(p, i))
    } else {
        i
    }
}

/// The comments between the index `i` and the first index behind white space
/// and comments.
pub open spec fn comments_from(p: Seq<char>, i: int) -> Seq<CommentView>
    decreases p.len() - i,
{
    proof {
        if 0 <= i < p.len() {
            lemma_comment_end(p, i);
        }
    }
    if !(0 <= i < p.len()) {
        Seq::empty()
    } else if whitespace(p[i]) {
        comments_from(p, i + 1)
    } else if p[i] == '#' {
        seq![comment_at(p, i)] + comments_from(p, comment_end(p, i))
    } else {
        Seq::empty()
    }
}

/// A comment is not empty and lies in its text.
pub proof fn lemma_comment_end(p: Seq<char>, i: int)
    requires
        0 <= i < p.len(),
    ensures
        i < comment_end(p, i) <= p.len(),
        i < find_char(p, i + 1, '\n') <= comment_end(p, i),
{
    lemma_run_end(p, i + 1, CharSet::Except('\n'));
}

/// Skipping white space moves forward to what is neither white space nor the
/// start of a comment.
pub proof fn lemma_skip_space(p: Seq<char>, i: int)
    requires
        0 <= i <= p.len(),
    ensures
        i <= skip_space(p, i) <= p.len(),
        skip_space(p, i) < p.len() ==> {
            &&& !whitespace(p[skip_space(p, i)])
            &&& p[skip_space(p, i)] != '#'
        },
        skip_space(p, skip_space(p, i)) == skip_space(p, i),
        comments_from(p, skip_space(p, i)) == Seq::<CommentView>::empty(),
    decreases p.len() - i,
{
    if i < p.len() {
        lemma_comment_end(p, i);
        if whitespace(p[i]) {
            lemma_skip_space(p, i + 1);
        } else if p[i] == '#' {
            lemma_skip_space(p, comment_end(p, i));
        }
    }
}

/// A cursor that skips white space moves forward and stays in its text.
pub broadcast proof fn lemma_skip(p: Seq<char>, c: Cursor, verbose: bool)
    ensures
        0 <= c.index <= p.len() ==> c.index <= (#[trigger] c.skip(p, verbose)).index <= p.len(),
        !(0 <= c.index <= p.len()) ==> c.skip(p, verbose).index == c.index,
{
    if 0 <= c.index <= p.len() {
        lemma_skip_space(p, c.index);
    }
}

/// At the end of a text there is nothing to skip.
pub proof fn lemma_skip_at_end(p: Seq<char>, c: Cursor, verbose: bool)
    requires
        c.index >= p.len(),
    ensures
        c.skip(p, verbose) == c,
{
    assert(c.comments + comments_from(p, c.index) =~= c.comments);
}

} // verus!
