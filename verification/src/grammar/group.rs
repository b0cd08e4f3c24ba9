//! The openings of groups, and flags.

use either::Either;
use vstd::prelude::*;

use crate::ast::methods::find_item;
use crate::ast::view::{
    AstView, CaptureNameView, FlagsView, GroupKindView, GroupView, SetFlagsView,
};
use crate::ast::{Error, ErrorKind, Flag, FlagsItem, FlagsItemKind};
use crate::chars::{capture_char, lemma_run_end, run_end, CharSet};
use crate::grammar::fail;
use crate::grammar::space::{lemma_skip, Cursor};
use crate::text::{char_span_at, prefix_at, span_at, span_between};

verus! {

/// The index behind the characters of a group name.
pub open spec fn name_end(p: Seq<char>, i: int) -> int {
    if i < p.len() && capture_char(p[i], true) {
        run_end(p, i + 1, CharSet::Name)
    } else {
        i
    }
}

/// The name of a capture group, from its first character on. It ends behind
/// the `>` that closes it.
pub open spec fn capture_name(p: Seq<char>, i: int) -> (int, Result<CaptureNameView, Error>) {
    let end = name_end(p, i);
    if end >= p.len() {
        (end, fail(span_at(p, end), ErrorKind::GroupNameUnexpectedEof))
    } else if p[end] != '>' {
        (end, fail(char_span_at(p, end), ErrorKind::GroupNameInvalid { c: p[end] }))
    } else if end == i {
        (end + 1, fail(span_at(p, i), ErrorKind::GroupNameEmpty))
    } else {
        (
            end + 1,
            Ok(CaptureNameView { span: span_between(p, i, end), name: p.subrange(i, end) }),
        )
    }
}

/// The flag that a letter stands for.
pub open spec fn flag_of(c: char) -> Option<Flag> {
    match c {
        'i' => Some(Flag::CaseInsensitive),
        'm' => Some(Flag::MultiLine),
        's' => Some(Flag::DotMatchesNewLine),
        'U' => Some(Flag::SwapGreed),
        'u' => Some(Flag::Unicode),
        'x' => Some(Flag::IgnoreWhitespace),
        _ => None,
    }
}

/// The item of a sequence of flags that a character stands for.
pub open spec fn flags_item_kind(c: char) -> Option<FlagsItemKind> {
    if c == '-' {
        Some(FlagsItemKind::Negation)
    } else {
        match flag_of(c) {
            Some(flag) => Some(FlagsItemKind::Flag(flag)),
            None => None,
        }
    }
}

/// A character that ends a sequence of flags.
pub open spec fn ends_flags(c: char) -> bool {
    c == ':' || c == ')'
}

/// The rest of a sequence of flags, behind the given items. It ends at a `:` or
/// a `)`. No item may stand twice, the last item may not be a negation, and
/// before a `)` there is at least one item.
pub open spec fn flags_rest(p: Seq<char>, i: int, items: Seq<FlagsItem>) -> (int, Result<
    Seq<FlagsItem>,
    Error,
>)
    decreases p.len() - i,
{
    if i >= p.len() {
        (i, fail(span_at(p, i), ErrorKind::FlagUnexpectedEof))
    } else if ends_flags(p[i]) {
        if items.len() > 0 && items.last().kind == FlagsItemKind::Negation {
            (i, fail(items.last().span, ErrorKind::FlagDanglingNegation))
        } else if items.len() == 0 && p[i] == ')' {
            (i, fail(span_at(p, i), ErrorKind::FlagMissing))
        } else {
            (i, Ok(items))
        }
    } else {
        let span = char_span_at(p, i);
        match flags_item_kind(p[i]) {
            None => (i, fail(span, ErrorKind::FlagUnrecognized { flag: p[i] })),
            Some(kind) => match find_item(items, kind) {
                None => flags_rest(p, i + 1, items.push(FlagsItem { span, kind })),
                Some(k) => {
                    let original = items[k].span;
                    if p[i] == '-' {
                        (i, fail(span, ErrorKind::FlagRepeatedNegation { original }))
                    } else {
                        (i, fail(span, ErrorKind::FlagDuplicate { flag: p[i], original }))
                    }
                },
            },
        }
    }
}

/// A sequence of flags.
pub open spec fn flags(p: Seq<char>, i: int) -> (int, Result<FlagsView, Error>) {
    match flags_rest(p, i, Seq::empty()) {
        (end, Err(e)) => (end, Err(e)),
        (end, Ok(items)) => (end, Ok(FlagsView { span: span_between(p, i, end), items })),
    }
}

/// The index behind a look-around prefix, if there is one.
pub open spec fn lookaround_end(p: Seq<char>, i: int) -> Option<int> {
    if prefix_at(p, i, "?="@) || prefix_at(p, i, "?!"@) {
        Some(i + 2)
    } else if prefix_at(p, i, "?<="@) || prefix_at(p, i, "?<!"@) {
        Some(i + 3)
    } else {
        None
    }
}

/// The characters of the texts that can follow the `(` of a group.
pub proof fn lemma_group_prefixes()
    ensures
        "?="@ == seq!['?', '='],
        "?!"@ == seq!['?', '!'],
        "?<="@ == seq!['?', '<', '='],
        "?<!"@ == seq!['?', '<', '!'],
        "?P<"@ == seq!['?', 'P', '<'],
        "?"@ == seq!['?'],
{
    reveal_strlit("?=");
    reveal_strlit("?!");
    reveal_strlit("?<=");
    reveal_strlit("?<!");
    reveal_strlit("?P<");
    reveal_strlit("?");
}

/// The opening of a group, whose tree is then still empty, or a set of flags,
/// from the `(` on.
pub open spec fn group_open(p: Seq<char>, verbose: bool, c: Cursor) -> (Cursor, Result<
    Either<SetFlagsView, GroupView>,
    Error,
>) {
    let i = c.index;
    let c1 = c.at(i + 1).skip(p, verbose);
    let j = c1.index;
    if lookaround_end(p, j) is Some {
        let end = lookaround_end(p, j)->0;
        (c1.at(end), fail(span_between(p, i, end), ErrorKind::UnsupportedLookAround))
    } else if prefix_at(p, j, "?P<"@) {
        match capture_name(p, j + 3) {
            (end, Err(e)) => (c1.at(end), Err(e)),
            (end, Ok(name)) => (
                c1.at(end),
                Ok(
                    Either::Right(
                        GroupView {
                            span: char_span_at(p, i),
                            kind: GroupKindView::CaptureName(name),
                            ast: Box::new(AstView::Empty(span_at(p, end))),
                        },
                    ),
                ),
            ),
        }
    } else if prefix_at(p, j, "?"@) {
        match flags(p, j + 1) {
            (end, Err(e)) => (c1.at(end), Err(e)),
            (end, Ok(flags)) => if p[end] == ')' {
                (
                    c1.at(end + 1),
                    Ok(Either::Left(SetFlagsView { span: span_between(p, i, end + 1), flags })),
                )
            } else {
                (
                    c1.at(end + 1),
                    Ok(
                        Either::Right(
                            GroupView {
                                span: char_span_at(p, i),
                                kind: GroupKindView::NonCapturing(flags),
                                ast: Box::new(AstView::Empty(span_at(p, end + 1))),
                            },
                        ),
                    ),
                )
            },
        }
    } else {
        (
            c1,
            Ok(
                Either::Right(
                    GroupView {
                        span: char_span_at(p, i),
                        kind: GroupKindView::CaptureIndex,
                        ast: Box::new(AstView::Empty(span_at(p, j))),
                    },
                ),
            ),
        )
    }
}

/// The name of a group moves forward in its text.
pub proof fn lemma_capture_name(p: Seq<char>, i: int)
    requires
        0 <= i <= p.len(),
    ensures
        i <= name_end(p, i) <= p.len(),
        i <= capture_name(p, i).0 <= p.len(),
{
    if i < p.len() {
        lemma_run_end(p, i + 1, CharSet::Name);
    }
}

/// A sequence of flags moves forward in its text. Where it is well-formed it
/// ends at a `:` or a `)`.
pub proof fn lemma_flags_rest(p: Seq<char>, i: int, items: Seq<FlagsItem>)
    requires
        0 <= i <= p.len(),
    ensures
        i <= flags_rest(p, i, items).0 <= p.len(),
        flags_rest(p, i, items).1 is Ok ==> {
            &&& flags_rest(p, i, items).0 < p.len()
            &&& ends_flags(p[flags_rest(p, i, items).0])
        },
    decreases p.len() - i,
{
    if i < p.len() && !ends_flags(p[i]) {
        match flags_item_kind(p[i]) {
            None => {},
            Some(kind) => {
                lemma_flags_rest(
                    p,
                    i + 1,
                    items.push(FlagsItem { span: char_span_at(p, i), kind }),
                );
            },
        }
    }
}

/// The opening of a group moves the cursor forward in its text.
pub proof fn lemma_group_open(p: Seq<char>, verbose: bool, c: Cursor)
    requires
        0 <= c.index < p.len(),
    ensures
        c.index < group_open(p, verbose, c).0.index <= p.len(),
{
    lemma_group_prefixes();
    let c1 = c.at(c.index + 1).skip(p, verbose);
    let j = c1.index;
    lemma_skip(p, c.at(c.index + 1), verbose);
    if prefix_at(p, j, "?P<"@) {
        lemma_capture_name(p, j + 3);
    }
    if prefix_at(p, j, "?"@) {
        lemma_flags_rest(p, j + 1, Seq::empty());
    }
}

} // verus!
