//! Flags, names of groups and what looks like one of them.

use vstd::prelude::*;

use crate::ast::methods::{find_item, flag_state, lemma_find_item, lemma_find_item_unique};
use crate::ast::view::{CaptureNameView, FlagsView, GroupKindView};
use crate::ast::{ErrorKind, Flag, FlagsItem, FlagsItemKind};
use crate::chars::{capture_char, decimal_digit, lemma_run_end, CharSet};
use crate::grammar::escape::{escape, PrimitiveView};
use crate::grammar::expr::{verbose_after, verbose_in};
use crate::grammar::fail;
use crate::grammar::group::{
    capture_name, flags, flags_item_kind, flags_rest, lemma_group_prefixes, lookaround_end,
};
use crate::text::{char_span_at, prefix_at, span_between};

verus! {

/// No item occurs twice.
pub open spec fn distinct(items: Seq<FlagsItem>) -> bool {
    forall|i: int, j: int|
        0 <= i < j < items.len() ==> (#[trigger] items[i]).kind != (#[trigger] items[j]).kind
}

/// Well-formed flags behind given ones are distinct if those are.
proof fn lemma_distinct(p: Seq<char>, i: int, items: Seq<FlagsItem>)
    requires
        distinct(items),
    ensures
        match flags_rest(p, i, items).1 {
            Ok(items) => distinct(items) && (items.len() > 0 ==> items.last().kind
                != FlagsItemKind::Negation),
            Err(_) => true,
        },
    decreases p.len() - i,
{
    if i < p.len() {
        match flags_item_kind(p[i]) {
            Some(kind) => {
                lemma_find_item(items, kind);
                let next = items.push(FlagsItem { span: char_span_at(p, i), kind });
                if find_item(items, kind) is None {
                    assert(distinct(next));
                    lemma_distinct(p, i + 1, next);
                }
            },
            None => {},
        }
    }
}

/// In a well-formed sequence of flags no flag is given twice, there is at most
/// one negation, and every negation is followed by a flag.
pub proof fn law_flags_are_distinct(p: Seq<char>, i: int)
    ensures
        match flags(p, i).1 {
            Ok(flags) => {
                &&& distinct(flags.items)
                &&& flags.items.len() > 0 ==> flags.items.last().kind != FlagsItemKind::Negation
            },
            Err(_) => true,
        },
{
    lemma_distinct(p, i, Seq::empty());
}

/// A group or a set of flags that starts with a look-around prefix is not
/// well-formed by the rules on flags and names either: reporting look-around
/// takes nothing away from the patterns that are accepted.
pub proof fn law_lookaround_is_otherwise_invalid(p: Seq<char>, i: int)
    requires
        0 <= i,
        lookaround_end(p, i) is Some,
    ensures
        prefix_at(p, i, "?"@),
        !prefix_at(p, i, "?P<"@),
        flags(p, i + 1).1 is Err,
{
    lemma_group_prefixes();
    let n: int = if prefix_at(p, i, "?="@) || prefix_at(p, i, "?!"@) {
        2
    } else {
        3
    };
    let prefix = p.subrange(i, i + n);
    assert(p[i] == prefix[0]);
    assert(p[i + 1] == prefix[1]);
    assert(p.subrange(i, i + 1) == "?"@);
    if prefix_at(p, i, "?P<"@) {
        assert(p.subrange(i, i + 3)[1] == 'P');
    }
    assert(flags_item_kind(p[i + 1]) is None);
}

/// The name of a capture group is not empty, and each of its characters may
/// stand in a name.
pub proof fn law_capture_names_are_valid(p: Seq<char>, i: int)
    requires
        0 <= i <= p.len(),
    ensures
        match capture_name(p, i).1 {
            Ok(name) => {
                &&& name.name.len() > 0
                &&& forall|k: int|
                    0 <= k < name.name.len() ==> capture_char(#[trigger] name.name[k], k == 0)
            },
            Err(_) => true,
        },
{
    if i < p.len() {
        lemma_run_end(p, i + 1, CharSet::Name);
    }
    match capture_name(p, i).1 {
        Ok(name) => {
            assert forall|k: int| 0 <= k < name.name.len() implies capture_char(
                #[trigger] name.name[k],
                k == 0,
            ) by {
                assert(name.name[k] == p[i + k]);
                if k > 0 {
                    assert(CharSet::Name.has(p[i + k]));
                }
            }
        },
        Err(_) => {},
    }
}

/// Where octal literals are not supported, every escaped digit is reported as a
/// backreference.
pub proof fn law_escaped_digit_is_backreference(p: Seq<char>, verbose: bool, i: int)
    requires
        0 <= i,
        i + 1 < p.len(),
        decimal_digit(p[i + 1]),
    ensures
        escape(p, false, verbose, i).1 == fail::<PrimitiveView>(
            span_between(p, i, i + 2),
            ErrorKind::UnsupportedBackreference,
        ),
{
    reveal(escape);
}

/// The item at the index `k` is the given flag, and the first that is.
pub open spec fn first_is(items: Seq<FlagsItem>, flag: Flag, k: int) -> bool {
    &&& 0 <= k < items.len()
    &&& items[k].kind == FlagsItemKind::Flag(flag)
    &&& forall|j: int| 0 <= j < k ==> (#[trigger] items[j]).kind != FlagsItemKind::Flag(flag)
}

/// The state of a flag: none where no item is that flag, and otherwise set if no
/// negation stands before the first item that is.
pub proof fn law_state_of_a_flag(items: Seq<FlagsItem>, flag: Flag)
    ensures
        flag_state(items, flag) is None <==> forall|k: int|
            0 <= k < items.len() ==> (#[trigger] items[k]).kind != FlagsItemKind::Flag(flag),
        forall|k: int|
            #[trigger] first_is(items, flag, k) ==> flag_state(items, flag) == Some(
                forall|j: int|
                    0 <= j < k ==> (#[trigger] items[j]).kind != FlagsItemKind::Negation,
            ),
{
    let kind = FlagsItemKind::Flag(flag);
    lemma_find_item(items, kind);
    assert forall|k: int| #[trigger] first_is(items, flag, k) implies flag_state(items, flag)
        == Some(
        forall|j: int| 0 <= j < k ==> (#[trigger] items[j]).kind != FlagsItemKind::Negation,
    ) by {
        let front = items.take(k);
        lemma_find_item_unique(items, kind, k);
        lemma_find_item(front, FlagsItemKind::Negation);
        assert(forall|j: int| 0 <= j < k ==> #[trigger] items[j] == front[j]);
        match find_item(front, FlagsItemKind::Negation) {
            Some(n) => {
                assert(items[n].kind == FlagsItemKind::Negation);
            },
            None => {
                assert forall|j: int| 0 <= j < k implies (#[trigger] items[j]).kind
                    != FlagsItemKind::Negation by {
                    assert(front[j].kind != FlagsItemKind::Negation);
                }
            },
        }
    }
}

/// A set of flags without the flag `x` leaves verbose mode as it was, and so does
/// a group that is opened with such flags or with none. With the flag `x`, the
/// mode behind the set of flags, and in the group, is on if and only if no
/// negation stands before that flag.
pub proof fn law_flags_and_verbose_mode(flags: FlagsView, verbose: bool)
    ensures
        ({
            let items = flags.items;
            let without = forall|k: int|
                0 <= k < items.len() ==> (#[trigger] items[k]).kind != FlagsItemKind::Flag(
                    Flag::IgnoreWhitespace,
                );
            let inside = verbose_in(GroupKindView::NonCapturing(flags), verbose);
            &&& without ==> verbose_after(items, verbose) == verbose && inside == verbose
            &&& forall|k: int|
                #[trigger] first_is(items, Flag::IgnoreWhitespace, k) ==> {
                    let on = forall|j: int|
                        0 <= j < k ==> (#[trigger] items[j]).kind != FlagsItemKind::Negation;
                    verbose_after(items, verbose) == on && inside == on
                }
        }),
        verbose_in(GroupKindView::CaptureIndex, verbose) == verbose,
        forall|name: CaptureNameView|
            #[trigger] verbose_in(GroupKindView::CaptureName(name), verbose) == verbose,
{
    law_state_of_a_flag(flags.items, Flag::IgnoreWhitespace);
}

} // verus!
