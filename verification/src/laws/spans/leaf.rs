//! The spans of primitives, numbers, flags and the openings of groups.

use either::Either;
use vstd::prelude::*;

use crate::ast::methods::{find_item, lemma_find_item};
use crate::ast::view::AstView;
use crate::ast::FlagsItem;
use crate::chars::{lemma_run_end, run_end, CharSet};
use crate::grammar::class::primitive_span;
use crate::grammar::escape::{class_item, escape, lemma_escape, primitive};
use crate::grammar::expr::{lemma_range, range};
use crate::grammar::group::{
    capture_name, flags, flags_item_kind, flags_rest, group_open, lemma_capture_name,
    lemma_flags_rest, lemma_group_prefixes,
};
use crate::grammar::number::{decimal, lemma_decimal};
use crate::grammar::space::{lemma_skip, Cursor};
use crate::laws::spans::{
    flags_placed, is_error, is_span, kind_placed, lemma_position, lemma_span, placed,
};
use crate::text::{char_span_at, fits, lemma_offset_monotone, offset_at, prefix_at, span_between};

verus! {

/// An escape sequence covers what it is made of.
pub proof fn lemma_escape_spans(p: Seq<char>, octal_on: bool, verbose: bool, i: int)
    requires
        fits(p),
        0 <= i < p.len(),
    ensures
        match escape(p, octal_on, verbose, i) {
            (end, Ok(prim)) => primitive_span(prim) == span_between(p, i, end),
            (end, Err(e)) => is_error(p, e),
        },
{
    broadcast use {lemma_span, lemma_position};

    reveal(escape);
    lemma_escape(p, octal_on, verbose, i);
    if i + 1 < p.len() {
        lemma_run_end(p, i + 1, CharSet::Octal);
        if i + 2 < p.len() {
            lemma_run_end(p, i + 2, CharSet::Hex);
            lemma_run_end(p, i + 3, CharSet::Hex);
            lemma_run_end(p, i + 3, CharSet::Except('}'));
        }
    }
}

/// A primitive covers what it is made of.
pub proof fn lemma_primitive_spans(p: Seq<char>, octal_on: bool, verbose: bool, i: int)
    requires
        fits(p),
        0 <= i < p.len(),
    ensures
        match primitive(p, octal_on, verbose, i) {
            (end, Ok(prim)) => primitive_span(prim) == span_between(p, i, end),
            (end, Err(e)) => is_error(p, e),
        },
        match class_item(p, octal_on, verbose, i) {
            (end, Ok(prim)) => primitive_span(prim) == span_between(p, i, end),
            (end, Err(e)) => is_error(p, e),
        },
{
    lemma_escape_spans(p, octal_on, verbose, i);
}

/// The error of a decimal number.
pub proof fn lemma_decimal_spans(p: Seq<char>, i: int)
    requires
        fits(p),
        0 <= i <= p.len(),
    ensures
        match decimal(p, i).1 {
            Ok(_) => true,
            Err(e) => is_error(p, e),
        },
{
    broadcast use lemma_span;

    let start = run_end(p, i, CharSet::Whitespace);
    lemma_run_end(p, i, CharSet::Whitespace);
    lemma_run_end(p, start, CharSet::Decimal);
}

/// The error of the bounds of a counted repetition.
pub proof fn lemma_range_spans(p: Seq<char>, i: int)
    requires
        fits(p),
        0 <= i < p.len(),
    ensures
        match range(p, i).1 {
            Ok(_) => true,
            Err(e) => is_error(p, e),
        },
{
    broadcast use lemma_span;

    lemma_range(p, i);
    if i + 1 < p.len() {
        lemma_decimal(p, i + 1);
        lemma_decimal_spans(p, i + 1);
        let j = decimal(p, i + 1).0;
        if j + 1 < p.len() {
            lemma_decimal(p, j + 1);
            lemma_decimal_spans(p, j + 1);
        }
    }
}

/// The span of each of a sequence of flags.
proof fn lemma_flags_item(p: Seq<char>, items: Seq<FlagsItem>, lo: int, hi: int, k: int)
    requires
        flags_placed(p, items, lo, hi),
        0 <= k < items.len(),
    ensures
        is_span(p, items[k].span),
    decreases items.len(),
{
    if k < items.len() - 1 {
        let front = items.drop_last();
        lemma_flags_item(p, front, lo, items.last().span.start.offset as int, k);
        assert(front[k] == items[k]);
    }
}

/// The flags that follow given ones stand behind them.
proof fn lemma_flags_rest_spans(p: Seq<char>, i: int, items: Seq<FlagsItem>, lo: int)
    requires
        fits(p),
        0 <= i <= p.len(),
        flags_placed(p, items, lo, offset_at(p, i) as int),
    ensures
        match flags_rest(p, i, items) {
            (end, Ok(items)) => flags_placed(p, items, lo, offset_at(p, end) as int),
            (end, Err(e)) => is_error(p, e),
        },
    decreases p.len() - i,
{
    broadcast use lemma_span;

    if i < p.len() {
        if items.len() > 0 {
            lemma_flags_item(p, items, lo, offset_at(p, i) as int, items.len() - 1);
        }
        match flags_item_kind(p[i]) {
            Some(kind) => {
                lemma_find_item(items, kind);
                match find_item(items, kind) {
                    Some(k) => {
                        lemma_flags_item(p, items, lo, offset_at(p, i) as int, k);
                    },
                    None => {
                        let item = FlagsItem { span: char_span_at(p, i), kind };
                        assert(items.push(item).drop_last() == items);
                        assert(items.push(item).last() == item);
                        lemma_flags_rest_spans(p, i + 1, items.push(item), lo);
                    },
                }
            },
            None => {},
        }
    }
}

/// A sequence of flags stands where it is written.
pub proof fn lemma_flags_spans(p: Seq<char>, i: int)
    requires
        fits(p),
        0 <= i <= p.len(),
    ensures
        match flags(p, i) {
            (end, Ok(flags)) => {
                &&& flags.span == span_between(p, i, end)
                &&& flags_placed(
                    p,
                    flags.items,
                    offset_at(p, i) as int,
                    offset_at(p, end) as int,
                )
            },
            (end, Err(e)) => is_error(p, e),
        },
{
    lemma_flags_rest_spans(p, i, Seq::empty(), offset_at(p, i) as int);
}

/// The name of a group stands before the `>` that closes it.
pub proof fn lemma_name_spans(p: Seq<char>, i: int)
    requires
        fits(p),
        0 <= i <= p.len(),
    ensures
        match capture_name(p, i) {
            (end, Ok(name)) => i < end && name.span == span_between(p, i, end - 1),
            (end, Err(e)) => is_error(p, e),
        },
{
    broadcast use lemma_span;

    lemma_capture_name(p, i);
}

/// The opening of a group covers its `(`, and its name or flags stand behind
/// that. A set of flags covers what it is made of.
pub proof fn lemma_group_spans(p: Seq<char>, verbose: bool, c: Cursor)
    requires
        fits(p),
        0 <= c.index < p.len(),
    ensures
        match group_open(p, verbose, c) {
            (c1, Ok(Either::Left(set))) => {
                &&& set.span == span_between(p, c.index, c1.index)
                &&& placed(p, AstView::Flags(set))
            },
            (c1, Ok(Either::Right(group))) => {
                &&& group.span == char_span_at(p, c.index)
                &&& kind_placed(
                    p,
                    group.kind,
                    offset_at(p, c.index) as int,
                    offset_at(p, c1.index) as int,
                )
            },
            (c1, Err(e)) => is_error(p, e),
        },
{
    broadcast use lemma_span;

    lemma_group_prefixes();
    let c1 = c.at(c.index + 1).skip(p, verbose);
    let j = c1.index;
    lemma_skip(p, c.at(c.index + 1), verbose);
    lemma_offset_monotone(p, c.index, j);
    if prefix_at(p, j, "?P<"@) {
        lemma_name_spans(p, j + 3);
        lemma_capture_name(p, j + 3);
        let end = capture_name(p, j + 3).0;
        lemma_offset_monotone(p, c.index, j + 3);
        lemma_offset_monotone(p, end - 1, end);
    }
    if prefix_at(p, j, "?"@) {
        lemma_flags_spans(p, j + 1);
        lemma_flags_rest(p, j + 1, Seq::empty());
        let end = flags(p, j + 1).0;
        lemma_offset_monotone(p, c.index, j + 1);
        lemma_offset_monotone(p, end, end + 1);
    }
}

} // verus!
