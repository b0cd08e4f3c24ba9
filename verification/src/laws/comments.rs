//! Comments.

use vstd::prelude::*;

use crate::ast::methods::union_push;
use crate::ast::view::{
    AlternationView, ClassSetItemView, ClassSetUnionView, ClassSetView, CommentView, ConcatView,
};
use crate::ast::Span;
use crate::chars::whitespace;
use crate::grammar::class::{
    class, class_open, class_range, class_rest, class_step, empty_union, leading_dashes,
    lemma_ascii_class, lemma_class_open, lemma_class_rest, lemma_class_step, lemma_leading_dashes,
    union_push_class, ClassStep, LeftSide,
};
use crate::grammar::escape::{class_item, lemma_class_item, lemma_primitive, verbatim};
use crate::grammar::expr::{
    add_branch, close_group, concat_push, empty_concat, expr, item, lemma_expr, lemma_part,
    lemma_range, parse, part, range, repetition_kind, verbose_in, ExprEnd, Part,
};
use crate::grammar::group::{group_open, lemma_capture_name, lemma_flags_rest, lemma_group_prefixes};
use crate::grammar::space::{
    comment_at, comment_end, comments_from, lemma_comment_end, lemma_skip, skip_space, Cursor,
};
use crate::grammar::Options;
use crate::laws::verbose::{
    end_tree, lemma_expr_verbose, lemma_none_push, lemma_part_verbose, never_verbose,
};
use crate::text::{prefix_at, span_at};

verus! {

/// A property of cursors that is kept when a cursor moves forward and when it
/// skips space.
pub open spec fn kept(p: Seq<char>, verbose: bool, inv: spec_fn(Cursor) -> bool) -> bool {
    &&& forall|c: Cursor, j: int|
        inv(c) && 0 <= c.index <= j <= p.len() ==> inv(#[trigger] c.at(j))
    &&& forall|c: Cursor|
        inv(c) && 0 <= c.index <= p.len() ==> inv(#[trigger] c.skip(p, verbose))
}

proof fn lemma_dashes_keep(
    p: Seq<char>,
    verbose: bool,
    c: Cursor,
    union: ClassSetUnionView,
    inv: spec_fn(Cursor) -> bool,
)
    requires
        0 <= c.index <= p.len(),
        kept(p, verbose, inv),
        inv(c),
    ensures
        inv(leading_dashes(p, verbose, c, union).0),
    decreases p.len() - c.index,
{
    lemma_skip(p, c.at(c.index + 1), verbose);
    if c.index < p.len() && p[c.index] == '-' {
        lemma_dashes_keep(
            p,
            verbose,
            c.at(c.index + 1).skip(p, verbose),
            union_push(union, ClassSetItemView::Literal(verbatim(p, c.index))),
            inv,
        );
    }
}

proof fn lemma_open_keeps(
    p: Seq<char>,
    verbose: bool,
    c: Cursor,
    inv: spec_fn(Cursor) -> bool,
)
    requires
        0 <= c.index < p.len(),
        kept(p, verbose, inv),
        inv(c),
    ensures
        inv(class_open(p, verbose, c).0),
{
    broadcast use lemma_skip;

    let c1 = c.at(c.index + 1).skip(p, verbose);
    let negated = c1.index < p.len() && p[c1.index] == '^';
    let c2 = if negated {
        c1.at(c1.index + 1).skip(p, verbose)
    } else {
        c1
    };
    let union = ClassSetUnionView { span: span_at(p, c2.index), items: Seq::empty() };
    lemma_dashes_keep(p, verbose, c2, union, inv);
    lemma_leading_dashes(p, verbose, c2, union);
}

proof fn lemma_range_keeps(
    p: Seq<char>,
    octal_on: bool,
    verbose: bool,
    c: Cursor,
    open: Span,
    inv: spec_fn(Cursor) -> bool,
)
    requires
        0 <= c.index < p.len(),
        kept(p, verbose, inv),
        inv(c),
    ensures
        inv(class_range(p, octal_on, verbose, c, open).0),
{
    broadcast use lemma_skip;

    lemma_class_item(p, octal_on, verbose, c.index);
    let c1 = c.at(class_item(p, octal_on, verbose, c.index).0).skip(p, verbose);
    let c2 = c1.at(c1.index + 1).skip(p, verbose);
    if c1.index < p.len() && c2.index < p.len() {
        lemma_class_item(p, octal_on, verbose, c2.index);
    }
}

proof fn lemma_step_keeps(
    p: Seq<char>,
    octal_on: bool,
    verbose: bool,
    c: Cursor,
    union: ClassSetUnionView,
    left: Option<LeftSide>,
    set: ClassSetView,
    inv: spec_fn(Cursor) -> bool,
)
    requires
        0 <= c.index <= p.len(),
        kept(p, verbose, inv),
        inv(c),
    ensures
        inv(class_step(p, octal_on, verbose, c, union, left, set).0),
{
    reveal(class_step);
    let c1 = c.skip(p, verbose);
    lemma_skip(p, c, verbose);
    if c1.index < p.len() {
        if p[c1.index] == '[' {
            lemma_ascii_class(p, c1.index);
            lemma_open_keeps(p, verbose, c1, inv);
        } else {
            lemma_range_keeps(p, octal_on, verbose, c1, set.span, inv);
        }
    }
}

proof fn lemma_rest_keeps(
    p: Seq<char>,
    octal_on: bool,
    verbose: bool,
    c: Cursor,
    union: ClassSetUnionView,
    left: Option<LeftSide>,
    set: ClassSetView,
    inv: spec_fn(Cursor) -> bool,
)
    requires
        0 <= c.index <= p.len(),
        kept(p, verbose, inv),
        inv(c),
    ensures
        inv(class_rest(p, octal_on, verbose, c, union, left, set).0),
    decreases p.len() - c.index,
{
    lemma_class_step(p, octal_on, verbose, c, union, left, set);
    lemma_step_keeps(p, octal_on, verbose, c, union, left, set, inv);
    match class_step(p, octal_on, verbose, c, union, left, set) {
        (c1, ClassStep::Failed(e)) => {},
        (c1, ClassStep::Closed(class)) => {},
        (c1, ClassStep::Item(item)) => {
            lemma_rest_keeps(p, octal_on, verbose, c1, union_push(union, item), left, set, inv);
        },
        (c1, ClassStep::Operator(op)) => {
            lemma_rest_keeps(
                p,
                octal_on,
                verbose,
                c1,
                empty_union(p, c1.index),
                Some(op),
                set,
                inv,
            );
        },
        (c1, ClassStep::Nested(nested_set, nested_union)) => {
            lemma_rest_keeps(p, octal_on, verbose, c1, nested_union, None, nested_set, inv);
            lemma_class_rest(p, octal_on, verbose, c1, nested_union, None, nested_set);
            match class_rest(p, octal_on, verbose, c1, nested_union, None, nested_set) {
                (c2, Err(e)) => {},
                (c2, Ok(class)) => {
                    lemma_rest_keeps(
                        p,
                        octal_on,
                        verbose,
                        c2,
                        union_push_class(union, class),
                        left,
                        set,
                        inv,
                    );
                },
            }
        },
    }
}

proof fn lemma_group_keeps(
    p: Seq<char>,
    verbose: bool,
    c: Cursor,
    inv: spec_fn(Cursor) -> bool,
)
    requires
        0 <= c.index < p.len(),
        kept(p, verbose, inv),
        inv(c),
    ensures
        inv(group_open(p, verbose, c).0),
{
    lemma_group_prefixes();
    let c1 = c.at(c.index + 1).skip(p, verbose);
    let j = c1.index;
    lemma_skip(p, c.at(c.index + 1), verbose);
    if prefix_at(p, j, "?P<"@) {
        lemma_capture_name(p, j + 3);
    }
    if prefix_at(p, j, "?"@) {
        lemma_flags_rest(p, j + 1, Seq::empty());
    }
}

proof fn lemma_item_keeps(
    p: Seq<char>,
    octal_on: bool,
    verbose: bool,
    c: Cursor,
    concat: ConcatView,
    inv: spec_fn(Cursor) -> bool,
)
    requires
        0 <= c.index < p.len(),
        kept(p, verbose, inv),
        inv(c),
    ensures
        inv(item(p, octal_on, verbose, c, concat).0),
{
    if repetition_kind(p[c.index]) is None {
        if p[c.index] == '{' {
            lemma_range(p, c.index);
            lemma_skip(p, c.at(range(p, c.index).0 + 1), verbose);
        } else if p[c.index] == '[' {
            lemma_class_open(p, verbose, c);
            lemma_open_keeps(p, verbose, c, inv);
            match class_open(p, verbose, c) {
                (c1, Err(e)) => {},
                (c1, Ok((set, union))) => {
                    lemma_rest_keeps(p, octal_on, verbose, c1, union, None, set, inv);
                },
            }
        } else {
            lemma_primitive(p, octal_on, verbose, c.index);
        }
    }
}

proof fn lemma_part_keeps(
    p: Seq<char>,
    octal_on: bool,
    verbose: bool,
    c: Cursor,
    concat: ConcatView,
    inv: spec_fn(Cursor) -> bool,
)
    requires
        0 <= c.index < p.len(),
        kept(p, verbose, inv),
        inv(c),
    ensures
        inv(part(p, octal_on, verbose, c, concat).0),
{
    reveal(part);
    if p[c.index] == '(' {
        lemma_group_keeps(p, verbose, c, inv);
    } else {
        lemma_item_keeps(p, octal_on, verbose, c, concat, inv);
    }
}

/// An expression that is well-formed and does not turn verbose mode on.
spec fn stays_off(
    p: Seq<char>,
    octal_on: bool,
    verbose: bool,
    c: Cursor,
    concat: ConcatView,
    alt: Option<AlternationView>,
) -> bool {
    match expr(p, octal_on, verbose, c, concat, alt).1 {
        Ok(end) => !verbose && never_verbose(end_tree(end)),
        Err(_) => false,
    }
}

proof fn lemma_expr_keeps(
    p: Seq<char>,
    octal_on: bool,
    verbose: bool,
    c: Cursor,
    concat: ConcatView,
    alt: Option<AlternationView>,
    inv: spec_fn(Cursor) -> bool,
)
    requires
        0 <= c.index <= p.len(),
        kept(p, false, inv),
        kept(p, true, inv) || stays_off(p, octal_on, verbose, c, concat, alt),
        inv(c),
    ensures
        inv(expr(p, octal_on, verbose, c, concat, alt).0),
    decreases p.len() - c.index,
{
    let c1 = c.skip(p, verbose);
    lemma_skip(p, c, verbose);
    if c1.index < p.len() {
        lemma_part(p, octal_on, verbose, c1, concat);
        lemma_part_keeps(p, octal_on, verbose, c1, concat, inv);
        match part(p, octal_on, verbose, c1, concat) {
            (c2, Part::Failed(e)) => {},
            (c2, Part::Close) => {},
            (c2, Part::Bar) => {
                lemma_expr_keeps(
                    p,
                    octal_on,
                    verbose,
                    c2,
                    empty_concat(p, c2.index),
                    Some(add_branch(p, c1.index, concat, alt)),
                    inv,
                );
            },
            (c2, Part::More(more, next)) => {
                lemma_part_verbose(p, octal_on, verbose, c1, concat);
                lemma_expr_verbose(p, octal_on, more, c2, next, alt);
                lemma_expr_keeps(p, octal_on, more, c2, next, alt, inv);
            },
            (c2, Part::Open(group)) => {
                let inner = verbose_in(group.kind, verbose);
                let start = empty_concat(p, c2.index);
                lemma_expr(p, octal_on, inner, c2, start, None);
                match expr(p, octal_on, inner, c2, start, None) {
                    (c3, Ok(ExprEnd::Paren(ast))) => {
                        let whole = close_group(p, c3.index, group, ast);
                        let next = concat_push(concat, whole);
                        let c4 = c3.at(c3.index + 1);
                        lemma_none_push(concat.asts, whole);
                        lemma_expr_verbose(p, octal_on, verbose, c4, next, alt);
                        lemma_expr_keeps(p, octal_on, inner, c2, start, None, inv);
                        lemma_expr_keeps(p, octal_on, verbose, c4, next, alt, inv);
                    },
                    _ => {
                        lemma_expr_keeps(p, octal_on, inner, c2, start, None, inv);
                    },
                }
            },
        }
    }
}

/// The comments start at the given indices of a text, each at a `#`, and each
/// behind the end of the one before it. All end at the index `end` at the
/// latest.
pub open spec fn comments_at(
    p: Seq<char>,
    comments: Seq<CommentView>,
    starts: Seq<int>,
    end: int,
) -> bool {
    &&& starts.len() == comments.len()
    &&& forall|k: int|
        0 <= k < starts.len() ==> {
            &&& 0 <= #[trigger] starts[k] < p.len()
            &&& p[starts[k]] == '#'
            &&& comments[k] == comment_at(p, starts[k])
            &&& comment_end(p, starts[k]) <= end
        }
    &&& forall|j: int, k: int|
        0 <= j < k < starts.len() ==> comment_end(p, #[trigger] starts[j]) <= #[trigger] starts[k]
}

/// The comments stand one behind the other in a text, up to the index `end`.
pub open spec fn comments_in_order(p: Seq<char>, comments: Seq<CommentView>, end: int) -> bool {
    exists|starts: Seq<int>| comments_at(p, comments, starts, end)
}

/// The comments that are skipped stand behind those that were found before.
proof fn lemma_skipped_in_order(p: Seq<char>, comments: Seq<CommentView>, i: int)
    requires
        0 <= i <= p.len(),
        comments_in_order(p, comments, i),
    ensures
        comments_in_order(p, comments + comments_from(p, i), skip_space(p, i)),
    decreases p.len() - i,
{
    if i < p.len() && whitespace(p[i]) {
        let starts = choose|starts: Seq<int>| comments_at(p, comments, starts, i);
        assert(comments_at(p, comments, starts, i + 1));
        lemma_skipped_in_order(p, comments, i + 1);
    } else if i < p.len() && p[i] == '#' {
        let starts = choose|starts: Seq<int>| comments_at(p, comments, starts, i);
        let more = comments.push(comment_at(p, i));
        lemma_comment_end(p, i);
        assert(comments_at(p, more, starts.push(i), comment_end(p, i)));
        lemma_skipped_in_order(p, more, comment_end(p, i));
        assert(more + comments_from(p, comment_end(p, i)) =~= comments + comments_from(p, i));
    } else {
        assert(comments + comments_from(p, i) =~= comments);
    }
}

proof fn lemma_kept_in_order(p: Seq<char>, verbose: bool)
    ensures
        kept(p, verbose, |c: Cursor| comments_in_order(p, c.comments, c.index)),
{
    let inv = |c: Cursor| comments_in_order(p, c.comments, c.index);
    assert forall|c: Cursor, j: int|
        inv(c) && 0 <= c.index <= j <= p.len() implies inv(#[trigger] c.at(j)) by {
        let starts = choose|starts: Seq<int>| comments_at(p, c.comments, starts, c.index);
        assert(comments_at(p, c.comments, starts, j));
    }
    assert forall|c: Cursor| inv(c) && 0 <= c.index <= p.len() implies inv(
        #[trigger] c.skip(p, verbose),
    ) by {
        lemma_skipped_in_order(p, c.comments, c.index);
    }
}

/// The comments that are returned with a tree stand in the pattern in the order
/// in which they are returned. Each starts with a `#`, and its text is what
/// stands between the `#` and the end of the line.
pub proof fn law_comments_are_in_order(p: Seq<char>, options: Options)
    ensures
        match parse(p, options) {
            Ok(x) => comments_in_order(p, x.comments, p.len() as int),
            Err(_) => true,
        },
{
    let inv = |c: Cursor| comments_in_order(p, c.comments, c.index);
    let start = Cursor { index: 0, comments: Seq::empty() };
    lemma_kept_in_order(p, true);
    lemma_kept_in_order(p, false);
    assert(comments_at(p, start.comments, Seq::empty(), 0));
    assert(inv(start));
    let verbose = options.ignore_space;
    lemma_expr_keeps(p, options.octal, verbose, start, empty_concat(p, 0), None, inv);
    lemma_expr(p, options.octal, verbose, start, empty_concat(p, 0), None);
}

/// Outside of verbose mode there are no comments: a `#` stands for itself where
/// verbose mode is neither on from the start nor turned on by flags in the
/// pattern.
pub proof fn law_no_comments_outside_verbose_mode(p: Seq<char>, options: Options)
    requires
        !options.ignore_space,
    ensures
        match parse(p, options) {
            Ok(x) => never_verbose(x.ast) ==> x.comments == Seq::<CommentView>::empty(),
            Err(_) => true,
        },
{
    let inv = |c: Cursor| c.comments.len() == 0;
    let start = Cursor { index: 0, comments: Seq::empty() };
    assert(kept(p, false, inv));
    assert(inv(start));
    match parse(p, options) {
        Ok(x) => {
            if never_verbose(x.ast) {
                lemma_expr_keeps(p, options.octal, false, start, empty_concat(p, 0), None, inv);
                assert(x.comments =~= Seq::empty());
            }
        },
        Err(_) => {},
    }
}

} // verus!
