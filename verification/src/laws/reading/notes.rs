//! Where comments are read.

use vstd::prelude::*;

use crate::ast::methods::{class_set_item_span, class_span, union_push};
use crate::ast::view::{
    ClassSetItemView, ClassSetOpView, ClassSetUnionView, ClassSetView, ClassView, CommentView,
};
use crate::ast::Span;
use crate::chars::{find_char, lemma_run_end, whitespace, CharSet};
use crate::grammar::class::{
    apply_op, ascii_class, class, class_open, class_range, class_rest, class_step, empty_union,
    leading_dashes, lemma_class_open, lemma_class_rest, lemma_class_step, lemma_leading_dashes,
    union_push_class, ClassStep, LeftSide,
};
use crate::grammar::escape::{class_item, lemma_class_item, verbatim};
use crate::grammar::space::{comment_at, comments_from, lemma_skip, Cursor};
use crate::laws::reading::class::{
    ascii_at, base, class_reads, dashes_read, inside, item_reads, items_end, lemma_apply_reads,
    lemma_ascii_reads, lemma_dashes_read, lemma_item_so_far, lemma_open_reads, lemma_push,
    lemma_range_reads, lemma_rest_reads, lemma_step_reads, op_end, open_reads, plain, read_so_far,
};
use crate::laws::reading::leaf::{
    lemma_comment_is_line, lemma_past, lemma_primitive_reads, lemma_skip_index,
    lemma_verbatim_reads,
};
use crate::laws::reading::{hi, lemma_line_end, lemma_span_index, line_end, lo, past};
use crate::text::{fits, span_at, span_between};

verus! {

/// The comment at the given index: what stands behind its `#` up to the end of
/// the line. It reaches to the start of the next line.
pub open spec fn note(p: Seq<char>, i: int) -> CommentView {
    let end = line_end(p, i + 1);
    let stop = if p[end - 1] == '\n' {
        end - 1
    } else {
        end
    };
    CommentView { span: span_between(p, i, end), comment: p.subrange(i + 1, stop) }
}

/// The comments among the white space and comments from the given index on.
pub open spec fn blank_notes(p: Seq<char>, i: int) -> Seq<CommentView>
    decreases p.len() - i,
{
    proof {
        if 0 <= i < p.len() {
            lemma_line_end(p, i + 1);
        }
    }
    if !(0 <= i < p.len()) {
        seq![]
    } else if whitespace(p[i]) {
        blank_notes(p, i + 1)
    } else if p[i] == '#' {
        seq![note(p, i)] + blank_notes(p, line_end(p, i + 1))
    } else {
        seq![]
    }
}

/// The comments in the space that is skipped at the given index.
pub open spec fn gap(p: Seq<char>, i: int, verbose: bool) -> Seq<CommentView> {
    if verbose {
        blank_notes(p, i)
    } else {
        seq![]
    }
}

/// The comments in an item of a class.
pub open spec fn item_notes(p: Seq<char>, item: ClassSetItemView, verbose: bool) -> Seq<CommentView>
    decreases item,
{
    match item {
        ClassSetItemView::Range(x) => {
            let dash = past(p, hi(p, x.start.span), verbose);
            gap(p, hi(p, x.start.span), verbose) + gap(p, dash + 1, verbose)
        },
        ClassSetItemView::Class(x) => class_notes(p, *x, verbose),
        _ => seq![],
    }
}

/// The comments in items that start at the given index, and between them.
pub open spec fn members_notes(
    p: Seq<char>,
    items: Seq<ClassSetItemView>,
    i: int,
    verbose: bool,
) -> Seq<CommentView>
    decreases items,
{
    if items.len() == 0 {
        seq![]
    } else {
        let front = items.drop_last();
        members_notes(p, front, i, verbose) + gap(p, items_end(p, front, i), verbose) + item_notes(
            p,
            items.last(),
            verbose,
        )
    }
}

/// The comments in a set that starts at the given index.
pub open spec fn op_notes(p: Seq<char>, op: ClassSetOpView, i: int, verbose: bool) -> Seq<
    CommentView,
>
    decreases op,
{
    match op {
        ClassSetOpView::Union(x) => members_notes(p, x.items, i, verbose),
        ClassSetOpView::BinaryOp(x) => {
            let end = op_end(p, *x.lhs, i, verbose);
            op_notes(p, *x.lhs, i, verbose) + gap(p, end, verbose) + op_notes(
                p,
                *x.rhs,
                past(p, end, verbose) + 2,
                verbose,
            )
        },
    }
}

/// The comments behind the `[` of the class at the given index, and behind its
/// `^`, if it has one.
pub open spec fn open_notes(p: Seq<char>, open: int, negated: bool, verbose: bool) -> Seq<
    CommentView,
> {
    let more = if negated {
        gap(p, past(p, open + 1, verbose) + 1, verbose)
    } else {
        seq![]
    };
    gap(p, open + 1, verbose) + more
}

/// The comments in a class.
pub open spec fn class_notes(p: Seq<char>, class: ClassView, verbose: bool) -> Seq<CommentView>
    decreases class,
{
    match class {
        ClassView::Bracketed(x) => {
            let open = lo(p, x.span);
            let i = inside(p, open, verbose);
            open_notes(p, open, x.negated, verbose) + op_notes(p, x.op, i, verbose) + gap(
                p,
                op_end(p, x.op, i, verbose),
                verbose,
            )
        },
        _ => seq![],
    }
}

proof fn lemma_notes(p: Seq<char>, i: int)
    requires
        0 <= i <= p.len(),
    ensures
        comments_from(p, i) == blank_notes(p, i),
    decreases p.len() - i,
{
    if i < p.len() {
        lemma_line_end(p, i + 1);
        lemma_comment_is_line(p, i, i + 1);
        lemma_run_end(p, i + 1, CharSet::Except('\n'));
        if whitespace(p[i]) {
            lemma_notes(p, i + 1);
        } else if p[i] == '#' {
            let end = line_end(p, i + 1);
            let stop = find_char(p, i + 1, '\n');
            if stop >= p.len() && i + 1 < p.len() {
                assert(CharSet::Except('\n').has(p[stop - 1]));
            }
            assert(comment_at(p, i) == note(p, i));
            lemma_notes(p, end);
        }
    }
}

/// Skipped space adds its comments, and nothing of it is left behind it.
pub broadcast proof fn lemma_skip_notes(p: Seq<char>, c: Cursor, verbose: bool)
    requires
        0 <= c.index <= p.len(),
    ensures
        (#[trigger] c.skip(p, verbose)).comments == c.comments + gap(p, c.index, verbose),
{
    lemma_notes(p, c.index);
    assert(c.comments + Seq::<CommentView>::empty() =~= c.comments);
}

/// Nothing is skipped behind skipped space.
pub proof fn lemma_gap(p: Seq<char>, i: int, verbose: bool)
    requires
        0 <= i <= p.len(),
    ensures
        gap(p, past(p, i, verbose), verbose) == Seq::<CommentView>::empty(),
    decreases p.len() - i,
{
    if verbose && i < p.len() {
        lemma_line_end(p, i + 1);
        if whitespace(p[i]) {
            lemma_gap(p, i + 1, verbose);
        } else if p[i] == '#' {
            lemma_gap(p, line_end(p, i + 1), verbose);
        }
    }
}

proof fn lemma_members_push(
    p: Seq<char>,
    items: Seq<ClassSetItemView>,
    i: int,
    item: ClassSetItemView,
    verbose: bool,
)
    ensures
        members_notes(p, items.push(item), i, verbose) == members_notes(p, items, i, verbose)
            + gap(p, items_end(p, items, i), verbose) + item_notes(p, item, verbose),
        items_end(p, items.push(item), i) == hi(p, class_set_item_span(item)),
{
    assert(items.push(item).drop_last() =~= items);
    assert(items.push(item).last() == item);
}

proof fn lemma_dashes_notes(
    p: Seq<char>,
    verbose: bool,
    c: Cursor,
    union: ClassSetUnionView,
    i: int,
    before: Seq<CommentView>,
)
    requires
        fits(p),
        0 <= c.index <= p.len(),
        dashes_read(p, union, i, c, verbose),
        c.comments == before + members_notes(p, union.items, i, verbose) + gap(
            p,
            items_end(p, union.items, i),
            verbose,
        ),
    ensures
        ({
            let (c1, union1) = leading_dashes(p, verbose, c, union);
            c1.comments == before + members_notes(p, union1.items, i, verbose) + gap(
                p,
                items_end(p, union1.items, i),
                verbose,
            )
        }),
    decreases p.len() - c.index,
{
    broadcast use {lemma_span_index, lemma_skip_index, lemma_skip_notes};

    lemma_skip(p, c.at(c.index + 1), verbose);
    if c.index < p.len() && p[c.index] == '-' {
        let item = ClassSetItemView::Literal(verbatim(p, c.index));
        let next = union_push(union, item);
        let c1 = c.at(c.index + 1).skip(p, verbose);
        lemma_members_push(p, union.items, i, item, verbose);
        assert(dashes_read(p, next, i, c1, verbose)) by {
            lemma_verbatim_reads(p, c.index, verbose);
            lemma_push(p, union, i, item, verbose, true);
        }
        assert(item_notes(p, item, verbose) == Seq::<CommentView>::empty());
        assert(c1.comments =~= before + members_notes(p, next.items, i, verbose) + gap(
            p,
            items_end(p, next.items, i),
            verbose,
        ));
        lemma_dashes_notes(p, verbose, c1, next, i, before);
    }
}

/// The comments before the items that are to come next in a class.
pub open spec fn notes_so_far(
    p: Seq<char>,
    union: ClassSetUnionView,
    left: Option<LeftSide>,
    i: int,
    verbose: bool,
) -> Seq<CommentView> {
    let start = base(p, left, i, verbose);
    let before = match left {
        None => seq![],
        Some(left) => op_notes(p, left.lhs, i, verbose) + gap(
            p,
            op_end(p, left.lhs, i, verbose),
            verbose,
        ),
    };
    before + members_notes(p, union.items, start, verbose) + gap(
        p,
        items_end(p, union.items, start),
        verbose,
    )
}

proof fn lemma_open_notes(p: Seq<char>, verbose: bool, c: Cursor)
    requires
        fits(p),
        0 <= c.index < p.len(),
        p[c.index] == '[',
    ensures
        match class_open(p, verbose, c) {
            (c1, Ok((set, union))) => {
                let i = inside(p, c.index, verbose);
                &&& c1.comments + gap(p, c1.index, verbose) == c.comments + open_notes(
                    p,
                    c.index,
                    set.negated,
                    verbose,
                ) + notes_so_far(p, union, None, i, verbose)
            },
            _ => true,
        },
{
    broadcast use {lemma_skip, lemma_span_index, lemma_skip_index, lemma_skip_notes};

    lemma_class_open(p, verbose, c);
    let c1 = c.at(c.index + 1).skip(p, verbose);
    let negated = c1.index < p.len() && p[c1.index] == '^';
    let c2 = if negated {
        c1.at(c1.index + 1).skip(p, verbose)
    } else {
        c1
    };
    let i = c2.index;
    let before = c.comments + open_notes(p, c.index, negated, verbose);
    lemma_past(p, c.index + 1, verbose);
    lemma_gap(p, c.index + 1, verbose);
    if negated {
        lemma_past(p, c1.index + 1, verbose);
        lemma_gap(p, c1.index + 1, verbose);
    }
    assert(c2.comments =~= before);
    let union = ClassSetUnionView { span: span_at(p, c2.index), items: Seq::empty() };
    assert(c2.comments =~= before + members_notes(p, union.items, i, verbose) + gap(
        p,
        items_end(p, union.items, i),
        verbose,
    ));
    lemma_dashes_notes(p, verbose, c2, union, i, before);
    lemma_dashes_read(p, verbose, c2, union, i);
    lemma_leading_dashes(p, verbose, c2, union);
    let (c3, dashes) = leading_dashes(p, verbose, c2, union);
    lemma_open_reads(p, verbose, c);
    let item = ClassSetItemView::Literal(verbatim(p, c3.index));
    lemma_members_push(p, dashes.items, i, item, verbose);
    assert(item_notes(p, item, verbose) == Seq::<CommentView>::empty());
    match class_open(p, verbose, c) {
        (c4, Ok((set, all))) => {
            assert(c4.comments =~= before + members_notes(p, all.items, i, verbose) + gap(
                p,
                items_end(p, all.items, i),
                verbose,
            ));
            assert(gap(p, c4.index, verbose) =~= Seq::<CommentView>::empty()) by {
                if c4.index != c3.index {
                    lemma_gap(p, c3.index + 1, verbose);
                } else if dashes.items.len() > 0 {
                    assert(item_reads(p, dashes.items.last(), verbose));
                    lemma_gap(p, items_end(p, dashes.items, i), verbose);
                }
            }
            assert(c4.comments + gap(p, c4.index, verbose) =~= c.comments + open_notes(
                p,
                c.index,
                set.negated,
                verbose,
            ) + notes_so_far(p, all, None, i, verbose));
        },
        _ => {},
    }
}

proof fn lemma_range_notes(p: Seq<char>, octal_on: bool, verbose: bool, c: Cursor, open: Span)
    requires
        fits(p),
        0 <= c.index < p.len(),
        plain(p, c.index),
    ensures
        match class_range(p, octal_on, verbose, c, open) {
            (c1, Ok(item)) => c1.comments + gap(p, c1.index, verbose) == c.comments + item_notes(
                p,
                item,
                verbose,
            ) + gap(p, hi(p, class_set_item_span(item)), verbose),
            _ => true,
        },
{
    broadcast use {lemma_skip, lemma_span_index, lemma_skip_index, lemma_skip_notes};

    lemma_class_item(p, octal_on, verbose, c.index);
    lemma_primitive_reads(p, octal_on, verbose, c.index);
    let end = class_item(p, octal_on, verbose, c.index).0;
    let c1 = c.at(end).skip(p, verbose);
    let c2 = c1.at(c1.index + 1).skip(p, verbose);
    lemma_past(p, end, verbose);
    lemma_gap(p, end, verbose);
    match class_range(p, octal_on, verbose, c, open) {
        (c9, Ok(item)) => {
            if c1.index < p.len() && c2.index < p.len() {
                lemma_class_item(p, octal_on, verbose, c2.index);
                lemma_primitive_reads(p, octal_on, verbose, c2.index);
            }
            assert(c9.comments + gap(p, c9.index, verbose) =~= c.comments + item_notes(
                p,
                item,
                verbose,
            ) + gap(p, hi(p, class_set_item_span(item)), verbose));
        },
        _ => {},
    }
}

proof fn lemma_item_notes(
    p: Seq<char>,
    c: Cursor,
    union: ClassSetUnionView,
    left: Option<LeftSide>,
    i: int,
    verbose: bool,
    item: ClassSetItemView,
    c1: Cursor,
    before: Seq<CommentView>,
)
    requires
        c.comments + gap(p, c.index, verbose) == before + notes_so_far(p, union, left, i, verbose),
        c1.comments + gap(p, c1.index, verbose) == c.comments + gap(p, c.index, verbose)
            + item_notes(p, item, verbose) + gap(p, hi(p, class_set_item_span(item)), verbose),
    ensures
        c1.comments + gap(p, c1.index, verbose) == before + notes_so_far(
            p,
            union_push(union, item),
            left,
            i,
            verbose,
        ),
{
    let start = base(p, left, i, verbose);
    lemma_members_push(p, union.items, start, item, verbose);
    assert(c1.comments + gap(p, c1.index, verbose) =~= before + notes_so_far(
        p,
        union_push(union, item),
        left,
        i,
        verbose,
    ));
}

/// The comments of a set behind the left side of an operator.
proof fn lemma_apply_notes(
    p: Seq<char>,
    union: ClassSetUnionView,
    left: Option<LeftSide>,
    i: int,
    verbose: bool,
)
    ensures
        ({
            let op = apply_op(left, ClassSetOpView::Union(union));
            notes_so_far(p, union, left, i, verbose) == op_notes(p, op, i, verbose) + gap(
                p,
                op_end(p, op, i, verbose),
                verbose,
            )
        }),
{
    let rhs = ClassSetOpView::Union(union);
    let op = apply_op(left, rhs);
    let start = base(p, left, i, verbose);
    assert(op_notes(p, rhs, start, verbose) == members_notes(p, union.items, start, verbose));
    assert(op_end(p, rhs, start, verbose) == items_end(p, union.items, start));
    match left {
        None => {},
        Some(left) => {
            assert(op is BinaryOp);
            assert(op_end(p, op, i, verbose) == op_end(p, rhs, start, verbose));
        },
    }
    assert(notes_so_far(p, union, left, i, verbose) =~= op_notes(p, op, i, verbose) + gap(
        p,
        op_end(p, op, i, verbose),
        verbose,
    ));
}

#[verifier::rlimit(30)]
proof fn lemma_step_notes(
    p: Seq<char>,
    octal_on: bool,
    verbose: bool,
    c: Cursor,
    union: ClassSetUnionView,
    left: Option<LeftSide>,
    set: ClassSetView,
    i: int,
    before: Seq<CommentView>,
)
    requires
        fits(p),
        lo(p, set.span) < c.index <= p.len(),
        open_reads(p, set, i, verbose),
        read_so_far(p, c.index, union, left, i, verbose),
        c.comments + gap(p, c.index, verbose) == before + notes_so_far(p, union, left, i, verbose),
    ensures
        match class_step(p, octal_on, verbose, c, union, left, set) {
            (c1, ClassStep::Failed(e)) => true,
            (c1, ClassStep::Closed(class)) => {
                &&& class is Bracketed
                &&& class->Bracketed_0.negated == set.negated
                &&& c1.comments == before + op_notes(p, class->Bracketed_0.op, i, verbose) + gap(
                    p,
                    op_end(p, class->Bracketed_0.op, i, verbose),
                    verbose,
                )
            },
            (c1, ClassStep::Item(item)) => {
                c1.comments + gap(p, c1.index, verbose) == before + notes_so_far(
                    p,
                    union_push(union, item),
                    left,
                    i,
                    verbose,
                )
            },
            (c1, ClassStep::Operator(op)) => {
                c1.comments + gap(p, c1.index, verbose) == before + notes_so_far(
                    p,
                    empty_union(p, c1.index),
                    Some(op),
                    i,
                    verbose,
                )
            },
            (c1, ClassStep::Nested(nested_set, nested_union)) => {
                let open = past(p, c.index, verbose);
                c1.comments + gap(p, c1.index, verbose) == c.comments + gap(p, c.index, verbose)
                    + open_notes(p, open, nested_set.negated, verbose) + notes_so_far(
                    p,
                    nested_union,
                    None,
                    inside(p, open, verbose),
                    verbose,
                )
            },
        },
{
    broadcast use {lemma_span_index, lemma_skip_index, lemma_skip_notes};

    lemma_step_reads(p, octal_on, verbose, c, union, left, set, i);
    lemma_class_step(p, octal_on, verbose, c, union, left, set);
    reveal(class_step);
    lemma_skip(p, c, verbose);
    let c1 = c.skip(p, verbose);
    let j = c1.index;
    lemma_past(p, c.index, verbose);
    lemma_gap(p, c.index, verbose);
    lemma_apply_notes(p, union, left, i, verbose);
    if j < p.len() {
        if p[j] == '[' {
            match ascii_class(p, j) {
                Some((end, cls)) => {
                    let item = ClassSetItemView::Ascii(cls);
                    let c2 = c1.at(end);
                    lemma_ascii_reads(p, j);
                    assert(item_notes(p, item, verbose) == Seq::<CommentView>::empty());
                    assert(c2.comments + gap(p, c2.index, verbose) =~= c.comments + gap(
                        p,
                        c.index,
                        verbose,
                    ) + item_notes(p, item, verbose) + gap(
                        p,
                        hi(p, class_set_item_span(item)),
                        verbose,
                    ));
                    lemma_item_notes(p, c, union, left, i, verbose, item, c2, before);
                },
                None => {
                    lemma_open_notes(p, verbose, c1);
                },
            }
        } else if p[j] == ']' {
            let class = class_step(p, octal_on, verbose, c, union, left, set).1->Closed_0;
            assert(c1.comments =~= before + op_notes(p, class->Bracketed_0.op, i, verbose) + gap(
                p,
                op_end(p, class->Bracketed_0.op, i, verbose),
                verbose,
            ));
        } else if plain(p, j) {
            lemma_range_reads(p, octal_on, verbose, c1, set.span);
            lemma_range_notes(p, octal_on, verbose, c1, set.span);
            match class_range(p, octal_on, verbose, c1, set.span) {
                (c2, Ok(item)) => {
                    lemma_item_notes(p, c, union, left, i, verbose, item, c2, before);
                },
                _ => {},
            }
        } else {
            match class_step(p, octal_on, verbose, c, union, left, set) {
                (c2, ClassStep::Operator(op)) => {
                    let none = empty_union(p, c2.index);
                    lemma_apply_reads(
                        p,
                        c,
                        union,
                        left,
                        i,
                        verbose,
                    );
                    assert(base(p, Some(op), i, verbose) == c2.index);
                    assert(members_notes(p, none.items, c2.index, verbose)
                        == Seq::<CommentView>::empty());
                    assert(c2.comments + gap(p, c2.index, verbose) =~= before + notes_so_far(
                        p,
                        none,
                        Some(op),
                        i,
                        verbose,
                    ));
                },
                _ => {},
            }
        }
    }
}

/// The comments of a class that is read behind the given ones.
proof fn lemma_closed_notes(
    p: Seq<char>,
    class: ClassView,
    open: int,
    verbose: bool,
    before: Seq<CommentView>,
    all: Seq<CommentView>,
)
    requires
        class is Bracketed,
        lo(p, class->Bracketed_0.span) == open,
        ({
            let op = class->Bracketed_0.op;
            let i = inside(p, open, verbose);
            all == before + open_notes(p, open, class->Bracketed_0.negated, verbose) + op_notes(
                p,
                op,
                i,
                verbose,
            ) + gap(p, op_end(p, op, i, verbose), verbose)
        }),
    ensures
        all == before + class_notes(p, class, verbose),
{
    assert(all =~= before + class_notes(p, class, verbose));
}

/// A class behind other items of a class.
proof fn lemma_nested_notes(
    p: Seq<char>,
    c: Cursor,
    union: ClassSetUnionView,
    left: Option<LeftSide>,
    i: int,
    verbose: bool,
    class: ClassView,
    c1: Cursor,
    before: Seq<CommentView>,
)
    requires
        fits(p),
        0 <= c.index <= p.len(),
        read_so_far(p, c.index, union, left, i, verbose),
        past(p, c.index, verbose) < c1.index <= p.len(),
        p[past(p, c.index, verbose)] == '[',
        !ascii_at(p, past(p, c.index, verbose)),
        class is Bracketed,
        class_reads(p, class, verbose),
        class_span(class) == span_between(p, past(p, c.index, verbose), c1.index),
        c.comments + gap(p, c.index, verbose) == before + notes_so_far(p, union, left, i, verbose),
        c1.comments == c.comments + gap(p, c.index, verbose) + class_notes(p, class, verbose),
    ensures
        read_so_far(p, c1.index, union_push_class(union, class), left, i, verbose),
        c1.comments + gap(p, c1.index, verbose) == before + notes_so_far(
            p,
            union_push_class(union, class),
            left,
            i,
            verbose,
        ),
{
    let item = ClassSetItemView::Class(Box::new(class));
    lemma_past(p, c.index, verbose);
    lemma_span_index(p, past(p, c.index, verbose), c1.index);
    assert(item_reads(p, item, verbose));
    lemma_item_so_far(p, c, union, left, i, verbose, item, c1);
    assert(item_notes(p, item, verbose) == class_notes(p, class, verbose));
    lemma_item_notes(p, c, union, left, i, verbose, item, c1, before);
}

proof fn lemma_rest_notes(
    p: Seq<char>,
    octal_on: bool,
    verbose: bool,
    c: Cursor,
    union: ClassSetUnionView,
    left: Option<LeftSide>,
    set: ClassSetView,
    i: int,
    before: Seq<CommentView>,
)
    requires
        fits(p),
        lo(p, set.span) < c.index <= p.len(),
        open_reads(p, set, i, verbose),
        read_so_far(p, c.index, union, left, i, verbose),
        c.comments + gap(p, c.index, verbose) == before + notes_so_far(p, union, left, i, verbose),
    ensures
        match class_rest(p, octal_on, verbose, c, union, left, set) {
            (c1, Ok(class)) => {
                &&& class is Bracketed
                &&& class->Bracketed_0.negated == set.negated
                &&& c1.comments == before + op_notes(p, class->Bracketed_0.op, i, verbose) + gap(
                    p,
                    op_end(p, class->Bracketed_0.op, i, verbose),
                    verbose,
                )
            },
            _ => true,
        },
    decreases p.len() - c.index,
{
    broadcast use lemma_span_index;

    lemma_class_step(p, octal_on, verbose, c, union, left, set);
    lemma_step_reads(p, octal_on, verbose, c, union, left, set, i);
    lemma_step_notes(p, octal_on, verbose, c, union, left, set, i, before);
    match class_step(p, octal_on, verbose, c, union, left, set) {
        (c1, ClassStep::Failed(e)) => {},
        (c1, ClassStep::Closed(class)) => {},
        (c1, ClassStep::Item(item)) => {
            let next = union_push(union, item);
            lemma_rest_notes(p, octal_on, verbose, c1, next, left, set, i, before);
        },
        (c1, ClassStep::Operator(op)) => {
            let none = empty_union(p, c1.index);
            lemma_rest_notes(p, octal_on, verbose, c1, none, Some(op), set, i, before);
        },
        (c1, ClassStep::Nested(nested_set, nested_union)) => {
            let open = past(p, c.index, verbose);
            let j = inside(p, open, verbose);
            let so_far = c.comments + gap(p, c.index, verbose) + open_notes(
                p,
                open,
                nested_set.negated,
                verbose,
            );
            lemma_past(p, c.index, verbose);
            lemma_rest_reads(p, octal_on, verbose, c1, nested_union, None, nested_set, j);
            lemma_rest_notes(p, octal_on, verbose, c1, nested_union, None, nested_set, j, so_far);
            lemma_class_rest(p, octal_on, verbose, c1, nested_union, None, nested_set);
            match class_rest(p, octal_on, verbose, c1, nested_union, None, nested_set) {
                (c2, Err(e)) => {},
                (c2, Ok(class)) => {
                    let here = c.comments + gap(p, c.index, verbose);
                    lemma_closed_notes(p, class, open, verbose, here, c2.comments);
                    lemma_nested_notes(p, c, union, left, i, verbose, class, c2, before);
                    lemma_rest_notes(
                        p,
                        octal_on,
                        verbose,
                        c2,
                        union_push_class(union, class),
                        left,
                        set,
                        i,
                        before,
                    );
                },
            }
        },
    }
}

/// A class adds its comments.
pub proof fn lemma_class_notes(p: Seq<char>, octal_on: bool, verbose: bool, c: Cursor)
    requires
        fits(p),
        0 <= c.index < p.len(),
        p[c.index] == '[',
    ensures
        match class(p, octal_on, verbose, c) {
            (c1, Ok(class)) => c1.comments == c.comments + class_notes(p, class, verbose),
            _ => true,
        },
{
    broadcast use lemma_span_index;

    lemma_class_open(p, verbose, c);
    lemma_open_reads(p, verbose, c);
    lemma_open_notes(p, verbose, c);
    match class_open(p, verbose, c) {
        (c1, Err(e)) => {},
        (c1, Ok((set, union))) => {
            let i = inside(p, c.index, verbose);
            let before = c.comments + open_notes(p, c.index, set.negated, verbose);
            lemma_rest_reads(p, octal_on, verbose, c1, union, None, set, i);
            lemma_rest_notes(p, octal_on, verbose, c1, union, None, set, i, before);
            match class_rest(p, octal_on, verbose, c1, union, None, set) {
                (c2, Ok(class)) => {
                    lemma_closed_notes(p, class, c.index, verbose, c.comments, c2.comments);
                },
                _ => {},
            }
        },
    }
}

} // verus!
