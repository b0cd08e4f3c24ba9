//! Character classes in brackets.

use vstd::prelude::*;

use crate::ast::methods::{ascii_kind_of_name, class_set_op_span, union_push};
use crate::ast::view::{
    ClassSetBinaryOpView, ClassSetItemView, ClassSetOpView, ClassSetUnionView, ClassSetView,
    ClassView,
};
use crate::ast::{
    ClassAscii, ClassSetBinaryOpKind, ClassSetRange, Error, ErrorKind, Literal, Span,
};
use crate::chars::{find_char, lemma_run_end, CharSet};
use crate::grammar::escape::{class_item, lemma_class_item, verbatim, PrimitiveView};
use crate::grammar::fail;
use crate::grammar::space::{lemma_skip, Cursor};
use crate::text::{position_at, span_at, span_between};

verus! {

/// The span of a primitive.
pub open spec fn primitive_span(prim: PrimitiveView) -> Span {
    match prim {
        PrimitiveView::Literal(x) => x.span,
        PrimitiveView::Assertion(x) => x.span,
        PrimitiveView::Dot(span) => span,
        PrimitiveView::Perl(x) => x.span,
        PrimitiveView::Unicode(x) => x.span,
    }
}

/// A primitive as an item of a bracketed class, where it is a legal one.
pub open spec fn into_class_set_item(prim: PrimitiveView) -> Result<ClassSetItemView, Error> {
    match prim {
        PrimitiveView::Literal(lit) => Ok(ClassSetItemView::Literal(lit)),
        PrimitiveView::Perl(cls) => Ok(ClassSetItemView::Class(Box::new(ClassView::Perl(cls)))),
        PrimitiveView::Unicode(cls) => Ok(
            ClassSetItemView::Class(Box::new(ClassView::Unicode(cls))),
        ),
        _ => fail(primitive_span(prim), ErrorKind::ClassIllegal),
    }
}

/// A primitive as an end of a range, where it is a legal one.
pub open spec fn into_class_literal(prim: PrimitiveView) -> Result<Literal, Error> {
    match prim {
        PrimitiveView::Literal(lit) => Ok(lit),
        _ => fail(primitive_span(prim), ErrorKind::ClassIllegal),
    }
}

/// An ASCII class, from its `[` on, with the index behind it.
pub open spec fn ascii_class(p: Seq<char>, i: int) -> Option<(int, ClassAscii)> {
    let negated = i + 2 < p.len() && p[i + 2] == '^';
    let start = if negated {
        i + 3
    } else {
        i + 2
    };
    let end = find_char(p, start, ':');
    if start < p.len() && p[i + 1] == ':' && end + 1 < p.len() && p[end + 1] == ']' {
        match ascii_kind_of_name(p.subrange(start, end)) {
            Some(kind) => Some(
                (end + 2, ClassAscii { span: span_between(p, i, end + 2), kind, negated }),
            ),
            None => None,
        }
    } else {
        None
    }
}

/// The literal dashes at the start of a bracketed class.
pub open spec fn leading_dashes(
    p: Seq<char>,
    verbose: bool,
    c: Cursor,
    union: ClassSetUnionView,
) -> (Cursor, ClassSetUnionView)
    decreases p.len() - c.index,
{
    proof {
        lemma_skip(p, c.at(c.index + 1), verbose);
    }
    if 0 <= c.index < p.len() && p[c.index] == '-' {
        leading_dashes(
            p,
            verbose,
            c.at(c.index + 1).skip(p, verbose),
            union_push(union, ClassSetItemView::Literal(verbatim(p, c.index))),
        )
    } else {
        (c, union)
    }
}

/// The opening of a bracketed class, from its `[` on: the class with nothing in
/// it and the items that have a special meaning at its start. A `^` negates the
/// class, any number of `-` behind it are literals, and so is a `]` where
/// nothing else stands before it.
pub open spec fn class_open(p: Seq<char>, verbose: bool, c: Cursor) -> (Cursor, Result<
    (ClassSetView, ClassSetUnionView),
    Error,
>) {
    let i = c.index;
    let c1 = c.at(i + 1).skip(p, verbose);
    let negated = c1.index < p.len() && p[c1.index] == '^';
    let c2 = if negated {
        c1.at(c1.index + 1).skip(p, verbose)
    } else {
        c1
    };
    let start = span_at(p, c2.index);
    let (c3, dashes) = leading_dashes(
        p,
        verbose,
        c2,
        ClassSetUnionView { span: start, items: Seq::empty() },
    );
    let bracket = c3.index < p.len() && p[c3.index] == ']' && dashes.items.len() == 0;
    let c4 = if bracket {
        c3.at(c3.index + 1).skip(p, verbose)
    } else {
        c3
    };
    let union = if bracket {
        union_push(dashes, ClassSetItemView::Literal(verbatim(p, c3.index)))
    } else {
        dashes
    };
    if c4.index >= p.len() {
        (c4, fail(span_between(p, i, c4.index), ErrorKind::ClassUnclosed))
    } else {
        (
            c4,
            Ok(
                (
                    ClassSetView {
                        span: span_between(p, i, c4.index),
                        negated,
                        op: ClassSetOpView::Union(
                            ClassSetUnionView { span: start, items: Seq::empty() },
                        ),
                    },
                    union,
                ),
            ),
        )
    }
}

/// The error of a class that is not closed, whose opening has the given span.
pub open spec fn unclosed<T>(open: Span) -> Result<T, Error> {
    fail(open, ErrorKind::ClassUnclosed)
}

/// A single item or a range in a class whose opening has the given span.
///
/// A `-` behind an item makes a range, unless a `]` or another `-` follows it.
pub open spec fn class_range(
    p: Seq<char>,
    octal_on: bool,
    verbose: bool,
    c: Cursor,
    open: Span,
) -> (Cursor, Result<ClassSetItemView, Error>) {
    match class_item(p, octal_on, verbose, c.index) {
        (end, Err(e)) => (c.at(end), Err(e)),
        (end, Ok(first)) => {
            let c1 = c.at(end).skip(p, verbose);
            let i = c1.index;
            let c2 = c1.at(i + 1).skip(p, verbose);
            if i >= p.len() {
                (c1, unclosed(open))
            } else if p[i] != '-' || (i + 1 < p.len() && (p[i + 1] == ']' || p[i + 1] == '-')) {
                (c1, into_class_set_item(first))
            } else if c2.index >= p.len() {
                (c2, unclosed(open))
            } else {
                match class_item(p, octal_on, verbose, c2.index) {
                    (end, Err(e)) => (c2.at(end), Err(e)),
                    (end, Ok(second)) => (
                        c2.at(end),
                        match (into_class_literal(first), into_class_literal(second)) {
                            (Err(e), _) => Err(e),
                            (_, Err(e)) => Err(e),
                            (Ok(start), Ok(end)) => Ok(
                                ClassSetItemView::Range(
                                    ClassSetRange {
                                        span: Span { start: start.span.start, end: end.span.end },
                                        start,
                                        end,
                                    },
                                ),
                            ),
                        },
                    ),
                }
            }
        },
    }
}

/// The text ends where a single item or a range is still to go on.
pub open spec fn class_range_cut_off(
    p: Seq<char>,
    octal_on: bool,
    verbose: bool,
    c: Cursor,
) -> bool {
    match class_item(p, octal_on, verbose, c.index) {
        (end, Err(e)) => false,
        (end, Ok(first)) => {
            let c1 = c.at(end).skip(p, verbose);
            let i = c1.index;
            ||| i >= p.len()
            ||| {
                &&& p[i] == '-'
                &&& !(i + 1 < p.len() && (p[i + 1] == ']' || p[i + 1] == '-'))
                &&& c1.at(i + 1).skip(p, verbose).index >= p.len()
            }
        },
    }
}

/// The operation whose operator consists of the given character twice.
pub open spec fn class_op_kind(c: char) -> Option<ClassSetBinaryOpKind> {
    match c {
        '&' => Some(ClassSetBinaryOpKind::Intersection),
        '-' => Some(ClassSetBinaryOpKind::Difference),
        '~' => Some(ClassSetBinaryOpKind::SymmetricDifference),
        _ => None,
    }
}

/// The operator at the given index, if there is one.
pub open spec fn class_op_at(p: Seq<char>, i: int) -> Option<ClassSetBinaryOpKind> {
    if i + 1 < p.len() && p[i + 1] == p[i] {
        class_op_kind(p[i])
    } else {
        None
    }
}

/// The left side of an operator: its kind and its left operand.
#[verifier::ext_equal]
pub struct LeftSide {
    pub kind: ClassSetBinaryOpKind,
    pub lhs: ClassSetOpView,
}

/// A set, as the right operand of the operator before it, if any.
pub open spec fn apply_op(left: Option<LeftSide>, rhs: ClassSetOpView) -> ClassSetOpView {
    match left {
        None => rhs,
        Some(left) => ClassSetOpView::BinaryOp(
            ClassSetBinaryOpView {
                span: Span {
                    start: class_set_op_span(left.lhs).start,
                    end: class_set_op_span(rhs).end,
                },
                kind: left.kind,
                lhs: Box::new(left.lhs),
                rhs: Box::new(rhs),
            },
        ),
    }
}

/// The class that a `]` at the given index closes.
pub open spec fn close_class(
    p: Seq<char>,
    i: int,
    union: ClassSetUnionView,
    left: Option<LeftSide>,
    set: ClassSetView,
) -> ClassView {
    ClassView::Bracketed(
        ClassSetView {
            span: Span { start: set.span.start, end: position_at(p, i + 1) },
            negated: set.negated,
            op: apply_op(left, ClassSetOpView::Union(union)),
        },
    )
}

/// An ASCII class is not empty and lies in its text.
pub proof fn lemma_ascii_class(p: Seq<char>, i: int)
    requires
        0 <= i < p.len(),
    ensures
        match ascii_class(p, i) {
            Some((end, _)) => i < end <= p.len(),
            None => true,
        },
{
    let negated = i + 2 < p.len() && p[i + 2] == '^';
    let start = if negated {
        i + 3
    } else {
        i + 2
    };
    if start < p.len() {
        lemma_run_end(p, start, CharSet::Except(':'));
    }
}

/// Leading dashes move the cursor forward in its text.
pub proof fn lemma_leading_dashes(
    p: Seq<char>,
    verbose: bool,
    c: Cursor,
    union: ClassSetUnionView,
)
    requires
        0 <= c.index <= p.len(),
    ensures
        c.index <= leading_dashes(p, verbose, c, union).0.index <= p.len(),
    decreases p.len() - c.index,
{
    lemma_skip(p, c.at(c.index + 1), verbose);
    if c.index < p.len() && p[c.index] == '-' {
        lemma_leading_dashes(
            p,
            verbose,
            c.at(c.index + 1).skip(p, verbose),
            union_push(union, ClassSetItemView::Literal(verbatim(p, c.index))),
        );
    }
}

/// The opening of a class moves the cursor forward in its text.
pub proof fn lemma_class_open(p: Seq<char>, verbose: bool, c: Cursor)
    requires
        0 <= c.index < p.len(),
    ensures
        c.index < class_open(p, verbose, c).0.index <= p.len(),
        class_open(p, verbose, c).1 is Ok ==> class_open(p, verbose, c).0.index < p.len(),
{
    broadcast use lemma_skip;

    let c1 = c.at(c.index + 1).skip(p, verbose);
    let negated = c1.index < p.len() && p[c1.index] == '^';
    let c2 = if negated {
        c1.at(c1.index + 1).skip(p, verbose)
    } else {
        c1
    };
    lemma_leading_dashes(
        p,
        verbose,
        c2,
        ClassSetUnionView { span: span_at(p, c2.index), items: Seq::empty() },
    );
}

/// An item or a range moves the cursor forward in its text.
pub proof fn lemma_class_range(
    p: Seq<char>,
    octal_on: bool,
    verbose: bool,
    c: Cursor,
    open: Span,
)
    requires
        0 <= c.index < p.len(),
    ensures
        c.index < class_range(p, octal_on, verbose, c, open).0.index <= p.len(),
{
    broadcast use lemma_skip;

    lemma_class_item(p, octal_on, verbose, c.index);
    let c1 = c.at(class_item(p, octal_on, verbose, c.index).0).skip(p, verbose);
    let c2 = c1.at(c1.index + 1).skip(p, verbose);
    if c1.index < p.len() && c2.index < p.len() {
        lemma_class_item(p, octal_on, verbose, c2.index);
    }
}

/// What comes next in a bracketed class.
#[verifier::ext_equal]
pub enum ClassStep {
    /// The class is not well-formed.
    Failed(Error),
    /// The class is closed.
    Closed(ClassView),
    /// An item, which is added to the union.
    Item(ClassSetItemView),
    /// An operator, with what stands to its left.
    Operator(LeftSide),
    /// The opening of another class, and the items at its start.
    Nested(ClassSetView, ClassSetUnionView),
}

/// What comes next in the class with the opening `set`, behind an operator with
/// its left side, if any, and the items in `union`.
#[verifier::opaque]
pub open spec fn class_step(
    p: Seq<char>,
    octal_on: bool,
    verbose: bool,
    c: Cursor,
    union: ClassSetUnionView,
    left: Option<LeftSide>,
    set: ClassSetView,
) -> (Cursor, ClassStep) {
    let c1 = c.skip(p, verbose);
    let i = c1.index;
    if !(0 <= i < p.len()) {
        (c1, ClassStep::Failed(Error { span: set.span, kind: ErrorKind::ClassUnclosed }))
    } else if p[i] == '[' {
        match ascii_class(p, i) {
            Some((end, cls)) => (c1.at(end), ClassStep::Item(ClassSetItemView::Ascii(cls))),
            None => match class_open(p, verbose, c1) {
                (c2, Err(e)) => (c2, ClassStep::Failed(e)),
                (c2, Ok((set, union))) => (c2, ClassStep::Nested(set, union)),
            },
        }
    } else if p[i] == ']' {
        (c1.at(i + 1), ClassStep::Closed(close_class(p, i, union, left, set)))
    } else {
        match class_op_at(p, i) {
            Some(kind) => (
                c1.at(i + 2),
                ClassStep::Operator(
                    LeftSide { kind, lhs: apply_op(left, ClassSetOpView::Union(union)) },
                ),
            ),
            None => match class_range(p, octal_on, verbose, c1, set.span) {
                (c2, Err(e)) => (c2, ClassStep::Failed(e)),
                (c2, Ok(item)) => (c2, ClassStep::Item(item)),
            },
        }
    }
}

/// A step moves the cursor forward in its text.
pub proof fn lemma_class_step(
    p: Seq<char>,
    octal_on: bool,
    verbose: bool,
    c: Cursor,
    union: ClassSetUnionView,
    left: Option<LeftSide>,
    set: ClassSetView,
)
    ensures
        0 <= c.index <= p.len() ==> {
            let (c1, step) = class_step(p, octal_on, verbose, c, union, left, set);
            &&& c.index <= c1.index <= p.len()
            &&& !(step is Failed) ==> c.index < c1.index
        },
        !(0 <= c.index <= p.len()) ==> class_step(
            p,
            octal_on,
            verbose,
            c,
            union,
            left,
            set,
        ).1 is Failed,
{
    reveal(class_step);
    let c1 = c.skip(p, verbose);
    lemma_skip(p, c, verbose);
    if 0 <= c1.index < p.len() {
        if p[c1.index] == '[' {
            lemma_ascii_class(p, c1.index);
            lemma_class_open(p, verbose, c1);
        } else {
            lemma_class_range(p, octal_on, verbose, c1, set.span);
        }
    }
}

/// The union that starts at the given index, with nothing in it.
pub open spec fn empty_union(p: Seq<char>, i: int) -> ClassSetUnionView {
    ClassSetUnionView { span: span_at(p, i), items: Seq::empty() }
}

/// A union with a class as its last item.
pub open spec fn union_push_class(union: ClassSetUnionView, class: ClassView) -> ClassSetUnionView {
    union_push(union, ClassSetItemView::Class(Box::new(class)))
}

/// The rest of a bracketed class up to its `]`, behind the opening `set`, an
/// operator with its left side, if any, and the items in `union`.
///
/// Operators are left-associative and bind weaker than the union of items.
pub open spec fn class_rest(
    p: Seq<char>,
    octal_on: bool,
    verbose: bool,
    c: Cursor,
    union: ClassSetUnionView,
    left: Option<LeftSide>,
    set: ClassSetView,
) -> (Cursor, Result<ClassView, Error>)
    decreases p.len() - c.index,
{
    proof {
        lemma_class_step(p, octal_on, verbose, c, union, left, set);
    }
    match class_step(p, octal_on, verbose, c, union, left, set) {
        (c1, ClassStep::Failed(e)) => (c1, Err(e)),
        (c1, ClassStep::Closed(class)) => (c1, Ok(class)),
        (c1, ClassStep::Item(item)) => class_rest(
            p,
            octal_on,
            verbose,
            c1,
            union_push(union, item),
            left,
            set,
        ),
        (c1, ClassStep::Operator(op)) => class_rest(
            p,
            octal_on,
            verbose,
            c1,
            empty_union(p, c1.index),
            Some(op),
            set,
        ),
        (c1, ClassStep::Nested(nested_set, nested_union)) => match class_rest(
            p,
            octal_on,
            verbose,
            c1,
            nested_union,
            None,
            nested_set,
        ) {
            (c2, Err(e)) => (c2, Err(e)),
            (c2, Ok(class)) => if c.index < c2.index <= p.len() {
                class_rest(p, octal_on, verbose, c2, union_push_class(union, class), left, set)
            } else {
                // By `lemma_class_rest`, the nested class ends behind its start.
                arbitrary()
            },
        },
    }
}

/// The rest of a class moves the cursor forward in its text.
pub proof fn lemma_class_rest(
    p: Seq<char>,
    octal_on: bool,
    verbose: bool,
    c: Cursor,
    union: ClassSetUnionView,
    left: Option<LeftSide>,
    set: ClassSetView,
)
    requires
        0 <= c.index <= p.len(),
    ensures
        ({
            let (c1, class) = class_rest(p, octal_on, verbose, c, union, left, set);
            &&& c.index <= c1.index <= p.len()
            &&& class is Ok ==> c.index < c1.index
        }),
    decreases p.len() - c.index,
{
    lemma_class_step(p, octal_on, verbose, c, union, left, set);
    match class_step(p, octal_on, verbose, c, union, left, set) {
        (c1, ClassStep::Failed(e)) => {},
        (c1, ClassStep::Closed(class)) => {},
        (c1, ClassStep::Item(item)) => {
            lemma_class_rest(p, octal_on, verbose, c1, union_push(union, item), left, set);
        },
        (c1, ClassStep::Operator(op)) => {
            lemma_class_rest(
                p,
                octal_on,
                verbose,
                c1,
                empty_union(p, c1.index),
                Some(op),
                set,
            );
        },
        (c1, ClassStep::Nested(nested_set, nested_union)) => {
            lemma_class_rest(p, octal_on, verbose, c1, nested_union, None, nested_set);
            match class_rest(p, octal_on, verbose, c1, nested_union, None, nested_set) {
                (c2, Err(e)) => {},
                (c2, Ok(class)) => {
                    lemma_class_rest(
                        p,
                        octal_on,
                        verbose,
                        c2,
                        union_push_class(union, class),
                        left,
                        set,
                    );
                },
            }
        },
    }
}

/// A bracketed class, from its `[` on.
pub open spec fn class(p: Seq<char>, octal_on: bool, verbose: bool, c: Cursor) -> (Cursor, Result<
    ClassView,
    Error,
>) {
    match class_open(p, verbose, c) {
        (c1, Err(e)) => (c1, Err(e)),
        (c1, Ok((set, union))) => class_rest(p, octal_on, verbose, c1, union, None, set),
    }
}

/// A class moves the cursor forward in its text.
pub proof fn lemma_class(p: Seq<char>, octal_on: bool, verbose: bool, c: Cursor)
    requires
        0 <= c.index < p.len(),
    ensures
        c.index < class(p, octal_on, verbose, c).0.index <= p.len(),
{
    lemma_class_open(p, verbose, c);
    match class_open(p, verbose, c) {
        (c1, Err(e)) => {},
        (c1, Ok((set, union))) => {
            lemma_class_rest(p, octal_on, verbose, c1, union, None, set);
        },
    }
}

} // verus!
