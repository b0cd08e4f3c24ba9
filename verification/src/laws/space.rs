//! White space in verbose mode.

use vstd::prelude::*;

use crate::ast::view::{AlternationView, AstView, ClassSetUnionView, ClassSetView, ConcatView};
use crate::ast::Error;
use crate::grammar::class::{
    class_rest, class_step, lemma_class_rest, lemma_class_step, ClassStep, LeftSide,
};
use crate::grammar::expr::{
    empty_concat, expr, lemma_expr, lemma_part, part, syntax, verbose_in, Part,
};
use crate::grammar::space::{comments_from, lemma_skip_space, skip_space, Cursor};
use crate::text::span_between;

verus! {

/// White space and comments are skipped as a whole: behind them there are no
/// more of them.
pub proof fn law_space_is_skipped_at_once(p: Seq<char>, c: Cursor, verbose: bool)
    requires
        0 <= c.index <= p.len(),
    ensures
        c.skip(p, verbose).skip(p, verbose) == c.skip(p, verbose),
{
    lemma_skip_space(p, c.index);
    let c1 = c.skip(p, verbose);
    assert(c1.comments + comments_from(p, skip_space(p, c.index)) =~= c1.comments);
}

/// In an expression, white space and comments before the next part do not
/// matter: they are only added to the comments.
pub proof fn law_space_in_expressions(
    p: Seq<char>,
    octal_on: bool,
    verbose: bool,
    c: Cursor,
    concat: ConcatView,
    alt: Option<AlternationView>,
)
    requires
        0 <= c.index <= p.len(),
    ensures
        expr(p, octal_on, verbose, c.skip(p, verbose), concat, alt) == expr(
            p,
            octal_on,
            verbose,
            c,
            concat,
            alt,
        ),
{
    law_space_is_skipped_at_once(p, c, verbose);
    lemma_skip_space(p, c.index);
    let c1 = c.skip(p, verbose);
    if c1.index < p.len() {
        lemma_part(p, octal_on, verbose, c1, concat);
        match part(p, octal_on, verbose, c1, concat) {
            (c2, Part::Open(group)) => {
                let inner = verbose_in(group.kind, verbose);
                lemma_expr(p, octal_on, inner, c2, empty_concat(p, c2.index), None);
            },
            _ => {},
        }
    }
}

/// In a class, white space and comments before the next item do not matter:
/// they are only added to the comments.
pub proof fn law_space_in_classes(
    p: Seq<char>,
    octal_on: bool,
    verbose: bool,
    c: Cursor,
    union: ClassSetUnionView,
    left: Option<LeftSide>,
    set: ClassSetView,
)
    requires
        0 <= c.index <= p.len(),
    ensures
        class_rest(p, octal_on, verbose, c.skip(p, verbose), union, left, set) == class_rest(
            p,
            octal_on,
            verbose,
            c,
            union,
            left,
            set,
        ),
{
    law_space_is_skipped_at_once(p, c, verbose);
    lemma_skip_space(p, c.index);
    assert(class_step(p, octal_on, verbose, c.skip(p, verbose), union, left, set) == class_step(
        p,
        octal_on,
        verbose,
        c,
        union,
        left,
        set,
    )) by {
        reveal(class_step);
    }
    lemma_class_step(p, octal_on, verbose, c.skip(p, verbose), union, left, set);
    match class_step(p, octal_on, verbose, c, union, left, set) {
        (c1, ClassStep::Nested(nested_set, nested_union)) => {
            lemma_class_rest(p, octal_on, verbose, c1, nested_union, None, nested_set);
        },
        _ => {},
    }
}

/// In verbose mode, a pattern that consists of white space and comments is the
/// empty expression.
pub proof fn law_blank_pattern_is_empty(p: Seq<char>, octal_on: bool)
    requires
        skip_space(p, 0) == p.len(),
    ensures
        syntax(p, octal_on, true).1 == Ok::<AstView, Error>(
            AstView::Empty(span_between(p, 0, p.len() as int)),
        ),
        syntax(p, octal_on, true).0.comments == comments_from(p, 0),
{
    let start = Cursor { index: 0, comments: Seq::empty() };
    assert(start.comments + comments_from(p, 0) =~= comments_from(p, 0));
}

} // verus!
