//! The spans of what the parser returns.

use vstd::prelude::*;

use crate::ast::methods::{ast_span, class_set_item_span};
use crate::ast::view::{AstView, ClassSetItemView, ClassSetOpView, ClassView};
use crate::grammar::expr::{empty_concat, expr, lemma_expr, parse, syntax};
use crate::grammar::nest::{
    ast_nodes, asts_nodes, class_items_nodes, class_nodes, class_op_nodes, lemma_too_deep, Node,
};
use crate::grammar::space::Cursor;
use crate::grammar::Options;
use crate::laws::spans::expr::lemma_expr_spans;
use crate::laws::spans::{
    asts_placed, class_placed, is_error, is_span, item_placed, items_placed, lemma_position,
    lemma_span, op_placed, placed,
};
use crate::text::fits;

verus! {

/// Nodes whose spans are spans in a text.
spec fn nodes_placed(p: Seq<char>, nodes: Seq<Node>) -> bool {
    forall|k: int| 0 <= k < nodes.len() ==> is_span(p, (#[trigger] nodes[k]).span)
}

proof fn lemma_nodes_add(p: Seq<char>, a: Seq<Node>, b: Seq<Node>)
    requires
        nodes_placed(p, a),
        nodes_placed(p, b),
    ensures
        nodes_placed(p, a + b),
{
    assert forall|k: int| 0 <= k < (a + b).len() implies is_span(
        p,
        (#[trigger] (a + b)[k]).span,
    ) by {
        if k < a.len() {
            assert(is_span(p, a[k].span));
        } else {
            assert(is_span(p, b[k - a.len()].span));
        }
    }
}

proof fn lemma_ast_nodes(p: Seq<char>, ast: AstView, depth: int)
    requires
        placed(p, ast),
    ensures
        nodes_placed(p, ast_nodes(ast, depth)),
    decreases ast,
{
    let root = seq![Node { depth, span: ast_span(ast) }];
    match ast {
        AstView::Class(class) => {
            lemma_class_nodes(p, class, depth);
            lemma_nodes_add(p, root, class_nodes(class, depth));
        },
        AstView::Repetition(x) => {
            lemma_ast_nodes(p, *x.ast, depth + 1);
            lemma_nodes_add(p, root, ast_nodes(*x.ast, depth + 1));
        },
        AstView::Group(x) => {
            lemma_ast_nodes(p, *x.ast, depth + 1);
            lemma_nodes_add(p, root, ast_nodes(*x.ast, depth + 1));
        },
        AstView::Alternation(x) => {
            let lo = x.span.start.offset as int;
            lemma_asts_nodes(p, x.asts, lo, x.span.end.offset as int, depth + 1);
            lemma_nodes_add(p, root, asts_nodes(x.asts, depth + 1));
        },
        AstView::Concat(x) => {
            let lo = x.span.start.offset as int;
            lemma_asts_nodes(p, x.asts, lo, x.span.end.offset as int, depth + 1);
            lemma_nodes_add(p, root, asts_nodes(x.asts, depth + 1));
        },
        _ => {
            lemma_nodes_add(p, root, Seq::empty());
        },
    }
}

proof fn lemma_asts_nodes(p: Seq<char>, asts: Seq<AstView>, lo: int, hi: int, depth: int)
    requires
        asts_placed(p, asts, lo, hi),
    ensures
        nodes_placed(p, asts_nodes(asts, depth)),
    decreases asts,
{
    if asts.len() > 0 {
        let start = ast_span(asts.last()).start.offset as int;
        lemma_asts_nodes(p, asts.drop_last(), lo, start, depth);
        lemma_ast_nodes(p, asts.last(), depth);
        lemma_nodes_add(p, asts_nodes(asts.drop_last(), depth), ast_nodes(asts.last(), depth));
    }
}

proof fn lemma_class_nodes(p: Seq<char>, class: ClassView, depth: int)
    requires
        class_placed(p, class),
    ensures
        nodes_placed(p, class_nodes(class, depth)),
    decreases class,
{
    let root = class_nodes(class, depth).take(1);
    match class {
        ClassView::Bracketed(set) => {
            lemma_op_nodes(p, set.op, depth);
            assert(class_nodes(class, depth) == root + class_op_nodes(set.op, depth));
            lemma_nodes_add(p, root, class_op_nodes(set.op, depth));
        },
        _ => {
            assert(class_nodes(class, depth) == root);
        },
    }
}

proof fn lemma_op_nodes(p: Seq<char>, op: ClassSetOpView, depth: int)
    requires
        op_placed(p, op),
    ensures
        nodes_placed(p, class_op_nodes(op, depth)),
    decreases op,
{
    let root = class_op_nodes(op, depth).take(1);
    match op {
        ClassSetOpView::Union(union) => {
            let lo = union.span.start.offset as int;
            lemma_items_nodes(p, union.items, lo, union.span.end.offset as int, depth + 1);
            let below = class_items_nodes(union.items, depth + 1);
            assert(class_op_nodes(op, depth) == root + below);
            lemma_nodes_add(p, root, below);
        },
        ClassSetOpView::BinaryOp(x) => {
            let lhs = class_op_nodes(*x.lhs, depth + 1);
            let rhs = class_op_nodes(*x.rhs, depth + 1);
            lemma_op_nodes(p, *x.lhs, depth + 1);
            lemma_op_nodes(p, *x.rhs, depth + 1);
            lemma_nodes_add(p, lhs, rhs);
            assert(class_op_nodes(op, depth) == root + (lhs + rhs));
            lemma_nodes_add(p, root, lhs + rhs);
        },
    }
}

proof fn lemma_items_nodes(
    p: Seq<char>,
    items: Seq<ClassSetItemView>,
    lo: int,
    hi: int,
    depth: int,
)
    requires
        items_placed(p, items, lo, hi),
    ensures
        nodes_placed(p, class_items_nodes(items, depth)),
    decreases items,
{
    if items.len() > 0 {
        let start = class_set_item_span(items.last()).start.offset as int;
        let front = class_items_nodes(items.drop_last(), depth);
        lemma_items_nodes(p, items.drop_last(), lo, start, depth);
        assert(item_placed(p, items.last()));
        match items.last() {
            ClassSetItemView::Class(class) => {
                lemma_class_nodes(p, *class, depth);
                lemma_nodes_add(p, front, class_nodes(*class, depth));
            },
            _ => {
                lemma_nodes_add(p, front, Seq::empty());
            },
        }
    }
}

/// The grammar gives trees and errors whose spans are spans in the text.
proof fn lemma_syntax_spans(p: Seq<char>, octal_on: bool, verbose: bool)
    requires
        fits(p),
    ensures
        match syntax(p, octal_on, verbose).1 {
            Ok(ast) => placed(p, ast),
            Err(e) => is_error(p, e),
        },
{
    let start = Cursor { index: 0, comments: Seq::empty() };
    let concat = empty_concat(p, 0);
    lemma_position(p, 0);
    lemma_expr(p, octal_on, verbose, start, concat, None);
    lemma_expr_spans(p, octal_on, verbose, start, concat, None);
    let c = expr(p, octal_on, verbose, start, concat, None).0;
    if c.index < p.len() {
        lemma_span(p, c.index, c.index + 1);
    }
}

/// In every tree that the parser returns, each span is a span in the pattern,
/// each node stands inside of the node above it, and nodes side by side stand in
/// order, as [`placed`] says.
pub proof fn law_spans_of_trees(p: Seq<char>, options: Options)
    requires
        fits(p),
    ensures
        match parse(p, options) {
            Ok(x) => placed(p, x.ast),
            Err(_) => true,
        },
{
    lemma_syntax_spans(p, options.octal, options.ignore_space);
}

/// Every error that the parser returns points to a part of the pattern.
pub proof fn law_spans_of_errors(p: Seq<char>, options: Options)
    requires
        fits(p),
    ensures
        match parse(p, options) {
            Ok(_) => true,
            Err(e) => is_error(p, e),
        },
{
    lemma_syntax_spans(p, options.octal, options.ignore_space);
    match syntax(p, options.octal, options.ignore_space) {
        (c, Err(e)) => {},
        (c, Ok(ast)) => {
            lemma_ast_nodes(p, ast, 0);
            lemma_too_deep(ast_nodes(ast, 0), options.nest_limit as int);
        },
    }
}

/// A pattern is accepted only as a whole: a tree that the grammar gives is that
/// of the text up to its end.
pub proof fn law_whole_text_is_read(p: Seq<char>, octal_on: bool, verbose: bool)
    ensures
        match syntax(p, octal_on, verbose) {
            (c, Ok(_)) => c.index == p.len(),
            (c, Err(_)) => 0 <= c.index <= p.len(),
        },
{
    let start = Cursor { index: 0, comments: Seq::empty() };
    lemma_expr(p, octal_on, verbose, start, empty_concat(p, 0), None);
}

} // verus!
