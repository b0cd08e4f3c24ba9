//! The depth of a tree.

use vstd::prelude::*;

use crate::ast::methods::{ast_span, class_set_op_span, class_span};
use crate::ast::view::{AstView, ClassSetItemView, ClassSetOpView, ClassView};
use crate::ast::{Error, ErrorKind, Span};
use crate::grammar::fail;

verus! {

/// A node of a tree: the number of nodes above it, and its span.
pub struct Node {
    pub depth: int,
    pub span: Span,
}

/// The nodes of a tree at the given depth, from left to right, each before the
/// nodes below it.
pub open spec fn ast_nodes(ast: AstView, depth: int) -> Seq<Node>
    decreases ast,
{
    seq![Node { depth, span: ast_span(ast) }] + match ast {
        AstView::Class(class) => class_nodes(class, depth),
        AstView::Repetition(x) => ast_nodes(*x.ast, depth + 1),
        AstView::Group(x) => ast_nodes(*x.ast, depth + 1),
        AstView::Alternation(x) => asts_nodes(x.asts, depth + 1),
        AstView::Concat(x) => asts_nodes(x.asts, depth + 1),
        _ => Seq::empty(),
    }
}

/// The nodes of a sequence of trees at the given depth.
pub open spec fn asts_nodes(asts: Seq<AstView>, depth: int) -> Seq<Node>
    decreases asts,
{
    if asts.len() == 0 {
        Seq::empty()
    } else {
        asts_nodes(asts.drop_last(), depth) + ast_nodes(asts.last(), depth)
    }
}

/// The nodes of a class at the given depth. What a bracketed class consists of
/// is at the depth of the class.
pub open spec fn class_nodes(class: ClassView, depth: int) -> Seq<Node>
    decreases class,
{
    seq![Node { depth, span: class_span(class) }] + match class {
        ClassView::Bracketed(set) => class_op_nodes(set.op, depth),
        _ => Seq::empty(),
    }
}

/// The nodes of what a bracketed class consists of.
pub open spec fn class_op_nodes(op: ClassSetOpView, depth: int) -> Seq<Node>
    decreases op,
{
    seq![Node { depth, span: class_set_op_span(op) }] + match op {
        ClassSetOpView::Union(union) => class_items_nodes(union.items, depth + 1),
        ClassSetOpView::BinaryOp(op) => class_op_nodes(*op.lhs, depth + 1) + class_op_nodes(
            *op.rhs,
            depth + 1,
        ),
    }
}

/// The nodes of a sequence of items of a bracketed class. Items other than
/// classes are no nodes of their own.
pub open spec fn class_items_nodes(items: Seq<ClassSetItemView>, depth: int) -> Seq<Node>
    decreases items,
{
    if items.len() == 0 {
        Seq::empty()
    } else {
        class_items_nodes(items.drop_last(), depth) + match items.last() {
            ClassSetItemView::Class(class) => class_nodes(*class, depth),
            _ => Seq::empty(),
        }
    }
}

/// The first node whose depth is not below the limit.
pub open spec fn too_deep(nodes: Seq<Node>, limit: int) -> Option<Node>
    decreases nodes.len(),
{
    if nodes.len() == 0 {
        None
    } else {
        match too_deep(nodes.drop_last(), limit) {
            Some(node) => Some(node),
            None => if nodes.last().depth >= limit {
                Some(nodes.last())
            } else {
                None
            },
        }
    }
}

/// The error of nodes of which one is too deep.
pub open spec fn nest_error(nodes: Seq<Node>, limit: u32) -> Result<(), Error> {
    match too_deep(nodes, limit as int) {
        Some(node) => fail(node.span, ErrorKind::NestLimitExceeded(limit)),
        None => Ok(()),
    }
}

/// The first node that is too deep in the first of two sequences, or else in
/// the second.
pub proof fn lemma_too_deep_add(a: Seq<Node>, b: Seq<Node>, limit: int)
    ensures
        too_deep(a + b, limit) == match too_deep(a, limit) {
            Some(node) => Some(node),
            None => too_deep(b, limit),
        },
    decreases b.len(),
{
    if b.len() == 0 {
        assert(a + b =~= a);
    } else {
        assert((a + b).drop_last() =~= a + b.drop_last());
        lemma_too_deep_add(a, b.drop_last(), limit);
    }
}

/// What is found is too deep, and what stands before it is not.
pub proof fn lemma_too_deep(nodes: Seq<Node>, limit: int)
    ensures
        match too_deep(nodes, limit) {
            Some(node) => exists|k: int|
                {
                    &&& 0 <= k < nodes.len()
                    &&& #[trigger] nodes[k] == node
                    &&& node.depth >= limit
                    &&& forall|j: int| 0 <= j < k ==> (#[trigger] nodes[j]).depth < limit
                },
            None => forall|j: int| 0 <= j < nodes.len() ==> (#[trigger] nodes[j]).depth < limit,
        },
    decreases nodes.len(),
{
    if nodes.len() > 0 {
        let front = nodes.drop_last();
        lemma_too_deep(front, limit);
        assert(forall|j: int| 0 <= j < front.len() ==> #[trigger] nodes[j] == front[j]);
        match too_deep(front, limit) {
            Some(node) => {
                let k = choose|k: int|
                    {
                        &&& 0 <= k < front.len()
                        &&& #[trigger] front[k] == node
                        &&& node.depth >= limit
                        &&& forall|j: int| 0 <= j < k ==> (#[trigger] front[j]).depth < limit
                    };
                assert(nodes[k] == node);
            },
            None => {
                assert(nodes[nodes.len() - 1] == nodes.last());
            },
        }
    }
}

} // verus!
