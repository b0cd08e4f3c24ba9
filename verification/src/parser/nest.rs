//! Checking the depth of a tree.

use vstd::prelude::*;

use crate::ast::methods::{ast_span, class_set_op_span, class_span};
use crate::ast::view::{
    asts_view, class_set_items_view, group_view, AstView, ClassSetItemView,
};
use crate::ast::{Ast, Class, ClassSetItem, ClassSetOp, Error, ErrorKind};
use crate::grammar::nest::{
    ast_nodes, asts_nodes, class_items_nodes, class_nodes, class_op_nodes, lemma_too_deep_add,
    nest_error, too_deep, Node,
};

verus! {

broadcast use group_view;

/// A single node is too deep if it is not above the limit.
proof fn lemma_one(node: Node, limit: u32)
    ensures
        too_deep(seq![node], limit as int) == if node.depth >= limit {
            Some(node)
        } else {
            None
        },
{
    reveal_with_fuel(too_deep, 2);
    assert(seq![node].drop_last() =~= Seq::empty());
}

/// Nodes that follow nodes that are not too deep.
proof fn lemma_then(a: Seq<Node>, b: Seq<Node>, limit: u32)
    ensures
        nest_error(a, limit) is Err ==> nest_error(a + b, limit) == nest_error(a, limit),
        nest_error(a, limit) is Ok ==> nest_error(a + b, limit) == nest_error(b, limit),
{
    lemma_too_deep_add(a, b, limit as int);
}

/// Returns an error if the given AST exceeds the given depth limit.
pub fn error_if_nested(ast: &Ast, limit: u32, depth: u32) -> (r: Result<(), Error>)
    ensures
        r == nest_error(ast_nodes(ast@, depth as int), limit),
    decreases ast,
{
    let ghost node = Node { depth: depth as int, span: ast_span(ast@) };
    proof {
        lemma_one(node, limit);
    }
    if depth >= limit {
        proof {
            let nodes = ast_nodes(ast@, depth as int);
            lemma_then(seq![node], nodes.skip(1), limit);
            assert(nodes =~= seq![node] + nodes.skip(1));
        }
        return Err(Error { span: *ast.span(), kind: ErrorKind::NestLimitExceeded(limit) });
    }
    match ast {
        Ast::Class(cls) => {
            proof {
                lemma_then(seq![node], class_nodes(cls@, depth as int), limit);
            }
            error_if_nested_class(cls, limit, depth)
        },
        Ast::Repetition(x) => {
            proof {
                lemma_then(seq![node], ast_nodes(x.ast@, depth + 1), limit);
            }
            error_if_nested(&x.ast, limit, depth + 1)
        },
        Ast::Group(x) => {
            proof {
                lemma_then(seq![node], ast_nodes(x.ast@, depth + 1), limit);
            }
            error_if_nested(&x.ast, limit, depth + 1)
        },
        Ast::Alternation(x) => {
            proof {
                lemma_then(seq![node], asts_nodes(asts_view(x.asts@), depth + 1), limit);
            }
            error_if_any_nested(&x.asts, limit, depth + 1)
        },
        Ast::Concat(x) => {
            proof {
                lemma_then(seq![node], asts_nodes(asts_view(x.asts@), depth + 1), limit);
            }
            error_if_any_nested(&x.asts, limit, depth + 1)
        },
        _ => {
            proof {
                lemma_then(seq![node], Seq::empty(), limit);
            }
            Ok(())
        },
    }
}

/// Returns an error if one of the given ASTs exceeds the given depth limit.
fn error_if_any_nested(asts: &Vec<Ast>, limit: u32, depth: u32) -> (r: Result<(), Error>)
    ensures
        r == nest_error(asts_nodes(asts_view(asts@), depth as int), limit),
    decreases asts,
{
    let ghost views = asts_view(asts@);
    let mut i: usize = 0;
    while i < asts.len()
        invariant
            views == asts_view(asts@),
            i <= asts@.len(),
            nest_error(asts_nodes(views.take(i as int), depth as int), limit) is Ok,
        decreases asts@.len() - i,
    {
        let r = error_if_nested(&asts[i], limit, depth);
        proof {
            let next = views.take(i + 1);
            assert(next.drop_last() == views.take(i as int));
            lemma_then(
                asts_nodes(next.drop_last(), depth as int),
                ast_nodes(next.last(), depth as int),
                limit,
            );
            lemma_asts_prefix(views, i + 1, depth as int, limit);
        }
        r?;
        i = i + 1;
    }
    assert(views.take(i as int) == views);
    Ok(())
}

/// The first error in a sequence of trees is the first error in the whole.
proof fn lemma_asts_prefix(asts: Seq<AstView>, k: int, depth: int, limit: u32)
    requires
        0 <= k <= asts.len(),
    ensures
        nest_error(asts_nodes(asts.take(k), depth), limit) is Err ==> nest_error(
            asts_nodes(asts, depth),
            limit,
        ) == nest_error(asts_nodes(asts.take(k), depth), limit),
    decreases asts.len(),
{
    if k < asts.len() {
        let front = asts.drop_last();
        assert(front.take(k) == asts.take(k));
        lemma_asts_prefix(front, k, depth, limit);
        lemma_then(asts_nodes(front, depth), ast_nodes(asts.last(), depth), limit);
    } else {
        assert(asts.take(k) == asts);
    }
}

/// Returns an error if the given AST class exceeds the given depth limit.
pub fn error_if_nested_class(class: &Class, limit: u32, depth: u32) -> (r: Result<(), Error>)
    ensures
        r == nest_error(class_nodes(class@, depth as int), limit),
    decreases class,
{
    let ghost node = Node { depth: depth as int, span: class_span(class@) };
    proof {
        lemma_one(node, limit);
    }
    if depth >= limit {
        proof {
            let nodes = class_nodes(class@, depth as int);
            lemma_then(seq![node], nodes.skip(1), limit);
            assert(nodes =~= seq![node] + nodes.skip(1));
        }
        return Err(Error { span: *class.span(), kind: ErrorKind::NestLimitExceeded(limit) });
    }
    match class {
        Class::Bracketed(set) => {
            proof {
                lemma_then(seq![node], class_op_nodes(set.op@, depth as int), limit);
            }
            error_if_nested_class_op(&set.op, limit, depth)
        },
        _ => {
            proof {
                lemma_then(seq![node], Seq::empty(), limit);
            }
            Ok(())
        },
    }
}

/// Returns an error if what an AST class consists of exceeds the given depth
/// limit.
pub fn error_if_nested_class_op(op: &ClassSetOp, limit: u32, depth: u32) -> (r: Result<(), Error>)
    ensures
        r == nest_error(class_op_nodes(op@, depth as int), limit),
    decreases op,
{
    let ghost node = Node { depth: depth as int, span: class_set_op_span(op@) };
    proof {
        lemma_one(node, limit);
    }
    if depth >= limit {
        proof {
            let nodes = class_op_nodes(op@, depth as int);
            lemma_then(seq![node], nodes.skip(1), limit);
            assert(nodes =~= seq![node] + nodes.skip(1));
        }
        return Err(Error { span: *op.span(), kind: ErrorKind::NestLimitExceeded(limit) });
    }
    match op {
        ClassSetOp::Union(union) => {
            proof {
                lemma_then(
                    seq![node],
                    class_items_nodes(class_set_items_view(union.items@), depth + 1),
                    limit,
                );
            }
            error_if_nested_class_items(&union.items, limit, depth + 1)
        },
        ClassSetOp::BinaryOp(x) => {
            proof {
                let lhs = class_op_nodes(x.lhs@, depth + 1);
                let rhs = class_op_nodes(x.rhs@, depth + 1);
                lemma_then(seq![node], lhs + rhs, limit);
                lemma_then(lhs, rhs, limit);
            }
            error_if_nested_class_op(&x.lhs, limit, depth + 1)?;
            error_if_nested_class_op(&x.rhs, limit, depth + 1)
        },
    }
}

/// Returns an error if one of the given items, which are at the given depth,
/// exceeds the given depth limit.
fn error_if_nested_class_items(items: &Vec<ClassSetItem>, limit: u32, depth: u32) -> (r: Result<
    (),
    Error,
>)
    ensures
        r == nest_error(class_items_nodes(class_set_items_view(items@), depth as int), limit),
    decreases items,
{
    let ghost views = class_set_items_view(items@);
    let mut i: usize = 0;
    while i < items.len()
        invariant
            views == class_set_items_view(items@),
            i <= items@.len(),
            nest_error(class_items_nodes(views.take(i as int), depth as int), limit) is Ok,
        decreases items@.len() - i,
    {
        proof {
            let next = views.take(i + 1);
            assert(next.drop_last() == views.take(i as int));
            let nodes = match next.last() {
                ClassSetItemView::Class(class) => class_nodes(*class, depth as int),
                _ => Seq::empty(),
            };
            lemma_then(class_items_nodes(next.drop_last(), depth as int), nodes, limit);
            lemma_items_prefix(views, i + 1, depth as int, limit);
        }
        if let ClassSetItem::Class(class) = &items[i] {
            error_if_nested_class(class, limit, depth)?;
        }
        i = i + 1;
    }
    assert(views.take(i as int) == views);
    Ok(())
}

/// The first error in a sequence of items is the first error in the whole.
proof fn lemma_items_prefix(items: Seq<ClassSetItemView>, k: int, depth: int, limit: u32)
    requires
        0 <= k <= items.len(),
    ensures
        nest_error(class_items_nodes(items.take(k), depth), limit) is Err ==> nest_error(
            class_items_nodes(items, depth),
            limit,
        ) == nest_error(class_items_nodes(items.take(k), depth), limit),
    decreases items.len(),
{
    if k < items.len() {
        let front = items.drop_last();
        assert(front.take(k) == items.take(k));
        lemma_items_prefix(front, k, depth, limit);
        let nodes = match items.last() {
            ClassSetItemView::Class(class) => class_nodes(*class, depth),
            _ => Seq::empty(),
        };
        lemma_then(class_items_nodes(front, depth), nodes, limit);
    } else {
        assert(items.take(k) == items);
    }
}

} // verus!
