//! The nest limit.

use vstd::prelude::*;

use crate::ast::methods::{ast_span, class_set_op_span, class_span};
use crate::ast::view::{
    AstView, ClassSetItemView, ClassSetOpView, ClassView, WithCommentsView,
};
use crate::ast::{Error, ErrorKind, Span};
use crate::grammar::expr::{parse, syntax};
use crate::grammar::nest::{
    ast_nodes, asts_nodes, class_items_nodes, class_nodes, class_op_nodes, lemma_too_deep,
    lemma_too_deep_add, too_deep, Node,
};
use crate::grammar::{fail, Options};
use crate::laws::shape::law_trees_are_normal;

verus! {

/// The root of a tree is its first node.
proof fn lemma_root(ast: AstView)
    ensures
        ast_nodes(ast, 0).len() > 0,
        ast_nodes(ast, 0)[0] == (Node { depth: 0, span: ast_span(ast) }),
{
}

/// A pattern is accepted if and only if it is well-formed and every node of its
/// tree is above the nest limit. What is returned then is the tree and the
/// comments that the grammar finds.
pub proof fn law_accepted_iff_not_too_deep(p: Seq<char>, options: Options)
    ensures
        parse(p, options) is Ok <==> {
            let tree = syntax(p, options.octal, options.ignore_space).1;
            &&& tree is Ok
            &&& forall|k: int|
                0 <= k < ast_nodes(tree->Ok_0, 0).len() ==> (#[trigger] ast_nodes(
                    tree->Ok_0,
                    0,
                )[k]).depth < options.nest_limit
        },
        parse(p, options) is Ok ==> parse(p, options) == Ok::<WithCommentsView, Error>(
            WithCommentsView {
                ast: syntax(p, options.octal, options.ignore_space).1->Ok_0,
                comments: syntax(p, options.octal, options.ignore_space).0.comments,
            },
        ),
{
    match syntax(p, options.octal, options.ignore_space) {
        (c, Err(e)) => {},
        (c, Ok(ast)) => {
            let nodes = ast_nodes(ast, 0);
            lemma_too_deep(nodes, options.nest_limit as int);
        },
    }
}

/// A well-formed pattern whose tree is too deep is rejected with the nest limit
/// and with the span of the first node that is too deep.
pub proof fn law_too_deep_is_rejected(p: Seq<char>, options: Options)
    requires
        syntax(p, options.octal, options.ignore_space).1 is Ok,
        parse(p, options) is Err,
    ensures
        ({
            let nodes = ast_nodes(syntax(p, options.octal, options.ignore_space).1->Ok_0, 0);
            exists|k: int|
                {
                    &&& 0 <= k < nodes.len()
                    &&& (#[trigger] nodes[k]).depth >= options.nest_limit
                    &&& forall|j: int|
                        0 <= j < k ==> (#[trigger] nodes[j]).depth < options.nest_limit
                    &&& parse(p, options) == fail::<WithCommentsView>(
                        nodes[k].span,
                        ErrorKind::NestLimitExceeded(options.nest_limit),
                    )
                }
        }),
{
    let ast = syntax(p, options.octal, options.ignore_space).1->Ok_0;
    lemma_too_deep(ast_nodes(ast, 0), options.nest_limit as int);
}

/// A nest limit of zero rejects every pattern, and every well-formed one with a
/// nest limit error that covers the whole tree.
pub proof fn law_limit_zero_rejects_all(p: Seq<char>, options: Options)
    requires
        options.nest_limit == 0,
    ensures
        parse(p, options) is Err,
        match syntax(p, options.octal, options.ignore_space).1 {
            Ok(ast) => parse(p, options) == fail::<WithCommentsView>(
                ast_span(ast),
                ErrorKind::NestLimitExceeded(0),
            ),
            Err(e) => parse(p, options) == Err::<WithCommentsView, Error>(e),
        },
{
    match syntax(p, options.octal, options.ignore_space) {
        (c, Err(e)) => {},
        (c, Ok(ast)) => {
            lemma_root(ast);
            let nodes = ast_nodes(ast, 0);
            lemma_too_deep(nodes, 0);
            if too_deep(nodes, 0) is None {
                assert(nodes[0].depth < 0);
            } else {
                let k = choose|k: int|
                    {
                        &&& 0 <= k < nodes.len()
                        &&& #[trigger] nodes[k] == too_deep(nodes, 0)->0
                        &&& nodes[k].depth >= 0
                        &&& forall|j: int| 0 <= j < k ==> (#[trigger] nodes[j]).depth < 0
                    };
                if k > 0 {
                    assert(nodes[0].depth < 0);
                }
            }
        },
    }
}

/// A sequence of trees at some depth has a node at that depth.
proof fn lemma_first_of_many(asts: Seq<AstView>, depth: int)
    requires
        asts.len() > 0,
    ensures
        asts_nodes(asts, depth).len() > 0,
        asts_nodes(asts, depth)[0].depth == depth,
    decreases asts.len(),
{
    let first = ast_nodes(asts.last(), depth);
    assert(first[0].depth == depth);
    if asts.len() > 1 {
        lemma_first_of_many(asts.drop_last(), depth);
    } else {
        assert(asts_nodes(asts.drop_last(), depth).len() == 0);
    }
}

/// A nest limit of one accepts no group, no repetition, no alternation and no
/// concatenation.
pub proof fn law_limit_one_accepts_leaves_only(p: Seq<char>, options: Options)
    requires
        options.nest_limit == 1,
        parse(p, options) is Ok,
    ensures
        match parse(p, options)->Ok_0.ast {
            AstView::Group(_) => false,
            AstView::Repetition(_) => false,
            AstView::Alternation(_) => false,
            AstView::Concat(_) => false,
            _ => true,
        },
{
    law_accepted_iff_not_too_deep(p, options);
    law_trees_are_normal(p, options);
    let ast = parse(p, options)->Ok_0.ast;
    let nodes = ast_nodes(ast, 0);
    match ast {
        AstView::Group(x) => {
            assert(nodes[1] == ast_nodes(*x.ast, 1)[0]);
        },
        AstView::Repetition(x) => {
            assert(nodes[1] == ast_nodes(*x.ast, 1)[0]);
        },
        AstView::Alternation(x) => {
            lemma_first_of_many(x.asts, 1);
            assert(nodes[1] == asts_nodes(x.asts, 1)[0]);
        },
        AstView::Concat(x) => {
            lemma_first_of_many(x.asts, 1);
            assert(nodes[1] == asts_nodes(x.asts, 1)[0]);
        },
        _ => {},
    }
}

/// A pattern that is accepted under a nest limit is accepted with the same
/// result under every greater one.
pub proof fn law_limit_is_monotone(p: Seq<char>, options: Options, limit: u32)
    requires
        parse(p, options) is Ok,
        options.nest_limit <= limit,
    ensures
        parse(p, (Options { nest_limit: limit, ..options })) == parse(p, options),
{
    let more = Options { nest_limit: limit, ..options };
    law_accepted_iff_not_too_deep(p, options);
    law_accepted_iff_not_too_deep(p, more);
    let nodes = ast_nodes(syntax(p, options.octal, options.ignore_space).1->Ok_0, 0);
    assert forall|k: int| 0 <= k < nodes.len() implies (#[trigger] nodes[k]).depth < limit by {
        assert(nodes[k].depth < options.nest_limit);
    }
}

/// The span of the first node of a tree with as many nodes above it as the limit
/// says, from left to right and from the top, if there is one.
pub open spec fn first_at(ast: AstView, limit: int) -> Option<Span>
    decreases ast,
{
    if limit <= 0 {
        Some(ast_span(ast))
    } else {
        match ast {
            AstView::Class(ClassView::Bracketed(set)) => first_at_set(set.op, limit),
            AstView::Repetition(x) => first_at(*x.ast, limit - 1),
            AstView::Group(x) => first_at(*x.ast, limit - 1),
            AstView::Alternation(x) => first_at_of(x.asts, limit - 1),
            AstView::Concat(x) => first_at_of(x.asts, limit - 1),
            _ => None,
        }
    }
}

/// The same of the first of several trees that has such a node.
pub open spec fn first_at_of(asts: Seq<AstView>, limit: int) -> Option<Span>
    decreases asts,
{
    if asts.len() == 0 {
        None
    } else if first_at_of(asts.drop_last(), limit) is Some {
        first_at_of(asts.drop_last(), limit)
    } else {
        first_at(asts.last(), limit)
    }
}

/// The same of what a class in brackets consists of, where the operands of an
/// operator, and the classes among the items, are one level below it.
pub open spec fn first_at_set(op: ClassSetOpView, limit: int) -> Option<Span>
    decreases op,
{
    if limit <= 0 {
        Some(class_set_op_span(op))
    } else {
        match op {
            ClassSetOpView::Union(x) => first_at_class(x.items, limit - 1),
            ClassSetOpView::BinaryOp(x) => match first_at_set(*x.lhs, limit - 1) {
                Some(span) => Some(span),
                None => first_at_set(*x.rhs, limit - 1),
            },
        }
    }
}

/// The same of the first class among items.
pub open spec fn first_at_class(items: Seq<ClassSetItemView>, limit: int) -> Option<Span>
    decreases items,
{
    if items.len() == 0 {
        None
    } else if first_at_class(items.drop_last(), limit) is Some {
        first_at_class(items.drop_last(), limit)
    } else {
        match items.last() {
            ClassSetItemView::Class(x) => if limit <= 0 {
                Some(class_span(*x))
            } else {
                match *x {
                    ClassView::Bracketed(set) => first_at_set(set.op, limit),
                    _ => None,
                }
            },
            _ => None,
        }
    }
}

/// The span of a node, if there is one.
spec fn node_span(node: Option<Node>) -> Option<Span> {
    match node {
        Some(node) => Some(node.span),
        None => None,
    }
}

proof fn lemma_one_node(node: Node, limit: int)
    ensures
        too_deep(seq![node], limit) == if node.depth >= limit {
            Some(node)
        } else {
            None
        },
{
    assert(seq![node].drop_last() =~= Seq::empty());
    assert(too_deep(Seq::empty(), limit) is None);
}

proof fn lemma_first_at_set(op: ClassSetOpView, depth: int, limit: int)
    ensures
        node_span(too_deep(class_op_nodes(op, depth), limit)) == first_at_set(op, limit - depth),
    decreases op,
{
    let root = Node { depth, span: class_set_op_span(op) };
    lemma_one_node(root, limit);
    match op {
        ClassSetOpView::Union(x) => {
            let below = class_items_nodes(x.items, depth + 1);
            lemma_too_deep_add(seq![root], below, limit);
            lemma_first_at_class(x.items, depth + 1, limit);
        },
        ClassSetOpView::BinaryOp(x) => {
            let lhs = class_op_nodes(*x.lhs, depth + 1);
            let rhs = class_op_nodes(*x.rhs, depth + 1);
            lemma_too_deep_add(seq![root], lhs + rhs, limit);
            lemma_too_deep_add(lhs, rhs, limit);
            lemma_first_at_set(*x.lhs, depth + 1, limit);
            lemma_first_at_set(*x.rhs, depth + 1, limit);
        },
    }
}

proof fn lemma_first_at_class(items: Seq<ClassSetItemView>, depth: int, limit: int)
    ensures
        node_span(too_deep(class_items_nodes(items, depth), limit)) == first_at_class(
            items,
            limit - depth,
        ),
    decreases items,
{
    if items.len() > 0 {
        let front = class_items_nodes(items.drop_last(), depth);
        lemma_first_at_class(items.drop_last(), depth, limit);
        match items.last() {
            ClassSetItemView::Class(x) => {
                lemma_too_deep_add(front, class_nodes(*x, depth), limit);
                lemma_first_at_nodes(*x, depth, limit);
            },
            _ => {
                assert(front + Seq::empty() =~= front);
            },
        }
    }
}

proof fn lemma_first_at_nodes(class: ClassView, depth: int, limit: int)
    ensures
        node_span(too_deep(class_nodes(class, depth), limit)) == if depth >= limit {
            Some(class_span(class))
        } else {
            match class {
                ClassView::Bracketed(set) => first_at_set(set.op, limit - depth),
                _ => None,
            }
        },
    decreases class,
{
    let root = Node { depth, span: class_span(class) };
    lemma_one_node(root, limit);
    match class {
        ClassView::Bracketed(set) => {
            lemma_too_deep_add(seq![root], class_op_nodes(set.op, depth), limit);
            lemma_first_at_set(set.op, depth, limit);
        },
        _ => {
            assert(seq![root] + Seq::empty() =~= seq![root]);
        },
    }
}

proof fn lemma_first_at(ast: AstView, depth: int, limit: int)
    ensures
        node_span(too_deep(ast_nodes(ast, depth), limit)) == first_at(ast, limit - depth),
    decreases ast,
{
    let root = Node { depth, span: ast_span(ast) };
    lemma_one_node(root, limit);
    match ast {
        AstView::Class(class) => {
            lemma_too_deep_add(seq![root], class_nodes(class, depth), limit);
            lemma_first_at_nodes(class, depth, limit);
        },
        AstView::Repetition(x) => {
            lemma_too_deep_add(seq![root], ast_nodes(*x.ast, depth + 1), limit);
            lemma_first_at(*x.ast, depth + 1, limit);
        },
        AstView::Group(x) => {
            lemma_too_deep_add(seq![root], ast_nodes(*x.ast, depth + 1), limit);
            lemma_first_at(*x.ast, depth + 1, limit);
        },
        AstView::Alternation(x) => {
            lemma_too_deep_add(seq![root], asts_nodes(x.asts, depth + 1), limit);
            lemma_first_at_of(x.asts, depth + 1, limit);
        },
        AstView::Concat(x) => {
            lemma_too_deep_add(seq![root], asts_nodes(x.asts, depth + 1), limit);
            lemma_first_at_of(x.asts, depth + 1, limit);
        },
        _ => {
            assert(seq![root] + Seq::empty() =~= seq![root]);
        },
    }
}

proof fn lemma_first_at_of(asts: Seq<AstView>, depth: int, limit: int)
    ensures
        node_span(too_deep(asts_nodes(asts, depth), limit)) == first_at_of(asts, limit - depth),
    decreases asts,
{
    if asts.len() > 0 {
        let front = asts_nodes(asts.drop_last(), depth);
        lemma_first_at_of(asts.drop_last(), depth, limit);
        lemma_too_deep_add(front, ast_nodes(asts.last(), depth), limit);
        lemma_first_at(asts.last(), depth, limit);
    }
}

/// A well-formed pattern is accepted if and only if no node of its tree has as
/// many nodes above it as the nest limit says. Otherwise the first such node is
/// reported, with the limit.
pub proof fn law_first_node_at_the_limit_is_reported(p: Seq<char>, options: Options)
    ensures
        match syntax(p, options.octal, options.ignore_space) {
            (c, Ok(ast)) => match first_at(ast, options.nest_limit as int) {
                None => parse(p, options) == Ok::<WithCommentsView, Error>(
                    WithCommentsView { ast, comments: c.comments },
                ),
                Some(span) => parse(p, options) == fail::<WithCommentsView>(
                    span,
                    ErrorKind::NestLimitExceeded(options.nest_limit),
                ),
            },
            (_, Err(e)) => parse(p, options) == Err::<WithCommentsView, Error>(e),
        },
{
    match syntax(p, options.octal, options.ignore_space) {
        (c, Ok(ast)) => {
            lemma_first_at(ast, 0, options.nest_limit as int);
        },
        _ => {},
    }
}

} // verus!
