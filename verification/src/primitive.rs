//! Expressions with no sub-expressions.

use vstd::prelude::*;

use crate::ast::{
    Assertion, Ast, Class, ClassPerl, ClassSetItem, ClassUnicode, Error, ErrorKind, Literal, Span,
};
use crate::grammar::class::{into_class_literal, into_class_set_item, primitive_span};
use crate::grammar::escape::PrimitiveView;
use crate::grammar::expr::into_ast;
use crate::grammar::viewed;

verus! {

/// A primitive is an expression with no sub-expressions. This includes
/// literals, assertions and non-set character classes. This representation
/// is used as intermediate state in the parser.
///
/// This does not include ASCII character classes, since they can only appear
/// within a set character class.
#[derive(Clone, Debug, PartialEq, Eq)]
pub enum Primitive {
    /// A single character.
    Literal(Literal),
    /// A zero-width assertion.
    Assertion(Assertion),
    /// The "any character" class, `.`.
    Dot(Span),
    /// A Perl class.
    Perl(ClassPerl),
    /// A Unicode class.
    Unicode(ClassUnicode),
}

impl View for Primitive {
    type V = PrimitiveView;

    open spec fn view(&self) -> PrimitiveView {
        match *self {
            Primitive::Literal(x) => PrimitiveView::Literal(x),
            Primitive::Assertion(x) => PrimitiveView::Assertion(x),
            Primitive::Dot(span) => PrimitiveView::Dot(span),
            Primitive::Perl(x) => PrimitiveView::Perl(x),
            Primitive::Unicode(x) => PrimitiveView::Unicode(x@),
        }
    }
}

impl Primitive {
    /// Return the span of this primitive.
    pub fn span(&self) -> (r: &Span)
        ensures
            *r == primitive_span(self@),
    {
        match self {
            Primitive::Literal(x) => &x.span,
            Primitive::Assertion(x) => &x.span,
            Primitive::Dot(span) => span,
            Primitive::Perl(x) => &x.span,
            Primitive::Unicode(x) => &x.span,
        }
    }

    /// Convert this primitive into a proper AST.
    pub fn into_ast(self) -> (r: Ast)
        ensures
            r@ == into_ast(self@),
    {
        match self {
            Primitive::Literal(lit) => Ast::Literal(lit),
            Primitive::Assertion(assertion) => Ast::Assertion(assertion),
            Primitive::Dot(span) => Ast::Dot(span),
            Primitive::Perl(cls) => Ast::Class(Class::Perl(cls)),
            Primitive::Unicode(cls) => Ast::Class(Class::Unicode(cls)),
        }
    }

    /// Convert this primitive into an item in a character class.
    ///
    /// If this primitive is not a legal item (i.e., an assertion or a dot),
    /// then return an error.
    pub fn into_class_set_item(self) -> (r: Result<ClassSetItem, Error>)
        ensures
            viewed(r) == into_class_set_item(self@),
    {
        match self {
            Primitive::Literal(lit) => Ok(ClassSetItem::Literal(lit)),
            Primitive::Perl(cls) => Ok(ClassSetItem::Class(Box::new(Class::Perl(cls)))),
            Primitive::Unicode(cls) => Ok(ClassSetItem::Class(Box::new(Class::Unicode(cls)))),
            x => Err(Error { span: *x.span(), kind: ErrorKind::ClassIllegal }),
        }
    }

    /// Convert this primitive into a literal in a character class. In
    /// particular, literals are the only valid items that can appear in
    /// ranges.
    ///
    /// If this primitive is not a legal item (i.e., a class, assertion or a
    /// dot), then return an error.
    pub fn into_class_literal(self) -> (r: Result<Literal, Error>)
        ensures
            r == into_class_literal(self@),
    {
        match self {
            Primitive::Literal(lit) => Ok(lit),
            x => Err(Error { span: *x.span(), kind: ErrorKind::ClassIllegal }),
        }
    }
}

} // verus!
