//! The grammar of regular expressions.
//!
//! Each rule is a function from a text and an index in it to the index at
//! which the rule ends and to what was found between the two: a part of the
//! syntax tree, or the error that the text holds there.

use either::Either;
use vstd::prelude::*;

use crate::ast::{Error, ErrorKind, Span};

pub mod class;
pub mod escape;
pub mod expr;
pub mod group;
pub mod nest;
pub mod number;
pub mod space;

verus! {

/// The type [`either::Either`], which holds a value of one of two types, in its
/// variant `Left` or in its variant `Right`.
#[verifier::external_type_specification]
#[verifier::reject_recursive_types(L)]
#[verifier::reject_recursive_types(R)]
pub struct ExEither<L, R>(either::Either<L, R>);

/// The outcome of a rule that fails.
pub open spec fn fail<T>(span: Span, kind: ErrorKind) -> Result<T, Error> {
    Err(Error { span, kind })
}

/// The view of what a method returns that can fail.
pub open spec fn viewed<T: View>(r: Result<T, Error>) -> Result<T::V, Error> {
    match r {
        Ok(x) => Ok(x@),
        Err(e) => Err(e),
    }
}

/// The view of one of two things.
pub open spec fn either_view<L: View, R: View>(e: Either<L, R>) -> Either<L::V, R::V> {
    match e {
        Either::Left(x) => Either::Left(x@),
        Either::Right(x) => Either::Right(x@),
    }
}

/// The view of what a method returns that can fail and finds one of two
/// things otherwise.
pub open spec fn viewed_either<L: View, R: View>(r: Result<Either<L, R>, Error>) -> Result<
    Either<L::V, R::V>,
    Error,
> {
    match r {
        Ok(e) => Ok(either_view(e)),
        Err(e) => Err(e),
    }
}

/// The options of a parser.
#[verifier::ext_equal]
pub struct Options {
    /// Whether verbose mode is on at the start of a pattern.
    pub ignore_space: bool,
    /// The number of levels that a tree may have.
    pub nest_limit: u32,
    /// Whether octal literals are supported.
    pub octal: bool,
}

} // verus!
