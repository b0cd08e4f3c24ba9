//! A parser for regular expressions.
//!
//! [`Parser`] turns the text of a regular expression into an abstract syntax
//! tree, or says where and why the text is not well-formed. [`grammar`] says
//! what the tree of a text is, [`parser`] computes it, and [`laws`] states what
//! holds of all texts.

pub mod ast;
pub mod chars;
pub mod grammar;
pub mod laws;
pub mod parser;
pub mod primitive;
pub mod text;

pub use crate::parser::{Parser, ParserBuilder};
