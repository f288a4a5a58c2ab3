//! The abstract syntax tree the parser produces: pure data, no behaviour
//! beyond construction and structural equality.

use vstd::prelude::*;
use crate::token::{Token, TokenKind};

verus! {

/// An expression node. Literals keep their original textual form; numeric
/// conversion is left to downstream consumers. Each node owns its children
/// exclusively, so the tree is acyclic and unshared.
#[derive(Debug, PartialEq)]
pub enum Expression {
    String(String),
    Number(String),
    Float(String),
    Groupping(Box<Expression>),
    Unary(Token, Box<Expression>),
    Binary(Box<Expression>, TokenKind, Box<Expression>),
    Symbol(String),
    Assignment(Box<Expression>),
}

/// A statement node. A variable declaration records, in order: the declared
/// name, whether it was introduced with `const`, the explicit type name if
/// one was written, and the initializer expression if one was written.
#[derive(Debug, PartialEq)]
pub enum Statement {
    Expression(Expression),
    Block(Vec<Statement>),
    Variable(String, bool, Option<String>, Option<Expression>),
}

} // verus!
