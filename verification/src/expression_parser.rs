//! The expression handlers the dispatch tables route to: primary, unary,
//! grouping, binary and assignment expressions.

use vstd::prelude::*;
use crate::ast::Expression;
use crate::parse_spec::{
    eof_terminated, lemma_eof_after_consume, sp_null_handler, sp_parse_assignment,
    sp_parse_binary, sp_parse_grouping, sp_parse_primary, sp_parse_unary, view_expr,
    view_expr_result,
};
use crate::parser::{NullDenotationHandlerTypes, Parser, ParserErrors};
use crate::token::TokenKind;

verus! {

impl Parser {
    /// One operator token (`-` or `not`), then a full expression at binding
    /// power zero as its operand.
    pub(crate) fn parse_unary_expression(&mut self) -> (r: Result<Expression, ParserErrors>)
        requires
            old(self).tokens@.len() > 0,
            eof_terminated(old(self).tokens@),
        ensures
            sp_parse_unary(old(self).tokens@) == (view_expr_result(r), final(self).tokens@),
            r is Ok ==> final(self).tokens@.len() < old(self).tokens@.len() && eof_terminated(
                final(self).tokens@,
            ),
            final(self).tokens@.len() <= old(self).tokens@.len(),
        decreases old(self).tokens@.len(), 0int,
    {
        let operator = self.next_token()?;
        match operator.kind {
            TokenKind::Minus | TokenKind::Not => {},
            _ => {
                return Err(ParserErrors::UnexpectedTokenKind(operator));
            },
        }
        proof {
            lemma_eof_after_consume(old(self).tokens@);
        }
        let expression = self.parse_expression(0)?;

        Ok(Expression::Unary(operator, Box::new(expression)))
    }

    /// `(`, a full expression, `)`.
    pub(crate) fn parse_groupping_expression(&mut self) -> (r: Result<Expression, ParserErrors>)
        requires
            old(self).tokens@.len() > 0,
            eof_terminated(old(self).tokens@),
        ensures
            sp_parse_grouping(old(self).tokens@) == (view_expr_result(r), final(self).tokens@),
            r is Ok ==> final(self).tokens@.len() < old(self).tokens@.len() && eof_terminated(
                final(self).tokens@,
            ),
            final(self).tokens@.len() <= old(self).tokens@.len(),
        decreases old(self).tokens@.len(), 0int,
    {
        self.expect_token(&TokenKind::OpenParen)?;
        let inner = self.parse_expression(0)?;
        self.expect_token(&TokenKind::CloseParen)?;

        Ok(Expression::Groupping(Box::new(inner)))
    }

    /// The operator token, then the right operand at the operator's own
    /// binding power, joined to the given left operand.
    pub(crate) fn parse_binary_expression(&mut self, left: Expression, power: u8) -> (r: Result<
        Expression,
        ParserErrors,
    >)
        requires
            old(self).tokens@.len() > 0,
            eof_terminated(old(self).tokens@),
            old(self).tokens@[0].kind != TokenKind::Eof,
        ensures
            sp_parse_binary(view_expr(left), old(self).tokens@, power) == (
                view_expr_result(r),
                final(self).tokens@,
            ),
            r is Ok ==> final(self).tokens@.len() < old(self).tokens@.len() && eof_terminated(
                final(self).tokens@,
            ),
            final(self).tokens@.len() <= old(self).tokens@.len(),
        decreases old(self).tokens@.len(), 0int,
    {
        let op_token = self.next_token()?;
        proof {
            lemma_eof_after_consume(old(self).tokens@);
        }
        let right = self.parse_expression(power)?;

        Ok(Expression::Binary(Box::new(left), op_token.kind, Box::new(right)))
    }

    /// One literal or identifier token, mapped to its node. The dispatch
    /// table routes only those kinds here; anything else is an internal
    /// defect, not a parse error.
    pub(crate) fn parse_primary_expression(&mut self) -> (r: Result<Expression, ParserErrors>)
        requires
            old(self).tokens@.len() > 0,
            eof_terminated(old(self).tokens@),
            sp_null_handler(old(self).tokens@[0].kind) == Some(NullDenotationHandlerTypes::Default),
        ensures
            sp_parse_primary(old(self).tokens@) == (view_expr_result(r), final(self).tokens@),
            r is Ok ==> final(self).tokens@.len() < old(self).tokens@.len() && eof_terminated(
                final(self).tokens@,
            ),
            final(self).tokens@.len() <= old(self).tokens@.len(),
    {
        proof {
            lemma_eof_after_consume(old(self).tokens@);
        }
        let next_token = self.next_token()?;
        match next_token.kind {
            TokenKind::Number => Ok(Expression::Number(next_token.value)),
            TokenKind::String => Ok(Expression::String(next_token.value)),
            TokenKind::Identifier => Ok(Expression::Symbol(next_token.value)),
            _ => unreached(),
        }
    }

    /// The assignment token, then the assigned value at the supplied
    /// power. The node records only the assigned value; the grammar does
    /// not retain the assignment target.
    pub(crate) fn parse_assignment_expression(&mut self, power: u8) -> (r: Result<
        Expression,
        ParserErrors,
    >)
        requires
            old(self).tokens@.len() > 0,
            eof_terminated(old(self).tokens@),
            old(self).tokens@[0].kind != TokenKind::Eof,
        ensures
            sp_parse_assignment(old(self).tokens@, power) == (
                view_expr_result(r),
                final(self).tokens@,
            ),
            r is Ok ==> final(self).tokens@.len() < old(self).tokens@.len() && eof_terminated(
                final(self).tokens@,
            ),
            final(self).tokens@.len() <= old(self).tokens@.len(),
        decreases old(self).tokens@.len(), 0int,
    {
        self.next_token()?;
        proof {
            lemma_eof_after_consume(old(self).tokens@);
        }
        let value = self.parse_expression(power)?;

        Ok(Expression::Assignment(Box::new(value)))
    }
}

} // verus!
