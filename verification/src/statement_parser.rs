//! The statement handlers the dispatch table routes to: block statements
//! and variable declarations.

use vstd::prelude::*;
use crate::ast::{Expression, Statement};
use crate::parse_spec::{
    eof_terminated, lemma_eof_after_consume, sp_block_items, sp_parse_block, sp_parse_variable,
    view_stmts, view_stmt_result,
};
use crate::parser::{clone_token, Parser, ParserErrors};
use crate::token::TokenKind;

verus! {

impl Parser {
    /// `{`, statements until `}`, `}`.
    pub(crate) fn parse_block_statement(&mut self) -> (r: Result<Statement, ParserErrors>)
        requires
            old(self).tokens@.len() > 0,
            eof_terminated(old(self).tokens@),
        ensures
            sp_parse_block(old(self).tokens@) == (view_stmt_result(r), final(self).tokens@),
            r is Ok ==> final(self).tokens@.len() < old(self).tokens@.len() && eof_terminated(
                final(self).tokens@,
            ),
            final(self).tokens@.len() <= old(self).tokens@.len(),
        decreases old(self).tokens@.len(), 3int,
    {
        self.expect_token(&TokenKind::OpenCurly)?;
        let ghost opened = self.tokens@;
        let mut statements: Vec<Statement> = Vec::new();
        while self.current_token().kind != TokenKind::CloseCurly
            invariant
                self.tokens@.len() > 0,
                eof_terminated(self.tokens@),
                self.tokens@.len() <= opened.len(),
                old(self).tokens@.len() > 0,
                old(self).tokens@[0].kind == TokenKind::OpenCurly,
                opened == old(self).tokens@.drop_first(),
                sp_block_items(view_stmts(statements@), self.tokens@) == sp_block_items(
                    Seq::empty(),
                    opened,
                ),
            decreases self.tokens@.len(),
        {
            let ghost prior = statements@;
            let s = self.parse_statement()?;
            statements.push(s);
            proof {
                assert(statements@.drop_last() =~= prior);
            }
        }

        self.expect_token(&TokenKind::CloseCurly)?;

        Ok(Statement::Block(statements))
    }

    /// `let` or `const`, the declared name, an optional `: typename`, and
    /// either `= initializer ;` or a bare `;`.
    pub(crate) fn parse_variable_statement(&mut self) -> (r: Result<Statement, ParserErrors>)
        requires
            old(self).tokens@.len() > 0,
            eof_terminated(old(self).tokens@),
        ensures
            sp_parse_variable(old(self).tokens@) == (view_stmt_result(r), final(self).tokens@),
            r is Ok ==> final(self).tokens@.len() < old(self).tokens@.len() && eof_terminated(
                final(self).tokens@,
            ),
            final(self).tokens@.len() <= old(self).tokens@.len(),
        decreases old(self).tokens@.len(), 3int,
    {
        let let_token = self.next_token()?;
        let is_const = match let_token.kind {
            TokenKind::Const => true,
            TokenKind::Let => false,
            _ => {
                return Err(ParserErrors::UnexpectedTokenKind(let_token));
            },
        };
        proof {
            lemma_eof_after_consume(old(self).tokens@);
        }

        let name_token = self.expect_token(&TokenKind::Identifier)?;

        let has_explicit_type = match self.current_token().kind {
            TokenKind::Colon => true,
            TokenKind::Assignment | TokenKind::SemiColon => false,
            _ => {
                let t = clone_token(self.current_token());
                return Err(ParserErrors::UnexpectedTokenKind(t));
            },
        };

        let mut explicit_type_val: Option<String> = None;
        if has_explicit_type {
            self.expect_token(&TokenKind::Colon)?;
            let explicit_type = self.next_token()?;
            if explicit_type.kind != TokenKind::Identifier {
                return Err(ParserErrors::UnexpectedTokenKind(explicit_type));
            }
            explicit_type_val = Some(explicit_type.value);
        }

        let token = self.expect_any_token(&(vec![TokenKind::Assignment, TokenKind::SemiColon]))?;
        let mut expr: Option<Expression> = None;
        match token.kind {
            TokenKind::Assignment => {
                expr = Some(self.parse_expression(0)?);
                self.expect_token(&TokenKind::SemiColon)?;
            },
            TokenKind::SemiColon => {},
            _ => {
                return Err(ParserErrors::UnexpectedTokenKind(token));
            },
        }

        Ok(Statement::Variable(name_token.value, is_const, explicit_type_val, expr))
    }
}

} // verus!
