//! The parser core: the token queue, the dispatch tables, and the
//! precedence-climbing engine. Every function is proved equal to its
//! definition in `parse_spec`.

use vstd::prelude::*;
use crate::ast::{Expression, Statement};
use crate::parse_spec::{
    eof_terminated, lemma_eof_after_consume, sp_expect, sp_expect_any, sp_left_denotation,
    sp_left_handler, sp_null_denotation, sp_null_handler, sp_parse, sp_parse_expression,
    sp_parse_statement, sp_program_items, sp_stmt_handler, view_expr, view_expr_result,
    view_parse_result, view_stmts, view_stmt_result, view_token_result,
};
use crate::token::{Token, TokenKind};

verus! {

/// The ways a parse can fail; token-carrying variants identify the
/// offending token.
#[derive(Debug)]
pub enum ParserErrors {
    NoFunctionHandler(Token),
    UnexpectedExpressionType(Token),
    NextTokenNotFound,
    NumberIsNotANumber(Token),
    BindingPowerError,
    UnexpectedTokenKind(Token),
}

/// Which left-denotation handler a token kind selects.
#[derive(Debug, Clone, PartialEq, PartialOrd, Hash)]
pub enum LeftDenotationHandlerTypes {
    Default,
    Assignment,
}

/// Which null-denotation handler a token kind selects.
#[derive(Debug, Clone, PartialEq, PartialOrd, Hash)]
pub enum NullDenotationHandlerTypes {
    Default,
    Groupping,
    Unary,
}

/// Which statement handler a token kind selects.
#[derive(Debug, Clone, PartialEq, PartialOrd, Hash)]
pub enum StatementHandlerTypes {
    Default,
    Variable,
    Block,
}

/// The parser: the queue of tokens still to be consumed. The three
/// dispatch tables are immutable and shared by every parse, so they live
/// in the table functions below rather than in each instance.
pub struct Parser {
    pub(crate) tokens: Vec<Token>,
}

/// A copy of a token, equal to the original in the model.
pub(crate) fn clone_token(t: &Token) -> (r: Token)
    ensures
        r@ == t@,
{
    Token {
        kind: t.kind,
        value: t.value.clone(),
        line: t.line,
        pos: t.pos,
        binding_power: t.binding_power,
    }
}

impl Parser {
    pub(crate) fn new(tokens: Vec<Token>) -> (p: Parser)
        ensures
            p.tokens@ == tokens@,
    {
        Parser { tokens }
    }

    /// The null-denotation dispatch table.
    fn null_denotation_of(kind: &TokenKind) -> (r: Option<NullDenotationHandlerTypes>)
        ensures
            r == sp_null_handler(*kind),
    {
        match kind {
            TokenKind::Number | TokenKind::String | TokenKind::Identifier => Some(
                NullDenotationHandlerTypes::Default,
            ),
            TokenKind::Minus | TokenKind::Not => Some(NullDenotationHandlerTypes::Unary),
            TokenKind::OpenParen => Some(NullDenotationHandlerTypes::Groupping),
            _ => None,
        }
    }

    /// The left-denotation dispatch table.
    fn left_denotation_of(kind: &TokenKind) -> (r: Option<LeftDenotationHandlerTypes>)
        ensures
            r == sp_left_handler(*kind),
    {
        match kind {
            TokenKind::And
            | TokenKind::Or
            | TokenKind::DotDot
            | TokenKind::Less
            | TokenKind::LessEquals
            | TokenKind::Greater
            | TokenKind::GreaterEquals
            | TokenKind::Equals
            | TokenKind::NotEquals
            | TokenKind::Plus
            | TokenKind::Minus
            | TokenKind::Star
            | TokenKind::Slash
            | TokenKind::Percent => Some(LeftDenotationHandlerTypes::Default),
            TokenKind::Assignment => Some(LeftDenotationHandlerTypes::Assignment),
            _ => None,
        }
    }

    /// The statement dispatch table.
    fn statement_handler_of(kind: &TokenKind) -> (r: Option<StatementHandlerTypes>)
        ensures
            r == sp_stmt_handler(*kind),
    {
        match kind {
            TokenKind::Let | TokenKind::Const => Some(StatementHandlerTypes::Variable),
            TokenKind::OpenCurly => Some(StatementHandlerTypes::Block),
            _ => None,
        }
    }

    fn has_tokens(&self) -> (r: bool)
        requires
            self.tokens@.len() > 0,
        ensures
            r == (self.tokens@[0].kind != TokenKind::Eof),
    {
        self.current_token().kind != TokenKind::Eof
    }

    pub(crate) fn current_token(&self) -> (t: &Token)
        requires
            self.tokens@.len() > 0,
        ensures
            *t == self.tokens@[0],
    {
        &self.tokens[0]
    }

    pub(crate) fn next_token(&mut self) -> (r: Result<Token, ParserErrors>)
        ensures
            old(self).tokens@.len() > 0 ==> (r == Ok::<Token, ParserErrors>(old(self).tokens@[0])
                && final(self).tokens@ == old(self).tokens@.drop_first()),
            old(self).tokens@.len() == 0 ==> (r == Err::<Token, ParserErrors>(
                ParserErrors::NextTokenNotFound,
            ) && final(self).tokens@ == old(self).tokens@),
    {
        if self.tokens.len() == 0 {
            Err(ParserErrors::NextTokenNotFound)
        } else {
            let t = self.tokens.remove(0);
            proof {
                assert(self.tokens@ =~= old(self).tokens@.drop_first());
            }
            Ok(t)
        }
    }

    pub(crate) fn expect_token(&mut self, kind: &TokenKind) -> (r: Result<Token, ParserErrors>)
        requires
            old(self).tokens@.len() > 0,
        ensures
            sp_expect(old(self).tokens@, *kind) == (view_token_result(r), final(self).tokens@),
            r is Ok ==> final(self).tokens@.len() < old(self).tokens@.len(),
            r is Err ==> final(self).tokens@ == old(self).tokens@,
            (r is Ok && eof_terminated(old(self).tokens@) && *kind != TokenKind::Eof)
                ==> eof_terminated(final(self).tokens@),
    {
        if *kind != self.current_token().kind {
            let t = clone_token(self.current_token());
            return Err(ParserErrors::UnexpectedTokenKind(t));
        }
        proof {
            if eof_terminated(self.tokens@) && *kind != TokenKind::Eof {
                lemma_eof_after_consume(self.tokens@);
            }
        }
        let token = self.next_token()?;
        Ok(token)
    }

    pub(crate) fn expect_any_token(&mut self, kinds: &Vec<TokenKind>) -> (r: Result<
        Token,
        ParserErrors,
    >)
        requires
            old(self).tokens@.len() > 0,
        ensures
            sp_expect_any(old(self).tokens@, kinds@) == (view_token_result(r), final(self).tokens@),
            r is Ok ==> final(self).tokens@.len() < old(self).tokens@.len(),
            r is Err ==> final(self).tokens@ == old(self).tokens@,
            (r is Ok && eof_terminated(old(self).tokens@) && !kinds@.contains(TokenKind::Eof))
                ==> eof_terminated(final(self).tokens@),
    {
        let mut is_correct = false;
        let mut i: usize = 0;
        while i < kinds.len()
            invariant
                i <= kinds@.len(),
                self.tokens@ == old(self).tokens@,
                self.tokens@.len() > 0,
                is_correct == exists|j: int|
                    0 <= j < i && kinds@[j] == self.tokens@[0].kind,
            decreases kinds@.len() - i,
        {
            if kinds[i] == self.current_token().kind {
                is_correct = true;
            }
            i += 1;
        }

        if is_correct {
            proof {
                if eof_terminated(self.tokens@) && !kinds@.contains(TokenKind::Eof) {
                    assert(self.tokens@[0].kind != TokenKind::Eof);
                    lemma_eof_after_consume(self.tokens@);
                }
            }
            let token = self.next_token()?;
            Ok(token)
        } else {
            let t = clone_token(self.current_token());
            Err(ParserErrors::UnexpectedTokenKind(t))
        }
    }

    fn try_parse_null_denotaion(&mut self, kind: &TokenKind) -> (r: Result<
        Expression,
        ParserErrors,
    >)
        requires
            old(self).tokens@.len() > 0,
            eof_terminated(old(self).tokens@),
            *kind == old(self).tokens@[0].kind,
        ensures
            sp_null_denotation(old(self).tokens@) == (view_expr_result(r), final(self).tokens@),
            r is Ok ==> final(self).tokens@.len() < old(self).tokens@.len() && eof_terminated(
                final(self).tokens@,
            ),
            final(self).tokens@.len() <= old(self).tokens@.len(),
        decreases old(self).tokens@.len(), 1int,
    {
        let handler_type = match Self::null_denotation_of(kind) {
            Some(h) => h,
            None => {
                let t = clone_token(self.current_token());
                return Err(ParserErrors::NoFunctionHandler(t));
            },
        };

        match handler_type {
            NullDenotationHandlerTypes::Default => self.parse_primary_expression(),
            NullDenotationHandlerTypes::Groupping => self.parse_groupping_expression(),
            NullDenotationHandlerTypes::Unary => self.parse_unary_expression(),
        }
    }

    fn try_parse_left_denotation(
        &mut self,
        left: Expression,
        new_power: u8,
        kind: &TokenKind,
    ) -> (r: Result<Expression, ParserErrors>)
        requires
            old(self).tokens@.len() > 0,
            eof_terminated(old(self).tokens@),
            *kind == old(self).tokens@[0].kind,
            new_power == old(self).tokens@[0].binding_power,
        ensures
            sp_left_denotation(view_expr(left), old(self).tokens@) == (
                view_expr_result(r),
                final(self).tokens@,
            ),
            r is Ok ==> final(self).tokens@.len() < old(self).tokens@.len() && eof_terminated(
                final(self).tokens@,
            ),
            final(self).tokens@.len() <= old(self).tokens@.len(),
        decreases old(self).tokens@.len(), 1int,
    {
        let function_type = match Self::left_denotation_of(kind) {
            Some(h) => h,
            None => {
                let t = clone_token(self.current_token());
                return Err(ParserErrors::UnexpectedExpressionType(t));
            },
        };

        match function_type {
            LeftDenotationHandlerTypes::Default => self.parse_binary_expression(left, new_power),
            LeftDenotationHandlerTypes::Assignment => self.parse_assignment_expression(new_power),
        }
    }

    pub(crate) fn parse_expression(&mut self, binding_power: u8) -> (r: Result<
        Expression,
        ParserErrors,
    >)
        requires
            old(self).tokens@.len() > 0,
            eof_terminated(old(self).tokens@),
        ensures
            sp_parse_expression(old(self).tokens@, binding_power) == (
                view_expr_result(r),
                final(self).tokens@,
            ),
            r is Ok ==> final(self).tokens@.len() < old(self).tokens@.len() && eof_terminated(
                final(self).tokens@,
            ),
            final(self).tokens@.len() <= old(self).tokens@.len(),
        decreases old(self).tokens@.len(), 2int,
    {
        let kind = self.current_token().kind;

        let mut left = self.try_parse_null_denotaion(&kind)?;

        while self.current_token().binding_power > binding_power
            invariant
                self.tokens@.len() > 0,
                eof_terminated(self.tokens@),
                self.tokens@.len() < old(self).tokens@.len(),
                sp_expression_loop_matches(
                    view_expr(left),
                    self.tokens@,
                    binding_power,
                    old(self).tokens@,
                ),
            decreases self.tokens@.len(),
        {
            let kind2 = self.current_token().kind;
            let new_power = self.current_token().binding_power;
            left = self.try_parse_left_denotation(left, new_power, &kind2)?;
        }

        Ok(left)
    }

    pub(crate) fn parse_statement(&mut self) -> (r: Result<Statement, ParserErrors>)
        requires
            old(self).tokens@.len() > 0,
            eof_terminated(old(self).tokens@),
        ensures
            sp_parse_statement(old(self).tokens@) == (view_stmt_result(r), final(self).tokens@),
            r is Ok ==> final(self).tokens@.len() < old(self).tokens@.len() && eof_terminated(
                final(self).tokens@,
            ),
            final(self).tokens@.len() <= old(self).tokens@.len(),
        decreases old(self).tokens@.len(), 4int,
    {
        let kind = self.current_token().kind;
        if let Some(statement_handler_type) = Self::statement_handler_of(&kind) {
            match statement_handler_type {
                StatementHandlerTypes::Variable => return self.parse_variable_statement(),
                StatementHandlerTypes::Block => return self.parse_block_statement(),
                // nothing registers the fall-through handler
                StatementHandlerTypes::Default => return unreached(),
            }
        }

        let expression = self.parse_expression(0)?;
        self.expect_token(&TokenKind::SemiColon)?;

        Ok(Statement::Expression(expression))
    }

    /// The top-level entry: parses statements until end-of-input, or stops
    /// at the first failure. The result is exactly what `sp_parse` yields
    /// on the token sequence.
    pub fn parse(tokens: Vec<Token>) -> (r: Result<Vec<Statement>, ParserErrors>)
        requires
            eof_terminated(tokens@),
        ensures
            view_parse_result(r) == sp_parse(tokens@),
    {
        let mut parser = Parser::new(tokens);
        let mut body: Vec<Statement> = Vec::new();
        while parser.has_tokens()
            invariant
                parser.tokens@.len() > 0,
                eof_terminated(parser.tokens@),
                sp_program_items(view_stmts(body@), parser.tokens@) == sp_program_items(
                    Seq::empty(),
                    tokens@,
                ),
            decreases parser.tokens@.len(),
        {
            let ghost prior = body@;
            let s = match parser.parse_statement() {
                Ok(s) => s,
                Err(e) => {
                    return Err(e);
                },
            };
            body.push(s);
            proof {
                assert(body@.drop_last() =~= prior);
            }
        }

        Ok(body)
    }
}

/// The loop invariant of the precedence-climbing loop: finishing the loop
/// from the current state yields the same outcome as the whole expression
/// parse from the starting state.
pub open spec fn sp_expression_loop_matches(
    left: crate::parse_spec::ExprModel,
    toks: Seq<Token>,
    min_bp: u8,
    toks0: Seq<Token>,
) -> bool {
    crate::parse_spec::sp_expression_loop(left, toks, min_bp) == sp_parse_expression(
        toks0,
        min_bp,
    )
}

} // verus!
