//! The mathematical description of parsing: ghost models of the syntax tree
//! and of parse errors, the three dispatch tables as functions over token
//! kinds, and a recursive definition of the precedence-climbing algorithm
//! over a sequence of tokens. Every executable parsing function is proved
//! equal to its definition here.
//!
//! Each parsing function of the model takes the sequence of tokens still to
//! be consumed and returns the outcome together with the tokens left over.
//! The executable parser only runs while a current token exists and only
//! calls a handler after it has consumed something, so the model guards
//! those spots and leaves them unconstrained (`arbitrary()`) outside the
//! guard; the guards are discharged wherever the model is related to the
//! executable code.

use vstd::prelude::*;
use crate::ast::{Expression, Statement};
use crate::parser::{
    LeftDenotationHandlerTypes, NullDenotationHandlerTypes, ParserErrors, StatementHandlerTypes,
};
use crate::token::{Token, TokenKind, TokenModel};

verus! {

/// The model of an expression node: the tree with every literal text
/// abstracted to its character sequence.
pub enum ExprModel {
    Str(Seq<char>),
    Number(Seq<char>),
    Float(Seq<char>),
    Groupping(Box<ExprModel>),
    Unary(TokenModel, Box<ExprModel>),
    Binary(Box<ExprModel>, TokenKind, Box<ExprModel>),
    Symbol(Seq<char>),
    Assignment(Box<ExprModel>),
}

/// The model of a statement node.
pub enum StmtModel {
    Expression(ExprModel),
    Block(Seq<StmtModel>),
    Variable(Seq<char>, bool, Option<Seq<char>>, Option<ExprModel>),
}

/// The model of a parse error.
pub enum ErrModel {
    NoFunctionHandler(TokenModel),
    UnexpectedExpressionType(TokenModel),
    NextTokenNotFound,
    NumberIsNotANumber(TokenModel),
    BindingPowerError,
    UnexpectedTokenKind(TokenModel),
}

pub open spec fn view_expr(e: Expression) -> ExprModel
    decreases e,
{
    match e {
        Expression::String(s) => ExprModel::Str(s@),
        Expression::Number(s) => ExprModel::Number(s@),
        Expression::Float(s) => ExprModel::Float(s@),
        Expression::Groupping(inner) => ExprModel::Groupping(Box::new(view_expr(*inner))),
        Expression::Unary(t, inner) => ExprModel::Unary(t@, Box::new(view_expr(*inner))),
        Expression::Binary(l, k, r) => ExprModel::Binary(
            Box::new(view_expr(*l)),
            k,
            Box::new(view_expr(*r)),
        ),
        Expression::Symbol(s) => ExprModel::Symbol(s@),
        Expression::Assignment(inner) => ExprModel::Assignment(Box::new(view_expr(*inner))),
    }
}

pub open spec fn view_stmt(s: Statement) -> StmtModel
    decreases s,
{
    match s {
        Statement::Expression(e) => StmtModel::Expression(view_expr(e)),
        Statement::Block(v) => StmtModel::Block(view_stmts(v@)),
        Statement::Variable(name, is_const, ty, init) => StmtModel::Variable(
            name@,
            is_const,
            match ty {
                Some(t) => Some(t@),
                None => None,
            },
            match init {
                Some(e) => Some(view_expr(e)),
                None => None,
            },
        ),
    }
}

pub open spec fn view_stmts(v: Seq<Statement>) -> Seq<StmtModel>
    decreases v,
{
    if v.len() == 0 {
        Seq::empty()
    } else {
        view_stmts(v.drop_last()).push(view_stmt(v.last()))
    }
}

pub open spec fn view_err(e: ParserErrors) -> ErrModel {
    match e {
        ParserErrors::NoFunctionHandler(t) => ErrModel::NoFunctionHandler(t@),
        ParserErrors::UnexpectedExpressionType(t) => ErrModel::UnexpectedExpressionType(t@),
        ParserErrors::NextTokenNotFound => ErrModel::NextTokenNotFound,
        ParserErrors::NumberIsNotANumber(t) => ErrModel::NumberIsNotANumber(t@),
        ParserErrors::BindingPowerError => ErrModel::BindingPowerError,
        ParserErrors::UnexpectedTokenKind(t) => ErrModel::UnexpectedTokenKind(t@),
    }
}

pub open spec fn view_expr_result(r: Result<Expression, ParserErrors>) -> Result<
    ExprModel,
    ErrModel,
> {
    match r {
        Ok(e) => Ok(view_expr(e)),
        Err(e) => Err(view_err(e)),
    }
}

pub open spec fn view_token_result(r: Result<Token, ParserErrors>) -> Result<
    TokenModel,
    ErrModel,
> {
    match r {
        Ok(t) => Ok(t@),
        Err(e) => Err(view_err(e)),
    }
}

pub open spec fn view_stmt_result(r: Result<Statement, ParserErrors>) -> Result<
    StmtModel,
    ErrModel,
> {
    match r {
        Ok(s) => Ok(view_stmt(s)),
        Err(e) => Err(view_err(e)),
    }
}

pub open spec fn view_parse_result(r: Result<Vec<Statement>, ParserErrors>) -> Result<
    Seq<StmtModel>,
    ErrModel,
> {
    match r {
        Ok(v) => Ok(view_stmts(v@)),
        Err(e) => Err(view_err(e)),
    }
}

/// The null-denotation table: how an expression starts at a given token kind.
pub open spec fn sp_null_handler(kind: TokenKind) -> Option<NullDenotationHandlerTypes> {
    match kind {
        TokenKind::Number | TokenKind::String | TokenKind::Identifier => Some(
            NullDenotationHandlerTypes::Default,
        ),
        TokenKind::Minus | TokenKind::Not => Some(NullDenotationHandlerTypes::Unary),
        TokenKind::OpenParen => Some(NullDenotationHandlerTypes::Groupping),
        _ => None,
    }
}

/// The left-denotation table: how an expression continues at a given token
/// kind once a left operand exists.
pub open spec fn sp_left_handler(kind: TokenKind) -> Option<LeftDenotationHandlerTypes> {
    match kind {
        TokenKind::And
        | TokenKind::Or
        | TokenKind::DotDot
        | TokenKind::Less
        | TokenKind::LessEquals
        | TokenKind::Greater
        | TokenKind::GreaterEquals
        | TokenKind::Equals
        | TokenKind::NotEquals
        | TokenKind::Plus
        | TokenKind::Minus
        | TokenKind::Star
        | TokenKind::Slash
        | TokenKind::Percent => Some(LeftDenotationHandlerTypes::Default),
        TokenKind::Assignment => Some(LeftDenotationHandlerTypes::Assignment),
        _ => None,
    }
}

/// The statement table: which statement handler a token kind selects.
/// Absence means "parse a bare expression statement".
pub open spec fn sp_stmt_handler(kind: TokenKind) -> Option<StatementHandlerTypes> {
    match kind {
        TokenKind::Let | TokenKind::Const => Some(StatementHandlerTypes::Variable),
        TokenKind::OpenCurly => Some(StatementHandlerTypes::Block),
        _ => None,
    }
}

/// A well-formed token sequence: nonempty and closed by an end-of-input
/// token, as the lexer always produces it.
pub open spec fn eof_terminated(toks: Seq<Token>) -> bool {
    toks.len() > 0 && toks[toks.len() - 1].kind == TokenKind::Eof
}

/// Consuming a token other than the closing end-of-input one keeps the
/// sequence nonempty and still closed by end-of-input.
pub proof fn lemma_eof_after_consume(toks: Seq<Token>)
    requires
        eof_terminated(toks),
        toks[0].kind != TokenKind::Eof,
    ensures
        toks.drop_first().len() > 0,
        eof_terminated(toks.drop_first()),
{
    assert(toks.len() >= 2);
    assert(toks.drop_first()[toks.len() - 2] == toks[toks.len() - 1]);
}

/// Requiring one token of the given kind: the token is consumed when it
/// matches and reported (and left in place) when it does not.
pub open spec fn sp_expect(toks: Seq<Token>, kind: TokenKind) -> (Result<TokenModel, ErrModel>, Seq<
    Token,
>) {
    if toks.len() == 0 {
        arbitrary()
    } else if toks[0].kind == kind {
        (Ok(toks[0]@), toks.drop_first())
    } else {
        (Err(ErrModel::UnexpectedTokenKind(toks[0]@)), toks)
    }
}

/// Requiring one token whose kind lies in the given set.
pub open spec fn sp_expect_any(toks: Seq<Token>, kinds: Seq<TokenKind>) -> (Result<
    TokenModel,
    ErrModel,
>, Seq<Token>) {
    if toks.len() == 0 {
        arbitrary()
    } else if kinds.contains(toks[0].kind) {
        (Ok(toks[0]@), toks.drop_first())
    } else {
        (Err(ErrModel::UnexpectedTokenKind(toks[0]@)), toks)
    }
}

/// A primary expression: one literal or identifier token, mapped to its
/// node. The dispatch table routes only those kinds here; any other kind
/// reaching this point is an internal defect, not a parse error.
pub open spec fn sp_parse_primary(toks: Seq<Token>) -> (Result<ExprModel, ErrModel>, Seq<Token>) {
    if toks.len() == 0 {
        arbitrary()
    } else {
        let t = toks[0];
        if t.kind == TokenKind::Number {
            (Ok(ExprModel::Number(t.value@)), toks.drop_first())
        } else if t.kind == TokenKind::String {
            (Ok(ExprModel::Str(t.value@)), toks.drop_first())
        } else if t.kind == TokenKind::Identifier {
            (Ok(ExprModel::Symbol(t.value@)), toks.drop_first())
        } else {
            arbitrary()
        }
    }
}

/// A unary expression: the operator, then a full expression at binding
/// power zero as its operand.
pub open spec fn sp_parse_unary(toks: Seq<Token>) -> (Result<ExprModel, ErrModel>, Seq<Token>)
    decreases toks.len(), 0int,
{
    if toks.len() == 0 {
        arbitrary()
    } else {
        let op = toks[0];
        if op.kind == TokenKind::Minus || op.kind == TokenKind::Not {
            let r = sp_parse_expression(toks.drop_first(), 0);
            match r.0 {
                Ok(operand) => (Ok(ExprModel::Unary(op@, Box::new(operand))), r.1),
                Err(e) => (Err(e), r.1),
            }
        } else {
            (Err(ErrModel::UnexpectedTokenKind(op@)), toks.drop_first())
        }
    }
}

/// A parenthesized grouping: `(`, a full expression, `)`.
pub open spec fn sp_parse_grouping(toks: Seq<Token>) -> (Result<ExprModel, ErrModel>, Seq<Token>)
    decreases toks.len(), 0int,
{
    if toks.len() == 0 {
        arbitrary()
    } else if toks[0].kind != TokenKind::OpenParen {
        (Err(ErrModel::UnexpectedTokenKind(toks[0]@)), toks)
    } else {
        let r = sp_parse_expression(toks.drop_first(), 0);
        match r.0 {
            Err(e) => (Err(e), r.1),
            Ok(inner) => {
                let r2 = sp_expect(r.1, TokenKind::CloseParen);
                match r2.0 {
                    Err(e) => (Err(e), r2.1),
                    Ok(_) => (Ok(ExprModel::Groupping(Box::new(inner))), r2.1),
                }
            },
        }
    }
}

/// A binary expression: the operator, then the right operand parsed at the
/// operator's own binding power, joined to the given left operand.
pub open spec fn sp_parse_binary(left: ExprModel, toks: Seq<Token>, power: u8) -> (Result<
    ExprModel,
    ErrModel,
>, Seq<Token>)
    decreases toks.len(), 0int,
{
    if toks.len() == 0 {
        arbitrary()
    } else {
        let op = toks[0];
        let r = sp_parse_expression(toks.drop_first(), power);
        match r.0 {
            Err(e) => (Err(e), r.1),
            Ok(right) => (
                Ok(ExprModel::Binary(Box::new(left), op.kind, Box::new(right))),
                r.1,
            ),
        }
    }
}

/// An assignment: the assignment token, then the assigned value parsed at
/// the supplied power. The node records only the assigned value; the
/// grammar does not retain the assignment target.
pub open spec fn sp_parse_assignment(toks: Seq<Token>, power: u8) -> (Result<ExprModel, ErrModel>, Seq<
    Token,
>)
    decreases toks.len(), 0int,
{
    if toks.len() == 0 {
        arbitrary()
    } else {
        let r = sp_parse_expression(toks.drop_first(), power);
        match r.0 {
            Err(e) => (Err(e), r.1),
            Ok(value) => (Ok(ExprModel::Assignment(Box::new(value))), r.1),
        }
    }
}

/// Starting an expression at the current token, through the
/// null-denotation table.
pub open spec fn sp_null_denotation(toks: Seq<Token>) -> (Result<ExprModel, ErrModel>, Seq<Token>)
    decreases toks.len(), 1int,
{
    if toks.len() == 0 {
        arbitrary()
    } else {
        match sp_null_handler(toks[0].kind) {
            None => (Err(ErrModel::NoFunctionHandler(toks[0]@)), toks),
            Some(NullDenotationHandlerTypes::Default) => sp_parse_primary(toks),
            Some(NullDenotationHandlerTypes::Groupping) => sp_parse_grouping(toks),
            Some(NullDenotationHandlerTypes::Unary) => sp_parse_unary(toks),
        }
    }
}

/// Continuing an expression at the current token, through the
/// left-denotation table; the token's own binding power becomes the new
/// minimum for its right operand.
pub open spec fn sp_left_denotation(left: ExprModel, toks: Seq<Token>) -> (Result<
    ExprModel,
    ErrModel,
>, Seq<Token>)
    decreases toks.len(), 1int,
{
    if toks.len() == 0 {
        arbitrary()
    } else {
        match sp_left_handler(toks[0].kind) {
            None => (Err(ErrModel::UnexpectedExpressionType(toks[0]@)), toks),
            Some(LeftDenotationHandlerTypes::Default) => sp_parse_binary(
                left,
                toks,
                toks[0].binding_power,
            ),
            Some(LeftDenotationHandlerTypes::Assignment) => sp_parse_assignment(
                toks,
                toks[0].binding_power,
            ),
        }
    }
}

/// The precedence-climbing loop: while the current token binds more
/// tightly than the minimum, fold it into the left operand.
pub open spec fn sp_expression_loop(left: ExprModel, toks: Seq<Token>, min_bp: u8) -> (Result<
    ExprModel,
    ErrModel,
>, Seq<Token>)
    decreases toks.len(), 2int,
{
    if toks.len() == 0 {
        arbitrary()
    } else if toks[0].binding_power <= min_bp {
        (Ok(left), toks)
    } else {
        let r = sp_left_denotation(left, toks);
        match r.0 {
            Err(e) => (Err(e), r.1),
            Ok(folded) => {
                if r.1.len() < toks.len() {
                    sp_expression_loop(folded, r.1, min_bp)
                } else {
                    arbitrary()
                }
            },
        }
    }
}

/// A full expression at the given minimum binding power: a null denotation
/// for the first token, then the precedence-climbing loop.
pub open spec fn sp_parse_expression(toks: Seq<Token>, min_bp: u8) -> (Result<ExprModel, ErrModel>, Seq<
    Token,
>)
    decreases toks.len(), 3int,
{
    if toks.len() == 0 {
        arbitrary()
    } else {
        let r = sp_null_denotation(toks);
        match r.0 {
            Err(e) => (Err(e), r.1),
            Ok(left) => {
                if r.1.len() < toks.len() {
                    sp_expression_loop(left, r.1, min_bp)
                } else {
                    arbitrary()
                }
            },
        }
    }
}

/// The initializer part of a variable declaration, after the name and the
/// optional type annotation: either `= expression ;` or a bare `;`.
pub open spec fn sp_variable_init(
    name: TokenModel,
    is_const: bool,
    ty: Option<Seq<char>>,
    toks: Seq<Token>,
) -> (Result<StmtModel, ErrModel>, Seq<Token>)
    decreases toks.len(), 4int,
{
    if toks.len() == 0 {
        arbitrary()
    } else if toks[0].kind != TokenKind::Assignment && toks[0].kind != TokenKind::SemiColon {
        (Err(ErrModel::UnexpectedTokenKind(toks[0]@)), toks)
    } else if toks[0].kind == TokenKind::Assignment {
        let r = sp_parse_expression(toks.drop_first(), 0);
        match r.0 {
            Err(e) => (Err(e), r.1),
            Ok(value) => {
                let r2 = sp_expect(r.1, TokenKind::SemiColon);
                match r2.0 {
                    Err(e) => (Err(e), r2.1),
                    Ok(_) => (
                        Ok(StmtModel::Variable(name.value, is_const, ty, Some(value))),
                        r2.1,
                    ),
                }
            },
        }
    } else {
        (Ok(StmtModel::Variable(name.value, is_const, ty, None)), toks.drop_first())
    }
}

/// A variable declaration: `let` or `const`, the declared name, an optional
/// `: typename`, and the initializer part.
pub open spec fn sp_parse_variable(toks: Seq<Token>) -> (Result<StmtModel, ErrModel>, Seq<Token>)
    decreases toks.len(), 5int,
{
    if toks.len() == 0 {
        arbitrary()
    } else {
        let let_token = toks[0];
        let toks1 = toks.drop_first();
        if let_token.kind != TokenKind::Const && let_token.kind != TokenKind::Let {
            (Err(ErrModel::UnexpectedTokenKind(let_token@)), toks1)
        } else {
            let is_const = let_token.kind == TokenKind::Const;
            let rname = sp_expect(toks1, TokenKind::Identifier);
            match rname.0 {
                Err(e) => (Err(e), rname.1),
                Ok(name) => {
                    let toks2 = rname.1;
                    if toks2.len() == 0 {
                        arbitrary()
                    } else if toks2[0].kind != TokenKind::Colon && toks2[0].kind
                        != TokenKind::Assignment && toks2[0].kind != TokenKind::SemiColon {
                        (Err(ErrModel::UnexpectedTokenKind(toks2[0]@)), toks2)
                    } else if toks2[0].kind == TokenKind::Colon {
                        let toks3 = toks2.drop_first();
                        if toks3.len() == 0 {
                            arbitrary()
                        } else {
                            let ty = toks3[0];
                            let toks4 = toks3.drop_first();
                            if ty.kind != TokenKind::Identifier {
                                (Err(ErrModel::UnexpectedTokenKind(ty@)), toks4)
                            } else {
                                sp_variable_init(name, is_const, Some(ty.value@), toks4)
                            }
                        }
                    } else {
                        sp_variable_init(name, is_const, None, toks2)
                    }
                },
            }
        }
    }
}

/// The statements of a block, accumulated until the closing brace is the
/// current token.
pub open spec fn sp_block_items(acc: Seq<StmtModel>, toks: Seq<Token>) -> (Result<
    Seq<StmtModel>,
    ErrModel,
>, Seq<Token>)
    decreases toks.len(), 7int,
{
    if toks.len() == 0 {
        arbitrary()
    } else if toks[0].kind == TokenKind::CloseCurly {
        (Ok(acc), toks)
    } else {
        let r = sp_parse_statement(toks);
        match r.0 {
            Err(e) => (Err(e), r.1),
            Ok(s) => {
                if r.1.len() < toks.len() {
                    sp_block_items(acc.push(s), r.1)
                } else {
                    arbitrary()
                }
            },
        }
    }
}

/// A block statement: `{`, statements until `}`, `}`.
pub open spec fn sp_parse_block(toks: Seq<Token>) -> (Result<StmtModel, ErrModel>, Seq<Token>)
    decreases toks.len(), 5int,
{
    if toks.len() == 0 {
        arbitrary()
    } else if toks[0].kind != TokenKind::OpenCurly {
        (Err(ErrModel::UnexpectedTokenKind(toks[0]@)), toks)
    } else {
        let r = sp_block_items(Seq::empty(), toks.drop_first());
        match r.0 {
            Err(e) => (Err(e), r.1),
            Ok(stmts) => {
                let r2 = sp_expect(r.1, TokenKind::CloseCurly);
                match r2.0 {
                    Err(e) => (Err(e), r2.1),
                    Ok(_) => (Ok(StmtModel::Block(stmts)), r2.1),
                }
            },
        }
    }
}

/// One statement: a declaration keyword or block opener through the
/// statement table, and otherwise one expression closed by a semicolon.
pub open spec fn sp_parse_statement(toks: Seq<Token>) -> (Result<StmtModel, ErrModel>, Seq<Token>)
    decreases toks.len(), 6int,
{
    if toks.len() == 0 {
        arbitrary()
    } else {
        match sp_stmt_handler(toks[0].kind) {
            Some(StatementHandlerTypes::Variable) => sp_parse_variable(toks),
            Some(StatementHandlerTypes::Block) => sp_parse_block(toks),
            // never in the table: nothing registers the fall-through handler
            Some(StatementHandlerTypes::Default) => arbitrary(),
            None => {
                let r = sp_parse_expression(toks, 0);
                match r.0 {
                    Err(e) => (Err(e), r.1),
                    Ok(e) => {
                        let r2 = sp_expect(r.1, TokenKind::SemiColon);
                        match r2.0 {
                            Err(err) => (Err(err), r2.1),
                            Ok(_) => (Ok(StmtModel::Expression(e)), r2.1),
                        }
                    },
                }
            },
        }
    }
}

/// The statements of a whole program, accumulated until end-of-input is the
/// current token.
pub open spec fn sp_program_items(acc: Seq<StmtModel>, toks: Seq<Token>) -> (Result<
    Seq<StmtModel>,
    ErrModel,
>, Seq<Token>)
    decreases toks.len(), 7int,
{
    if toks.len() == 0 {
        arbitrary()
    } else if toks[0].kind == TokenKind::Eof {
        (Ok(acc), toks)
    } else {
        let r = sp_parse_statement(toks);
        match r.0 {
            Err(e) => (Err(e), r.1),
            Ok(s) => {
                if r.1.len() < toks.len() {
                    sp_program_items(acc.push(s), r.1)
                } else {
                    arbitrary()
                }
            },
        }
    }
}

/// What parsing a whole token sequence yields: the statements up to
/// end-of-input, or the first error.
pub open spec fn sp_parse(toks: Seq<Token>) -> Result<Seq<StmtModel>, ErrModel>
    decreases toks.len(), 8int,
{
    sp_program_items(Seq::empty(), toks).0
}

/// Whether some token of the sequence has this model.
pub open spec fn token_present(toks: Seq<Token>, t: TokenModel) -> bool {
    exists|i: int| 0 <= i < toks.len() && toks[i]@ == t
}

/// Whether the token an error reports, if it reports one, is present in
/// the sequence.
pub open spec fn error_token_present(toks: Seq<Token>, e: ErrModel) -> bool {
    match e {
        ErrModel::NoFunctionHandler(t) => token_present(toks, t),
        ErrModel::UnexpectedExpressionType(t) => token_present(toks, t),
        ErrModel::NumberIsNotANumber(t) => token_present(toks, t),
        ErrModel::UnexpectedTokenKind(t) => token_present(toks, t),
        ErrModel::NextTokenNotFound => true,
        ErrModel::BindingPowerError => true,
    }
}

/// Whether `rem` is what is left of `toks` after consuming some prefix.
pub open spec fn is_suffix_of(rem: Seq<Token>, toks: Seq<Token>) -> bool {
    exists|k: int| 0 <= k <= toks.len() && rem == toks.skip(k)
}

proof fn lemma_suffix_refl(toks: Seq<Token>)
    ensures
        is_suffix_of(toks, toks),
{
    assert(toks =~= toks.skip(0));
}

proof fn lemma_suffix_drop_first(toks: Seq<Token>)
    requires
        toks.len() > 0,
    ensures
        is_suffix_of(toks.drop_first(), toks),
{
    assert(toks.drop_first() =~= toks.skip(1));
}

proof fn lemma_suffix_trans(a: Seq<Token>, b: Seq<Token>, c: Seq<Token>)
    requires
        is_suffix_of(a, b),
        is_suffix_of(b, c),
    ensures
        is_suffix_of(a, c),
{
    let k1 = choose|k: int| 0 <= k <= b.len() && a == b.skip(k);
    let k2 = choose|k: int| 0 <= k <= c.len() && b == c.skip(k);
    assert(a =~= c.skip(k1 + k2));
}

/// A token reported within a suffix is present in the whole sequence.
proof fn lemma_present_suffix(toks: Seq<Token>, rem: Seq<Token>, e: ErrModel)
    requires
        is_suffix_of(rem, toks),
        error_token_present(rem, e),
    ensures
        error_token_present(toks, e),
{
    let k = choose|k: int| 0 <= k <= toks.len() && rem == toks.skip(k);
    match e {
        ErrModel::NoFunctionHandler(t) | ErrModel::UnexpectedExpressionType(t)
            | ErrModel::NumberIsNotANumber(t) | ErrModel::UnexpectedTokenKind(t) => {
            let i = choose|i: int| 0 <= i < rem.len() && rem[i]@ == t;
            assert(toks[i + k]@ == t);
        },
        _ => {},
    }
}

proof fn lemma_primary_props(toks: Seq<Token>)
    requires
        eof_terminated(toks),
        sp_null_handler(toks[0].kind) == Some(NullDenotationHandlerTypes::Default),
    ensures
        is_suffix_of(sp_parse_primary(toks).1, toks),
        sp_parse_primary(toks).0 is Ok ==> eof_terminated(sp_parse_primary(toks).1)
            && sp_parse_primary(toks).1.len() < toks.len(),
        sp_parse_primary(toks).0 is Err ==> error_token_present(toks, sp_parse_primary(
            toks,
        ).0->Err_0),
{
    lemma_eof_after_consume(toks);
    lemma_suffix_drop_first(toks);
}

proof fn lemma_unary_props(toks: Seq<Token>)
    requires
        eof_terminated(toks),
    ensures
        is_suffix_of(sp_parse_unary(toks).1, toks),
        sp_parse_unary(toks).0 is Ok ==> eof_terminated(sp_parse_unary(toks).1)
            && sp_parse_unary(toks).1.len() < toks.len(),
        sp_parse_unary(toks).0 is Err ==> error_token_present(toks, sp_parse_unary(toks).0->Err_0),
    decreases toks.len(), 0int,
{
    let op = toks[0];
    lemma_suffix_drop_first(toks);
    if op.kind == TokenKind::Minus || op.kind == TokenKind::Not {
        lemma_eof_after_consume(toks);
        lemma_expression_props(toks.drop_first(), 0);
        let r = sp_parse_expression(toks.drop_first(), 0);
        lemma_suffix_trans(r.1, toks.drop_first(), toks);
        if r.0 is Err {
            lemma_present_suffix(toks, toks.drop_first(), r.0->Err_0);
        }
    } else {
        assert(toks[0]@ == op@);
    }
}

proof fn lemma_grouping_props(toks: Seq<Token>)
    requires
        eof_terminated(toks),
    ensures
        is_suffix_of(sp_parse_grouping(toks).1, toks),
        sp_parse_grouping(toks).0 is Ok ==> eof_terminated(sp_parse_grouping(toks).1)
            && sp_parse_grouping(toks).1.len() < toks.len(),
        sp_parse_grouping(toks).0 is Err ==> error_token_present(toks, sp_parse_grouping(
            toks,
        ).0->Err_0),
    decreases toks.len(), 0int,
{
    if toks[0].kind != TokenKind::OpenParen {
        lemma_suffix_refl(toks);
        assert(token_present(toks, toks[0]@));
    } else {
        lemma_eof_after_consume(toks);
        lemma_suffix_drop_first(toks);
        lemma_expression_props(toks.drop_first(), 0);
        let r = sp_parse_expression(toks.drop_first(), 0);
        lemma_suffix_trans(r.1, toks.drop_first(), toks);
        match r.0 {
            Err(e) => {
                lemma_present_suffix(toks, toks.drop_first(), e);
            },
            Ok(_) => {
                let r2 = sp_expect(r.1, TokenKind::CloseParen);
                if r.1[0].kind == TokenKind::CloseParen {
                    lemma_eof_after_consume(r.1);
                    lemma_suffix_drop_first(r.1);
                    lemma_suffix_trans(r2.1, r.1, toks);
                } else {
                    assert(error_token_present(r.1, r2.0->Err_0));
                    lemma_present_suffix(toks, r.1, r2.0->Err_0);
                }
            },
        }
    }
}

proof fn lemma_binary_props(left: ExprModel, toks: Seq<Token>, power: u8)
    requires
        eof_terminated(toks),
        toks[0].kind != TokenKind::Eof,
    ensures
        is_suffix_of(sp_parse_binary(left, toks, power).1, toks),
        sp_parse_binary(left, toks, power).0 is Ok ==> eof_terminated(
            sp_parse_binary(left, toks, power).1,
        ) && sp_parse_binary(left, toks, power).1.len() < toks.len(),
        sp_parse_binary(left, toks, power).0 is Err ==> error_token_present(
            toks,
            sp_parse_binary(left, toks, power).0->Err_0,
        ),
    decreases toks.len(), 0int,
{
    lemma_eof_after_consume(toks);
    lemma_suffix_drop_first(toks);
    lemma_expression_props(toks.drop_first(), power);
    let r = sp_parse_expression(toks.drop_first(), power);
    lemma_suffix_trans(r.1, toks.drop_first(), toks);
    if r.0 is Err {
        lemma_present_suffix(toks, toks.drop_first(), r.0->Err_0);
    }
}

proof fn lemma_assignment_props(toks: Seq<Token>, power: u8)
    requires
        eof_terminated(toks),
        toks[0].kind != TokenKind::Eof,
    ensures
        is_suffix_of(sp_parse_assignment(toks, power).1, toks),
        sp_parse_assignment(toks, power).0 is Ok ==> eof_terminated(
            sp_parse_assignment(toks, power).1,
        ) && sp_parse_assignment(toks, power).1.len() < toks.len(),
        sp_parse_assignment(toks, power).0 is Err ==> error_token_present(
            toks,
            sp_parse_assignment(toks, power).0->Err_0,
        ),
    decreases toks.len(), 0int,
{
    lemma_eof_after_consume(toks);
    lemma_suffix_drop_first(toks);
    lemma_expression_props(toks.drop_first(), power);
    let r = sp_parse_expression(toks.drop_first(), power);
    lemma_suffix_trans(r.1, toks.drop_first(), toks);
    if r.0 is Err {
        lemma_present_suffix(toks, toks.drop_first(), r.0->Err_0);
    }
}

proof fn lemma_null_denotation_props(toks: Seq<Token>)
    requires
        eof_terminated(toks),
    ensures
        is_suffix_of(sp_null_denotation(toks).1, toks),
        sp_null_denotation(toks).0 is Ok ==> eof_terminated(sp_null_denotation(toks).1)
            && sp_null_denotation(toks).1.len() < toks.len(),
        sp_null_denotation(toks).0 is Err ==> error_token_present(toks, sp_null_denotation(
            toks,
        ).0->Err_0),
    decreases toks.len(), 1int,
{
    match sp_null_handler(toks[0].kind) {
        None => {
            lemma_suffix_refl(toks);
            assert(token_present(toks, toks[0]@));
        },
        Some(NullDenotationHandlerTypes::Default) => {
            lemma_primary_props(toks);
        },
        Some(NullDenotationHandlerTypes::Groupping) => {
            lemma_grouping_props(toks);
        },
        Some(NullDenotationHandlerTypes::Unary) => {
            lemma_unary_props(toks);
        },
    }
}

proof fn lemma_left_denotation_props(left: ExprModel, toks: Seq<Token>)
    requires
        eof_terminated(toks),
    ensures
        is_suffix_of(sp_left_denotation(left, toks).1, toks),
        sp_left_denotation(left, toks).0 is Ok ==> eof_terminated(sp_left_denotation(left, toks).1)
            && sp_left_denotation(left, toks).1.len() < toks.len(),
        sp_left_denotation(left, toks).0 is Err ==> error_token_present(
            toks,
            sp_left_denotation(left, toks).0->Err_0,
        ),
    decreases toks.len(), 1int,
{
    match sp_left_handler(toks[0].kind) {
        None => {
            lemma_suffix_refl(toks);
            assert(token_present(toks, toks[0]@));
        },
        Some(LeftDenotationHandlerTypes::Default) => {
            assert(toks[0].kind != TokenKind::Eof);
            lemma_binary_props(left, toks, toks[0].binding_power);
        },
        Some(LeftDenotationHandlerTypes::Assignment) => {
            assert(toks[0].kind != TokenKind::Eof);
            lemma_assignment_props(toks, toks[0].binding_power);
        },
    }
}

proof fn lemma_expression_loop_props(left: ExprModel, toks: Seq<Token>, min_bp: u8)
    requires
        eof_terminated(toks),
    ensures
        is_suffix_of(sp_expression_loop(left, toks, min_bp).1, toks),
        sp_expression_loop(left, toks, min_bp).0 is Ok ==> eof_terminated(
            sp_expression_loop(left, toks, min_bp).1,
        ) && sp_expression_loop(left, toks, min_bp).1.len() <= toks.len(),
        sp_expression_loop(left, toks, min_bp).0 is Err ==> error_token_present(
            toks,
            sp_expression_loop(left, toks, min_bp).0->Err_0,
        ),
    decreases toks.len(), 2int,
{
    if toks[0].binding_power <= min_bp {
        lemma_suffix_refl(toks);
    } else {
        lemma_left_denotation_props(left, toks);
        let r = sp_left_denotation(left, toks);
        match r.0 {
            Err(_) => {},
            Ok(folded) => {
                lemma_expression_loop_props(folded, r.1, min_bp);
                let r2 = sp_expression_loop(folded, r.1, min_bp);
                lemma_suffix_trans(r2.1, r.1, toks);
                if r2.0 is Err {
                    lemma_present_suffix(toks, r.1, r2.0->Err_0);
                }
            },
        }
    }
}

proof fn lemma_expression_props(toks: Seq<Token>, min_bp: u8)
    requires
        eof_terminated(toks),
    ensures
        is_suffix_of(sp_parse_expression(toks, min_bp).1, toks),
        sp_parse_expression(toks, min_bp).0 is Ok ==> eof_terminated(
            sp_parse_expression(toks, min_bp).1,
        ) && sp_parse_expression(toks, min_bp).1.len() < toks.len(),
        sp_parse_expression(toks, min_bp).0 is Err ==> error_token_present(
            toks,
            sp_parse_expression(toks, min_bp).0->Err_0,
        ),
    decreases toks.len(), 3int,
{
    lemma_null_denotation_props(toks);
    let r = sp_null_denotation(toks);
    match r.0 {
        Err(_) => {},
        Ok(left) => {
            lemma_expression_loop_props(left, r.1, min_bp);
            let r2 = sp_expression_loop(left, r.1, min_bp);
            lemma_suffix_trans(r2.1, r.1, toks);
            if r2.0 is Err {
                lemma_present_suffix(toks, r.1, r2.0->Err_0);
            }
        },
    }
}

proof fn lemma_variable_init_props(
    name: TokenModel,
    is_const: bool,
    ty: Option<Seq<char>>,
    toks: Seq<Token>,
)
    requires
        eof_terminated(toks),
    ensures
        is_suffix_of(sp_variable_init(name, is_const, ty, toks).1, toks),
        sp_variable_init(name, is_const, ty, toks).0 is Ok ==> eof_terminated(
            sp_variable_init(name, is_const, ty, toks).1,
        ) && sp_variable_init(name, is_const, ty, toks).1.len() < toks.len(),
        sp_variable_init(name, is_const, ty, toks).0 is Err ==> error_token_present(
            toks,
            sp_variable_init(name, is_const, ty, toks).0->Err_0,
        ),
    decreases toks.len(), 4int,
{
    if toks[0].kind != TokenKind::Assignment && toks[0].kind != TokenKind::SemiColon {
        lemma_suffix_refl(toks);
        assert(token_present(toks, toks[0]@));
    } else if toks[0].kind == TokenKind::Assignment {
        lemma_eof_after_consume(toks);
        lemma_suffix_drop_first(toks);
        lemma_expression_props(toks.drop_first(), 0);
        let r = sp_parse_expression(toks.drop_first(), 0);
        lemma_suffix_trans(r.1, toks.drop_first(), toks);
        match r.0 {
            Err(e) => {
                lemma_present_suffix(toks, toks.drop_first(), e);
            },
            Ok(_) => {
                let r2 = sp_expect(r.1, TokenKind::SemiColon);
                if r.1[0].kind == TokenKind::SemiColon {
                    lemma_eof_after_consume(r.1);
                    lemma_suffix_drop_first(r.1);
                    lemma_suffix_trans(r2.1, r.1, toks);
                } else {
                    assert(error_token_present(r.1, r2.0->Err_0));
                    lemma_present_suffix(toks, r.1, r2.0->Err_0);
                }
            },
        }
    } else {
        lemma_eof_after_consume(toks);
        lemma_suffix_drop_first(toks);
    }
}

proof fn lemma_variable_props(toks: Seq<Token>)
    requires
        eof_terminated(toks),
    ensures
        is_suffix_of(sp_parse_variable(toks).1, toks),
        sp_parse_variable(toks).0 is Ok ==> eof_terminated(sp_parse_variable(toks).1)
            && sp_parse_variable(toks).1.len() < toks.len(),
        sp_parse_variable(toks).0 is Err ==> error_token_present(toks, sp_parse_variable(
            toks,
        ).0->Err_0),
    decreases toks.len(), 5int,
{
    let let_token = toks[0];
    let toks1 = toks.drop_first();
    lemma_suffix_drop_first(toks);
    if let_token.kind != TokenKind::Const && let_token.kind != TokenKind::Let {
        assert(toks[0]@ == let_token@);
    } else {
        lemma_eof_after_consume(toks);
        if toks1[0].kind != TokenKind::Identifier {
            assert(error_token_present(toks1, sp_expect(toks1, TokenKind::Identifier).0->Err_0));
            lemma_present_suffix(toks, toks1, sp_expect(toks1, TokenKind::Identifier).0->Err_0);
        } else {
            lemma_eof_after_consume(toks1);
            let toks2 = toks1.drop_first();
            lemma_suffix_drop_first(toks1);
            lemma_suffix_trans(toks2, toks1, toks);
            if toks2[0].kind != TokenKind::Colon && toks2[0].kind != TokenKind::Assignment
                && toks2[0].kind != TokenKind::SemiColon {
                assert(token_present(toks2, toks2[0]@));
                lemma_present_suffix(
                    toks,
                    toks2,
                    ErrModel::UnexpectedTokenKind(toks2[0]@),
                );
            } else if toks2[0].kind == TokenKind::Colon {
                lemma_eof_after_consume(toks2);
                let toks3 = toks2.drop_first();
                lemma_suffix_drop_first(toks2);
                lemma_suffix_trans(toks3, toks2, toks);
                let ty = toks3[0];
                let toks4 = toks3.drop_first();
                lemma_suffix_drop_first(toks3);
                lemma_suffix_trans(toks4, toks3, toks);
                if ty.kind != TokenKind::Identifier {
                    assert(token_present(toks3, ty@));
                    lemma_present_suffix(toks, toks3, ErrModel::UnexpectedTokenKind(ty@));
                } else {
                    lemma_eof_after_consume(toks3);
                    lemma_variable_init_props(
                        sp_expect(toks1, TokenKind::Identifier).0->Ok_0,
                        let_token.kind == TokenKind::Const,
                        Some(ty.value@),
                        toks4,
                    );
                    let r = sp_variable_init(
                        sp_expect(toks1, TokenKind::Identifier).0->Ok_0,
                        let_token.kind == TokenKind::Const,
                        Some(ty.value@),
                        toks4,
                    );
                    lemma_suffix_trans(r.1, toks4, toks);
                    if r.0 is Err {
                        lemma_present_suffix(toks, toks4, r.0->Err_0);
                    }
                }
            } else {
                lemma_variable_init_props(
                    sp_expect(toks1, TokenKind::Identifier).0->Ok_0,
                    let_token.kind == TokenKind::Const,
                    None,
                    toks2,
                );
                let r = sp_variable_init(
                    sp_expect(toks1, TokenKind::Identifier).0->Ok_0,
                    let_token.kind == TokenKind::Const,
                    None,
                    toks2,
                );
                lemma_suffix_trans(r.1, toks2, toks);
                if r.0 is Err {
                    lemma_present_suffix(toks, toks2, r.0->Err_0);
                }
            }
        }
    }
}

proof fn lemma_block_items_props(acc: Seq<StmtModel>, toks: Seq<Token>)
    requires
        eof_terminated(toks),
    ensures
        is_suffix_of(sp_block_items(acc, toks).1, toks),
        sp_block_items(acc, toks).0 is Ok ==> eof_terminated(sp_block_items(acc, toks).1)
            && sp_block_items(acc, toks).1.len() <= toks.len(),
        sp_block_items(acc, toks).0 is Err ==> error_token_present(toks, sp_block_items(
            acc,
            toks,
        ).0->Err_0),
    decreases toks.len(), 7int,
{
    if toks[0].kind == TokenKind::CloseCurly {
        lemma_suffix_refl(toks);
    } else {
        lemma_statement_props(toks);
        let r = sp_parse_statement(toks);
        match r.0 {
            Err(_) => {},
            Ok(s) => {
                lemma_block_items_props(acc.push(s), r.1);
                let r2 = sp_block_items(acc.push(s), r.1);
                lemma_suffix_trans(r2.1, r.1, toks);
                if r2.0 is Err {
                    lemma_present_suffix(toks, r.1, r2.0->Err_0);
                }
            },
        }
    }
}

proof fn lemma_block_props(toks: Seq<Token>)
    requires
        eof_terminated(toks),
    ensures
        is_suffix_of(sp_parse_block(toks).1, toks),
        sp_parse_block(toks).0 is Ok ==> eof_terminated(sp_parse_block(toks).1)
            && sp_parse_block(toks).1.len() < toks.len(),
        sp_parse_block(toks).0 is Err ==> error_token_present(toks, sp_parse_block(
            toks,
        ).0->Err_0),
    decreases toks.len(), 5int,
{
    if toks[0].kind != TokenKind::OpenCurly {
        lemma_suffix_refl(toks);
        assert(token_present(toks, toks[0]@));
    } else {
        lemma_eof_after_consume(toks);
        lemma_suffix_drop_first(toks);
        lemma_block_items_props(Seq::empty(), toks.drop_first());
        let r = sp_block_items(Seq::empty(), toks.drop_first());
        lemma_suffix_trans(r.1, toks.drop_first(), toks);
        match r.0 {
            Err(e) => {
                lemma_present_suffix(toks, toks.drop_first(), e);
            },
            Ok(_) => {
                let r2 = sp_expect(r.1, TokenKind::CloseCurly);
                if r.1[0].kind == TokenKind::CloseCurly {
                    lemma_eof_after_consume(r.1);
                    lemma_suffix_drop_first(r.1);
                    lemma_suffix_trans(r2.1, r.1, toks);
                } else {
                    assert(error_token_present(r.1, r2.0->Err_0));
                    lemma_present_suffix(toks, r.1, r2.0->Err_0);
                }
            },
        }
    }
}

proof fn lemma_statement_props(toks: Seq<Token>)
    requires
        eof_terminated(toks),
    ensures
        is_suffix_of(sp_parse_statement(toks).1, toks),
        sp_parse_statement(toks).0 is Ok ==> eof_terminated(sp_parse_statement(toks).1)
            && sp_parse_statement(toks).1.len() < toks.len(),
        sp_parse_statement(toks).0 is Err ==> error_token_present(toks, sp_parse_statement(
            toks,
        ).0->Err_0),
    decreases toks.len(), 6int,
{
    match sp_stmt_handler(toks[0].kind) {
        Some(StatementHandlerTypes::Variable) => {
            lemma_variable_props(toks);
        },
        Some(StatementHandlerTypes::Block) => {
            lemma_block_props(toks);
        },
        Some(StatementHandlerTypes::Default) => {
            assert(false);
        },
        None => {
            lemma_expression_props(toks, 0);
            let r = sp_parse_expression(toks, 0);
            match r.0 {
                Err(_) => {},
                Ok(_) => {
                    let r2 = sp_expect(r.1, TokenKind::SemiColon);
                    if r.1[0].kind == TokenKind::SemiColon {
                        lemma_eof_after_consume(r.1);
                        lemma_suffix_drop_first(r.1);
                        lemma_suffix_trans(r2.1, r.1, toks);
                    } else {
                        assert(error_token_present(r.1, r2.0->Err_0));
                        lemma_present_suffix(toks, r.1, r2.0->Err_0);
                    }
                },
            }
        },
    }
}

proof fn lemma_program_items_props(acc: Seq<StmtModel>, toks: Seq<Token>)
    requires
        eof_terminated(toks),
    ensures
        sp_program_items(acc, toks).0 is Err ==> error_token_present(toks, sp_program_items(
            acc,
            toks,
        ).0->Err_0),
    decreases toks.len(), 7int,
{
    if toks[0].kind == TokenKind::Eof {
    } else {
        lemma_statement_props(toks);
        let r = sp_parse_statement(toks);
        match r.0 {
            Err(_) => {},
            Ok(s) => {
                lemma_program_items_props(acc.push(s), r.1);
                let r2 = sp_program_items(acc.push(s), r.1);
                if r2.0 is Err {
                    lemma_present_suffix(toks, r.1, r2.0->Err_0);
                }
            },
        }
    }
}

/// For every well-formed token sequence (nonempty and closed by one
/// end-of-input token), parsing yields either a complete statement
/// sequence or an error that identifies a token actually present in the
/// input. Together with `Parser::parse`'s contract, this covers the
/// executable parser: it never panics on such input, and any error it
/// returns points at one of the given tokens.
pub proof fn lemma_parse_error_references_input(toks: Seq<Token>)
    requires
        eof_terminated(toks),
    ensures
        sp_parse(toks) is Err ==> error_token_present(toks, sp_parse(toks)->Err_0),
{
    lemma_program_items_props(Seq::empty(), toks);
}

} // verus!
