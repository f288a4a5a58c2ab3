use event_script::ast::{Expression, Statement};
use event_script::lexer::Lexer;
use event_script::parser::{Parser, ParserErrors};
use event_script::token::{Token, TokenKind};

fn parse_source(src: &str) -> Result<Vec<Statement>, ParserErrors> {
    let tokens = Lexer::tokenize(src.to_string()).unwrap();
    Parser::parse(tokens)
}

fn number(text: &str) -> Expression {
    Expression::Number(text.to_string())
}

fn binary(left: Expression, op: TokenKind, right: Expression) -> Expression {
    Expression::Binary(Box::new(left), op, Box::new(right))
}

#[test]
fn multiplication_binds_tighter_than_addition() {
    let stmts = parse_source("1 + 2 * 3;").unwrap();
    assert_eq!(
        stmts,
        vec![Statement::Expression(binary(
            number("1"),
            TokenKind::Plus,
            binary(number("2"), TokenKind::Star, number("3")),
        ))]
    );
}

#[test]
fn subtraction_is_left_associative() {
    let stmts = parse_source("1 - 2 - 3;").unwrap();
    assert_eq!(
        stmts,
        vec![Statement::Expression(binary(
            binary(number("1"), TokenKind::Minus, number("2")),
            TokenKind::Minus,
            number("3"),
        ))]
    );
}

#[test]
fn grouping_overrides_precedence() {
    let stmts = parse_source("(1 + 2) * 3;").unwrap();
    assert_eq!(
        stmts,
        vec![Statement::Expression(binary(
            Expression::Groupping(Box::new(binary(
                number("1"),
                TokenKind::Plus,
                number("2"),
            ))),
            TokenKind::Star,
            number("3"),
        ))]
    );
}

#[test]
fn typed_declaration_with_initializer() {
    let stmts = parse_source("let a: i32 = 5;").unwrap();
    assert_eq!(
        stmts,
        vec![Statement::Variable(
            "a".to_string(),
            false,
            Some("i32".to_string()),
            Some(number("5")),
        )]
    );
}

#[test]
fn const_declaration() {
    let stmts = parse_source("const a = 2;").unwrap();
    assert_eq!(
        stmts,
        vec![Statement::Variable(
            "a".to_string(),
            true,
            None,
            Some(number("2")),
        )]
    );
}

#[test]
fn bare_declaration_without_type_or_initializer() {
    let stmts = parse_source("let a;").unwrap();
    assert_eq!(
        stmts,
        vec![Statement::Variable("a".to_string(), false, None, None)]
    );
    let stmts = parse_source("const b;").unwrap();
    assert_eq!(
        stmts,
        vec![Statement::Variable("b".to_string(), true, None, None)]
    );
}

#[test]
fn typed_declaration_without_initializer() {
    let stmts = parse_source("let a: i32;").unwrap();
    assert_eq!(
        stmts,
        vec![Statement::Variable(
            "a".to_string(),
            false,
            Some("i32".to_string()),
            None,
        )]
    );
}

#[test]
fn blocks_nest() {
    let stmts = parse_source("{ let b = 1; { let c = 2; } }").unwrap();
    assert_eq!(
        stmts,
        vec![Statement::Block(vec![
            Statement::Variable("b".to_string(), false, None, Some(number("1"))),
            Statement::Block(vec![Statement::Variable(
                "c".to_string(),
                false,
                None,
                Some(number("2")),
            )]),
        ])]
    );
}

#[test]
fn declaration_with_number_for_name_fails() {
    let err = parse_source("let 5 = 1;").unwrap_err();
    match err {
        ParserErrors::UnexpectedTokenKind(t) => {
            assert_eq!(t.kind, TokenKind::Number);
            assert_eq!(t.value, "5");
            assert_eq!((t.line, t.pos), (1, 5));
        }
        other => panic!("{other:?}"),
    }
}

#[test]
fn mut_after_let_is_rejected() {
    let err = parse_source("let mut a = 5;").unwrap_err();
    match err {
        ParserErrors::UnexpectedTokenKind(t) => {
            assert_eq!(t.kind, TokenKind::Mut);
            assert_eq!(t.value, "mut");
        }
        other => panic!("{other:?}"),
    }
}

#[test]
fn statement_start_without_handler_fails() {
    let err = parse_source(";").unwrap_err();
    match err {
        ParserErrors::NoFunctionHandler(t) => {
            assert_eq!(t.kind, TokenKind::SemiColon);
        }
        other => panic!("{other:?}"),
    }
}

#[test]
fn infix_without_handler_fails() {
    let err = parse_source("1 (2);").unwrap_err();
    match err {
        ParserErrors::UnexpectedExpressionType(t) => {
            assert_eq!(t.kind, TokenKind::OpenParen);
        }
        other => panic!("{other:?}"),
    }
}

#[test]
fn missing_terminator_fails_at_eof() {
    let err = parse_source("1 + 2").unwrap_err();
    match err {
        ParserErrors::UnexpectedTokenKind(t) => {
            assert_eq!(t.kind, TokenKind::Eof);
        }
        other => panic!("{other:?}"),
    }
}

#[test]
fn unary_operator_takes_whole_rest() {
    let stmts = parse_source("-1;").unwrap();
    let minus = Token::new(&TokenKind::Minus, "-".to_string(), 1, 1);
    assert_eq!(
        stmts,
        vec![Statement::Expression(Expression::Unary(
            minus,
            Box::new(number("1")),
        ))]
    );
}

#[test]
fn assignment_keeps_only_the_value() {
    let stmts = parse_source("a = 5;").unwrap();
    assert_eq!(
        stmts,
        vec![Statement::Expression(Expression::Assignment(Box::new(
            number("5"),
        )))]
    );
}

#[test]
fn strings_and_symbols_are_primaries() {
    let stmts = parse_source("\"hi\" + name;").unwrap();
    assert_eq!(
        stmts,
        vec![Statement::Expression(binary(
            Expression::String("hi".to_string()),
            TokenKind::Plus,
            Expression::Symbol("name".to_string()),
        ))]
    );
}

#[test]
fn comparison_binds_looser_than_addition() {
    let stmts = parse_source("1 + 2 < 4;").unwrap();
    assert_eq!(
        stmts,
        vec![Statement::Expression(binary(
            binary(number("1"), TokenKind::Plus, number("2")),
            TokenKind::Less,
            number("4"),
        ))]
    );
}

#[test]
fn several_statements_in_order() {
    let stmts = parse_source("let a = 1; a + 2; { }").unwrap();
    assert_eq!(
        stmts,
        vec![
            Statement::Variable("a".to_string(), false, None, Some(number("1"))),
            Statement::Expression(binary(
                Expression::Symbol("a".to_string()),
                TokenKind::Plus,
                number("2"),
            )),
            Statement::Block(vec![]),
        ]
    );
}

#[test]
fn parsing_is_deterministic() {
    let sources = [
        "1 + 2 * 3;",
        "let a: i32 = 5;",
        "{ let b = 1; { let c = 2; } }",
        "-x + (y * 3) .. 9;",
        "\"s\" == other;",
    ];
    for src in sources {
        let first = parse_source(src).unwrap();
        let second = parse_source(src).unwrap();
        assert_eq!(first, second);
    }
}
