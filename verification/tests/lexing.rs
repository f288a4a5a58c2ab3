use event_script::lexer::{LexError, Lexer};
use event_script::token::{Token, TokenKind};

fn kinds(tokens: &[Token]) -> Vec<TokenKind> {
    tokens.iter().map(|t| t.kind).collect()
}

fn values(tokens: &[Token]) -> Vec<String> {
    tokens.iter().map(|t| t.value.clone()).collect()
}

#[test]
fn keywords_are_recognized() {
    assert_eq!(TokenKind::is_keyword("let"), Some(TokenKind::Let));
    assert_eq!(TokenKind::is_keyword("mut"), Some(TokenKind::Mut));
    assert_eq!(TokenKind::is_keyword("const"), Some(TokenKind::Const));
    assert_eq!(TokenKind::is_keyword("struct"), Some(TokenKind::Struct));
    assert_eq!(TokenKind::is_keyword("import"), Some(TokenKind::Import));
    assert_eq!(TokenKind::is_keyword("fn"), Some(TokenKind::Fn));
    assert_eq!(TokenKind::is_keyword("if"), Some(TokenKind::If));
    assert_eq!(TokenKind::is_keyword("else"), Some(TokenKind::Else));
    assert_eq!(TokenKind::is_keyword("while"), Some(TokenKind::While));
    assert_eq!(TokenKind::is_keyword("for"), Some(TokenKind::For));
    assert_eq!(TokenKind::is_keyword("in"), Some(TokenKind::In));
    assert_eq!(TokenKind::is_keyword("match"), Some(TokenKind::Match));
    assert_eq!(TokenKind::is_keyword("pub"), Some(TokenKind::Pub));
    assert_eq!(TokenKind::is_keyword("return"), Some(TokenKind::Return));
    assert_eq!(TokenKind::is_keyword("continue"), Some(TokenKind::Continue));
    assert_eq!(TokenKind::is_keyword("break"), Some(TokenKind::Break));
}

#[test]
fn non_keywords_are_identifiers() {
    assert_eq!(TokenKind::is_keyword("letx"), None);
    assert_eq!(TokenKind::is_keyword("Let"), None);
    assert_eq!(TokenKind::is_keyword(""), None);
    assert_eq!(TokenKind::is_keyword("lets"), None);
}

#[test]
fn binding_power_table() {
    assert_eq!(TokenKind::Assignment.get_binding_power(), 2);
    assert_eq!(TokenKind::And.get_binding_power(), 3);
    assert_eq!(TokenKind::Or.get_binding_power(), 3);
    assert_eq!(TokenKind::DotDot.get_binding_power(), 3);
    assert_eq!(TokenKind::Less.get_binding_power(), 4);
    assert_eq!(TokenKind::LessEquals.get_binding_power(), 4);
    assert_eq!(TokenKind::Greater.get_binding_power(), 4);
    assert_eq!(TokenKind::GreaterEquals.get_binding_power(), 4);
    assert_eq!(TokenKind::Equals.get_binding_power(), 4);
    assert_eq!(TokenKind::NotEquals.get_binding_power(), 4);
    assert_eq!(TokenKind::Plus.get_binding_power(), 5);
    assert_eq!(TokenKind::Minus.get_binding_power(), 5);
    assert_eq!(TokenKind::Star.get_binding_power(), 6);
    assert_eq!(TokenKind::Slash.get_binding_power(), 6);
    assert_eq!(TokenKind::Percent.get_binding_power(), 6);
    assert_eq!(TokenKind::OpenParen.get_binding_power(), 8);
    assert_eq!(TokenKind::Eof.get_binding_power(), 0);
    assert_eq!(TokenKind::Number.get_binding_power(), 0);
    assert_eq!(TokenKind::SemiColon.get_binding_power(), 0);
}

#[test]
fn token_new_caches_binding_power() {
    let t = Token::new(&TokenKind::Star, "*".to_string(), 3, 7);
    assert_eq!(t.kind, TokenKind::Star);
    assert_eq!(t.value, "*");
    assert_eq!(t.line, 3);
    assert_eq!(t.pos, 7);
    assert_eq!(t.binding_power, 6);
}

#[test]
fn empty_source_is_just_eof() {
    let toks = Lexer::tokenize(String::new()).unwrap();
    assert_eq!(kinds(&toks), vec![TokenKind::Eof]);
    assert_eq!(toks[0].line, 1);
    assert_eq!(toks[0].pos, 1);
}

#[test]
fn arithmetic_expression_tokens() {
    let toks = Lexer::tokenize("1 + 2 * 3;".to_string()).unwrap();
    assert_eq!(
        kinds(&toks),
        vec![
            TokenKind::Number,
            TokenKind::Plus,
            TokenKind::Number,
            TokenKind::Star,
            TokenKind::Number,
            TokenKind::SemiColon,
            TokenKind::Eof,
        ]
    );
    assert_eq!(values(&toks), vec!["1", "+", "2", "*", "3", ";", ""]);
}

#[test]
fn maximal_munch_prefers_long_operators() {
    let toks = Lexer::tokenize("== = != <= >= .. :: ++ -- += -= /= *= %= && ||".to_string())
        .unwrap();
    assert_eq!(
        kinds(&toks),
        vec![
            TokenKind::Equals,
            TokenKind::Assignment,
            TokenKind::NotEquals,
            TokenKind::LessEquals,
            TokenKind::GreaterEquals,
            TokenKind::DotDot,
            TokenKind::DoubleColon,
            TokenKind::PlusPlus,
            TokenKind::MinusMinus,
            TokenKind::PlusEquals,
            TokenKind::MinusEquals,
            TokenKind::DivideEquals,
            TokenKind::MultiplyEquals,
            TokenKind::ModEquals,
            TokenKind::And,
            TokenKind::Or,
            TokenKind::Eof,
        ]
    );
}

#[test]
fn single_character_operators() {
    let toks = Lexer::tokenize("| [ ] { } ( ) ! < > . ; : ? , + - / * %".to_string()).unwrap();
    assert_eq!(
        kinds(&toks),
        vec![
            TokenKind::Pipe,
            TokenKind::OpenBracket,
            TokenKind::CloseBracket,
            TokenKind::OpenCurly,
            TokenKind::CloseCurly,
            TokenKind::OpenParen,
            TokenKind::CloseParen,
            TokenKind::Not,
            TokenKind::Less,
            TokenKind::Greater,
            TokenKind::Dot,
            TokenKind::SemiColon,
            TokenKind::Colon,
            TokenKind::Question,
            TokenKind::Comma,
            TokenKind::Plus,
            TokenKind::Minus,
            TokenKind::Slash,
            TokenKind::Star,
            TokenKind::Percent,
            TokenKind::Eof,
        ]
    );
}

#[test]
fn number_with_fraction_is_one_token() {
    let toks = Lexer::tokenize("1.5;".to_string()).unwrap();
    assert_eq!(
        kinds(&toks),
        vec![TokenKind::Number, TokenKind::SemiColon, TokenKind::Eof]
    );
    assert_eq!(toks[0].value, "1.5");
}

#[test]
fn number_before_range_operator() {
    let toks = Lexer::tokenize("1..3".to_string()).unwrap();
    assert_eq!(
        kinds(&toks),
        vec![
            TokenKind::Number,
            TokenKind::DotDot,
            TokenKind::Number,
            TokenKind::Eof,
        ]
    );
    assert_eq!(values(&toks), vec!["1", "..", "3", ""]);
}

#[test]
fn unterminated_number_is_reported() {
    assert_eq!(
        Lexer::tokenize("1.".to_string()),
        Err(LexError::UnterminatedNumber(1, 1))
    );
    assert_eq!(
        Lexer::tokenize("12.x".to_string()),
        Err(LexError::UnterminatedNumber(1, 1))
    );
}

#[test]
fn string_literal_keeps_inner_text() {
    let toks = Lexer::tokenize("\"hello world\";".to_string()).unwrap();
    assert_eq!(
        kinds(&toks),
        vec![TokenKind::String, TokenKind::SemiColon, TokenKind::Eof]
    );
    assert_eq!(toks[0].value, "hello world");
}

#[test]
fn unterminated_string_is_reported() {
    assert_eq!(
        Lexer::tokenize("\"open".to_string()),
        Err(LexError::UnterminatedString(1, 1))
    );
    assert_eq!(
        Lexer::tokenize("\"line\nbreak\"".to_string()),
        Err(LexError::UnterminatedString(1, 1))
    );
}

#[test]
fn illegal_characters_are_reported() {
    assert_eq!(
        Lexer::tokenize("#".to_string()),
        Err(LexError::IllegalCharacter('#', 1, 1))
    );
    assert_eq!(
        Lexer::tokenize("a & b".to_string()),
        Err(LexError::IllegalCharacter('&', 1, 3))
    );
}

#[test]
fn keywords_become_keyword_tokens() {
    let toks = Lexer::tokenize("let abc const".to_string()).unwrap();
    assert_eq!(
        kinds(&toks),
        vec![
            TokenKind::Let,
            TokenKind::Identifier,
            TokenKind::Const,
            TokenKind::Eof,
        ]
    );
    assert_eq!(values(&toks), vec!["let", "abc", "const", ""]);
}

#[test]
fn lines_and_columns_are_tracked() {
    let toks = Lexer::tokenize("a\n bc\nd".to_string()).unwrap();
    assert_eq!(toks[0].value, "a");
    assert_eq!((toks[0].line, toks[0].pos), (1, 1));
    assert_eq!(toks[1].value, "bc");
    assert_eq!((toks[1].line, toks[1].pos), (2, 2));
    assert_eq!(toks[2].value, "d");
    assert_eq!((toks[2].line, toks[2].pos), (3, 1));
    assert_eq!(toks[3].kind, TokenKind::Eof);
    assert_eq!((toks[3].line, toks[3].pos), (3, 2));
}

#[test]
fn identifiers_may_hold_digits_and_underscores() {
    let toks = Lexer::tokenize("_x9 y_2z".to_string()).unwrap();
    assert_eq!(values(&toks), vec!["_x9", "y_2z", ""]);
    assert_eq!(toks[0].kind, TokenKind::Identifier);
    assert_eq!(toks[1].kind, TokenKind::Identifier);
}
