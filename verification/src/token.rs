//! The lexical vocabulary: token kinds, the keyword table, the static
//! binding-power (precedence) table, and the token record itself.

use vstd::prelude::*;

verus! {

/// The closed set of lexical categories a token can have.
#[derive(Debug, PartialEq, Eq, Clone, Copy, Hash, Structural)]
pub enum TokenKind {
    Eof,

    True,
    False,
    Number,
    String,
    Identifier,

    // Grouping & braces
    Pipe,
    OpenBracket,
    CloseBracket,
    OpenCurly,
    CloseCurly,
    OpenParen,
    CloseParen,

    // Equivalence
    Equals,
    NotEquals,
    Not,
    Assignment,

    // Conditional
    Less,
    LessEquals,
    Greater,
    GreaterEquals,

    // Logical
    Or,
    And,

    // Symbols
    DotDot,
    Dot,
    SemiColon,
    DoubleColon,
    Colon,
    Question,
    Comma,

    // Shorthand
    PlusPlus,
    MinusMinus,
    PlusEquals,
    MinusEquals,

    DivideEquals,
    MultiplyEquals,
    ModEquals,

    // Maths
    Plus,
    Minus,
    Slash,
    Star,
    Percent,

    // Reserved keywords
    Let,
    Mut,
    Const,
    Struct,
    Import,
    Fn,
    If,
    Else,
    While,
    For,
    In,
    Match,
    Pub,
    Return,
    Continue,
    Break,
}

/// Which reserved keyword, if any, a given lexeme spells.
pub open spec fn spec_keyword(s: Seq<char>) -> Option<TokenKind> {
    if s == "let"@ {
        Some(TokenKind::Let)
    } else if s == "mut"@ {
        Some(TokenKind::Mut)
    } else if s == "const"@ {
        Some(TokenKind::Const)
    } else if s == "struct"@ {
        Some(TokenKind::Struct)
    } else if s == "import"@ {
        Some(TokenKind::Import)
    } else if s == "fn"@ {
        Some(TokenKind::Fn)
    } else if s == "if"@ {
        Some(TokenKind::If)
    } else if s == "else"@ {
        Some(TokenKind::Else)
    } else if s == "while"@ {
        Some(TokenKind::While)
    } else if s == "for"@ {
        Some(TokenKind::For)
    } else if s == "in"@ {
        Some(TokenKind::In)
    } else if s == "match"@ {
        Some(TokenKind::Match)
    } else if s == "pub"@ {
        Some(TokenKind::Pub)
    } else if s == "return"@ {
        Some(TokenKind::Return)
    } else if s == "continue"@ {
        Some(TokenKind::Continue)
    } else if s == "break"@ {
        Some(TokenKind::Break)
    } else {
        None
    }
}

/// The static precedence table: how tightly a token binds as an infix
/// operator. Zero means "not an infix operator".
pub open spec fn spec_binding_power(kind: TokenKind) -> u8 {
    match kind {
        TokenKind::Assignment => 2,
        TokenKind::And | TokenKind::Or | TokenKind::DotDot => 3,
        TokenKind::Less
        | TokenKind::LessEquals
        | TokenKind::Greater
        | TokenKind::GreaterEquals
        | TokenKind::Equals
        | TokenKind::NotEquals => 4,
        TokenKind::Plus | TokenKind::Minus => 5,
        TokenKind::Slash | TokenKind::Star | TokenKind::Percent => 6,
        TokenKind::OpenParen => 8,
        _ => 0,
    }
}

/// Character-by-character string comparison, so that keyword recognition
/// rests on nothing but the character sequences themselves.
pub(crate) fn str_eq(a: &str, b: &str) -> (r: bool)
    ensures
        r == (a@ == b@),
{
    let la = a.unicode_len();
    let lb = b.unicode_len();
    if la != lb {
        proof {
            assert(a@ != b@) by {
                assert(a@.len() != b@.len());
            }
        }
        return false;
    }
    let mut i: usize = 0;
    while i < la
        invariant
            la == a@.len(),
            la == b@.len(),
            i <= la,
            forall|j: int| 0 <= j < i ==> a@[j] == b@[j],
        decreases la - i,
    {
        if a.get_char(i) != b.get_char(i) {
            return false;
        }
        i += 1;
    }
    proof {
        assert(a@ =~= b@);
    }
    true
}

impl TokenKind {
    /// Maps a lexeme to the reserved keyword it spells, or `None` when it is
    /// an ordinary identifier.
    #[must_use]
    pub fn is_keyword(input: &str) -> (r: Option<TokenKind>)
        ensures
            r == spec_keyword(input@),
    {
        if str_eq(input, "let") {
            Some(TokenKind::Let)
        } else if str_eq(input, "mut") {
            Some(TokenKind::Mut)
        } else if str_eq(input, "const") {
            Some(TokenKind::Const)
        } else if str_eq(input, "struct") {
            Some(TokenKind::Struct)
        } else if str_eq(input, "import") {
            Some(TokenKind::Import)
        } else if str_eq(input, "fn") {
            Some(TokenKind::Fn)
        } else if str_eq(input, "if") {
            Some(TokenKind::If)
        } else if str_eq(input, "else") {
            Some(TokenKind::Else)
        } else if str_eq(input, "while") {
            Some(TokenKind::While)
        } else if str_eq(input, "for") {
            Some(TokenKind::For)
        } else if str_eq(input, "in") {
            Some(TokenKind::In)
        } else if str_eq(input, "match") {
            Some(TokenKind::Match)
        } else if str_eq(input, "pub") {
            Some(TokenKind::Pub)
        } else if str_eq(input, "return") {
            Some(TokenKind::Return)
        } else if str_eq(input, "continue") {
            Some(TokenKind::Continue)
        } else if str_eq(input, "break") {
            Some(TokenKind::Break)
        } else {
            None
        }
    }

    /// Looks the kind up in the static precedence table.
    #[must_use]
    pub fn get_binding_power(&self) -> (r: u8)
        ensures
            r == spec_binding_power(*self),
    {
        match self {
            TokenKind::Assignment => 2,
            TokenKind::And | TokenKind::Or | TokenKind::DotDot => 3,
            TokenKind::Less
            | TokenKind::LessEquals
            | TokenKind::Greater
            | TokenKind::GreaterEquals
            | TokenKind::Equals
            | TokenKind::NotEquals => 4,
            TokenKind::Plus | TokenKind::Minus => 5,
            TokenKind::Slash | TokenKind::Star | TokenKind::Percent => 6,
            TokenKind::OpenParen => 8,
            _ => 0,
        }
    }
}

/// One lexical token: its kind, its literal text, where it stands in the
/// source, and its cached binding power.
#[derive(Debug, PartialEq, Eq, Clone)]
pub struct Token {
    pub kind: TokenKind,
    pub value: String,
    pub line: usize,
    pub pos: usize,
    pub binding_power: u8,
}

/// The mathematical model of a token: the same record with the literal text
/// abstracted to its character sequence.
pub struct TokenModel {
    pub kind: TokenKind,
    pub value: Seq<char>,
    pub line: nat,
    pub pos: nat,
    pub binding_power: u8,
}

impl View for Token {
    type V = TokenModel;

    open spec fn view(&self) -> TokenModel {
        TokenModel {
            kind: self.kind,
            value: self.value@,
            line: self.line as nat,
            pos: self.pos as nat,
            binding_power: self.binding_power,
        }
    }
}

impl Token {
    /// Builds a token, caching the kind's binding power so the parser need
    /// not look it up again.
    #[must_use]
    pub fn new(kind: &TokenKind, value: String, line: usize, pos: usize) -> (t: Token)
        ensures
            t.kind == *kind,
            t.value == value,
            t.line == line,
            t.pos == pos,
            t.binding_power == spec_binding_power(*kind),
    {
        Token {
            kind: *kind,
            value,
            line,
            pos,
            binding_power: kind.get_binding_power(),
        }
    }
}

} // verus!
