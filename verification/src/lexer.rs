//! The lexer: scans source text left to right into tokens. Whitespace is
//! skipped but still advances the line and column counters; digit runs
//! become number literals (with an optional fraction part); quoted runs
//! become string literals; identifier-shaped runs become keywords or
//! identifiers; everything else is matched against the operator set,
//! preferring the longest match. The sequence always closes with one
//! end-of-input token.
//!
//! `sp_tokenize` is the mathematical description of the scan; `tokenize`
//! is proved to return exactly what it says.

use vstd::prelude::*;
use crate::parse_spec::eof_terminated;
use crate::token::{spec_binding_power, spec_keyword, Token, TokenKind, TokenModel};

verus! {

/// The ways lexing can fail, each recording the line and column at which
/// the offending text begins.
#[derive(Debug, PartialEq, Eq, Clone, Copy, Structural)]
pub enum LexError {
    IllegalCharacter(char, usize, usize),
    UnterminatedString(usize, usize),
    UnterminatedNumber(usize, usize),
}

pub open spec fn is_digit_char(c: char) -> bool {
    ('0' as u32) <= (c as u32) && (c as u32) <= ('9' as u32)
}

pub open spec fn is_ident_start_char(c: char) -> bool {
    (('a' as u32) <= (c as u32) && (c as u32) <= ('z' as u32)) || (('A' as u32) <= (c as u32) && (c
        as u32) <= ('Z' as u32)) || c == '_'
}

pub open spec fn is_ident_char(c: char) -> bool {
    is_ident_start_char(c) || is_digit_char(c)
}

/// A position counter advanced by `k` places, held at the machine limit.
pub open spec fn advance_pos(p: nat, k: nat) -> nat {
    if p + k <= usize::MAX as nat {
        p + k
    } else {
        usize::MAX as nat
    }
}

/// The first index at or after `i` that does not hold a digit.
pub open spec fn end_of_digits(s: Seq<char>, i: int) -> int
    decreases s.len() - i,
{
    if i < 0 || i >= s.len() {
        i
    } else if is_digit_char(s[i]) {
        end_of_digits(s, i + 1)
    } else {
        i
    }
}

/// The first index at or after `i` that does not hold an identifier
/// character.
pub open spec fn end_of_ident(s: Seq<char>, i: int) -> int
    decreases s.len() - i,
{
    if i < 0 || i >= s.len() {
        i
    } else if is_ident_char(s[i]) {
        end_of_ident(s, i + 1)
    } else {
        i
    }
}

/// The first index at or after `i` that closes a string literal or ends
/// its line: a quote, a newline, or the end of the text.
pub open spec fn end_of_string(s: Seq<char>, i: int) -> int
    decreases s.len() - i,
{
    if i < 0 || i >= s.len() {
        i
    } else if s[i] == '"' || s[i] == '\n' {
        i
    } else {
        end_of_string(s, i + 1)
    }
}

/// The two-character operators, matched before any one-character prefix of
/// them (maximal munch).
pub open spec fn sp_op2(a: char, b: char) -> Option<TokenKind> {
    if a == '=' && b == '=' {
        Some(TokenKind::Equals)
    } else if a == '!' && b == '=' {
        Some(TokenKind::NotEquals)
    } else if a == '<' && b == '=' {
        Some(TokenKind::LessEquals)
    } else if a == '>' && b == '=' {
        Some(TokenKind::GreaterEquals)
    } else if a == '|' && b == '|' {
        Some(TokenKind::Or)
    } else if a == '&' && b == '&' {
        Some(TokenKind::And)
    } else if a == '.' && b == '.' {
        Some(TokenKind::DotDot)
    } else if a == ':' && b == ':' {
        Some(TokenKind::DoubleColon)
    } else if a == '+' && b == '+' {
        Some(TokenKind::PlusPlus)
    } else if a == '-' && b == '-' {
        Some(TokenKind::MinusMinus)
    } else if a == '+' && b == '=' {
        Some(TokenKind::PlusEquals)
    } else if a == '-' && b == '=' {
        Some(TokenKind::MinusEquals)
    } else if a == '/' && b == '=' {
        Some(TokenKind::DivideEquals)
    } else if a == '*' && b == '=' {
        Some(TokenKind::MultiplyEquals)
    } else if a == '%' && b == '=' {
        Some(TokenKind::ModEquals)
    } else {
        None
    }
}

/// The one-character operators and punctuation.
pub open spec fn sp_op1(a: char) -> Option<TokenKind> {
    if a == '|' {
        Some(TokenKind::Pipe)
    } else if a == '[' {
        Some(TokenKind::OpenBracket)
    } else if a == ']' {
        Some(TokenKind::CloseBracket)
    } else if a == '{' {
        Some(TokenKind::OpenCurly)
    } else if a == '}' {
        Some(TokenKind::CloseCurly)
    } else if a == '(' {
        Some(TokenKind::OpenParen)
    } else if a == ')' {
        Some(TokenKind::CloseParen)
    } else if a == '=' {
        Some(TokenKind::Assignment)
    } else if a == '!' {
        Some(TokenKind::Not)
    } else if a == '<' {
        Some(TokenKind::Less)
    } else if a == '>' {
        Some(TokenKind::Greater)
    } else if a == '.' {
        Some(TokenKind::Dot)
    } else if a == ';' {
        Some(TokenKind::SemiColon)
    } else if a == ':' {
        Some(TokenKind::Colon)
    } else if a == '?' {
        Some(TokenKind::Question)
    } else if a == ',' {
        Some(TokenKind::Comma)
    } else if a == '+' {
        Some(TokenKind::Plus)
    } else if a == '-' {
        Some(TokenKind::Minus)
    } else if a == '/' {
        Some(TokenKind::Slash)
    } else if a == '*' {
        Some(TokenKind::Star)
    } else if a == '%' {
        Some(TokenKind::Percent)
    } else {
        None
    }
}

/// The model of the token whose text spans `[start, end)` of the source.
pub open spec fn sp_token_at(
    s: Seq<char>,
    start: int,
    end: int,
    kind: TokenKind,
    line: nat,
    col: nat,
) -> TokenModel {
    TokenModel {
        kind,
        value: s.subrange(start, end),
        line,
        pos: col,
        binding_power: spec_binding_power(kind),
    }
}

/// Emits the token whose text spans `[start, end)`, then scans on from
/// `end`. The scan only reaches this with `start < end <= s.len()`.
pub open spec fn sp_emit(
    s: Seq<char>,
    start: int,
    end: int,
    kind: TokenKind,
    line: nat,
    col: nat,
) -> Result<Seq<TokenModel>, LexError>
    decreases s.len() - end, 1int,
{
    if start < 0 || start >= end || end > s.len() {
        arbitrary()
    } else {
        match sp_tokenize_from(s, end, line, advance_pos(col, (end - start) as nat)) {
            Ok(rest) => Ok(seq![sp_token_at(s, start, end, kind, line, col)] + rest),
            Err(e) => Err(e),
        }
    }
}

/// One scanning step at index `i`: skip whitespace, or classify and emit
/// the token that begins here, or fail; at the end of the text, the
/// end-of-input token.
pub open spec fn sp_tokenize_from(s: Seq<char>, i: int, line: nat, col: nat) -> Result<
    Seq<TokenModel>,
    LexError,
>
    decreases s.len() - i, 0int,
{
    if i < 0 {
        arbitrary()
    } else if i >= s.len() {
        Ok(
            seq![
                TokenModel {
                    kind: TokenKind::Eof,
                    value: Seq::empty(),
                    line,
                    pos: col,
                    binding_power: 0,
                },
            ],
        )
    } else {
        let c = s[i];
        if c == '\n' {
            sp_tokenize_from(s, i + 1, advance_pos(line, 1), 1)
        } else if c == ' ' || c == '\t' || c == '\r' {
            sp_tokenize_from(s, i + 1, line, advance_pos(col, 1))
        } else if is_digit_char(c) {
            let j = end_of_digits(s, i + 1);
            if j < i + 1 || j > s.len() {
                arbitrary()
            } else if j < s.len() && s[j] == '.' && j + 1 < s.len() && is_digit_char(s[j + 1]) {
                let k = end_of_digits(s, j + 2);
                if k < j + 2 || k > s.len() {
                    arbitrary()
                } else {
                    sp_emit(s, i, k, TokenKind::Number, line, col)
                }
            } else if j < s.len() && s[j] == '.' && (j + 1 >= s.len() || s[j + 1] != '.') {
                Err(LexError::UnterminatedNumber(line as usize, col as usize))
            } else {
                // no fraction follows; a `.` here can only begin the range
                // operator, which the operator scan picks up next
                sp_emit(s, i, j, TokenKind::Number, line, col)
            }
        } else if is_ident_start_char(c) {
            let j = end_of_ident(s, i + 1);
            if j < i + 1 || j > s.len() {
                arbitrary()
            } else {
                let kind = match spec_keyword(s.subrange(i, j)) {
                    Some(k) => k,
                    None => TokenKind::Identifier,
                };
                sp_emit(s, i, j, kind, line, col)
            }
        } else if c == '"' {
            let j = end_of_string(s, i + 1);
            if j < i + 1 || j > s.len() {
                arbitrary()
            } else if j < s.len() && s[j] == '"' {
                let tok = TokenModel {
                    kind: TokenKind::String,
                    value: s.subrange(i + 1, j),
                    line,
                    pos: col,
                    binding_power: 0,
                };
                match sp_tokenize_from(s, j + 1, line, advance_pos(col, (j + 1 - i) as nat)) {
                    Ok(rest) => Ok(seq![tok] + rest),
                    Err(e) => Err(e),
                }
            } else {
                Err(LexError::UnterminatedString(line as usize, col as usize))
            }
        } else if i + 1 < s.len() && sp_op2(c, s[i + 1]) is Some {
            sp_emit(s, i, i + 2, sp_op2(c, s[i + 1]).unwrap(), line, col)
        } else if sp_op1(c) is Some {
            sp_emit(s, i, i + 1, sp_op1(c).unwrap(), line, col)
        } else {
            Err(LexError::IllegalCharacter(c, line as usize, col as usize))
        }
    }
}

/// What lexing a whole source text yields: its token models, or the first
/// lexical error. Lines and columns start at one.
pub open spec fn sp_tokenize(s: Seq<char>) -> Result<Seq<TokenModel>, LexError> {
    sp_tokenize_from(s, 0, 1, 1)
}

/// The models of a sequence of tokens.
pub open spec fn view_tokens(v: Seq<Token>) -> Seq<TokenModel> {
    v.map_values(|t: Token| t@)
}

proof fn lemma_end_of_digits_bounds(s: Seq<char>, from: int)
    requires
        0 <= from <= s.len(),
    ensures
        from <= end_of_digits(s, from) <= s.len(),
    decreases s.len() - from,
{
    if from < s.len() && is_digit_char(s[from]) {
        lemma_end_of_digits_bounds(s, from + 1);
    }
}

proof fn lemma_end_of_ident_bounds(s: Seq<char>, from: int)
    requires
        0 <= from <= s.len(),
    ensures
        from <= end_of_ident(s, from) <= s.len(),
    decreases s.len() - from,
{
    if from < s.len() && is_ident_char(s[from]) {
        lemma_end_of_ident_bounds(s, from + 1);
    }
}

proof fn lemma_end_of_string_bounds(s: Seq<char>, from: int)
    requires
        0 <= from <= s.len(),
    ensures
        from <= end_of_string(s, from) <= s.len(),
    decreases s.len() - from,
{
    if from < s.len() && s[from] != '"' && s[from] != '\n' {
        lemma_end_of_string_bounds(s, from + 1);
    }
}

/// Whether every token of the sequence carries the binding power its kind
/// has in the static precedence table.
pub open spec fn powers_match(toks: Seq<TokenModel>) -> bool {
    forall|k: int|
        0 <= k < toks.len() ==> #[trigger] toks[k].binding_power == spec_binding_power(
            toks[k].kind,
        )
}

proof fn lemma_emit_powers(s: Seq<char>, start: int, end: int, kind: TokenKind, line: nat, col: nat)
    requires
        0 <= start < end <= s.len(),
    ensures
        (match sp_emit(s, start, end, kind, line, col) {
            Ok(toks) => powers_match(toks),
            Err(_) => true,
        }),
    decreases s.len() - end, 1int,
{
    lemma_scan_powers(s, end, line, advance_pos(col, (end - start) as nat));
}

proof fn lemma_scan_powers(s: Seq<char>, i: int, line: nat, col: nat)
    requires
        0 <= i,
    ensures
        (match sp_tokenize_from(s, i, line, col) {
            Ok(toks) => powers_match(toks),
            Err(_) => true,
        }),
    decreases s.len() - i, 0int,
{
    if i >= s.len() {
    } else {
        let c = s[i];
        if c == '\n' {
            lemma_scan_powers(s, i + 1, advance_pos(line, 1), 1);
        } else if c == ' ' || c == '\t' || c == '\r' {
            lemma_scan_powers(s, i + 1, line, advance_pos(col, 1));
        } else if is_digit_char(c) {
            lemma_end_of_digits_bounds(s, i + 1);
            let j = end_of_digits(s, i + 1);
            if j < s.len() && s[j] == '.' && j + 1 < s.len() && is_digit_char(s[j + 1]) {
                lemma_end_of_digits_bounds(s, j + 2);
                lemma_emit_powers(s, i, end_of_digits(s, j + 2), TokenKind::Number, line, col);
            } else if j < s.len() && s[j] == '.' && (j + 1 >= s.len() || s[j + 1] != '.') {
            } else {
                lemma_emit_powers(s, i, j, TokenKind::Number, line, col);
            }
        } else if is_ident_start_char(c) {
            lemma_end_of_ident_bounds(s, i + 1);
            let j = end_of_ident(s, i + 1);
            let kind = match spec_keyword(s.subrange(i, j)) {
                Some(k) => k,
                None => TokenKind::Identifier,
            };
            lemma_emit_powers(s, i, j, kind, line, col);
        } else if c == '"' {
            lemma_end_of_string_bounds(s, i + 1);
            let j = end_of_string(s, i + 1);
            if j < s.len() && s[j] == '"' {
                lemma_scan_powers(s, j + 1, line, advance_pos(col, (j + 1 - i) as nat));
            }
        } else if i + 1 < s.len() && sp_op2(c, s[i + 1]) is Some {
            lemma_emit_powers(s, i, i + 2, sp_op2(c, s[i + 1]).unwrap(), line, col);
        } else if sp_op1(c) is Some {
            lemma_emit_powers(s, i, i + 1, sp_op1(c).unwrap(), line, col);
        }
    }
}

/// Every token the scan yields carries the binding power of its kind: the
/// cached field is derived solely from the kind through the static
/// precedence table. Together with `Lexer::tokenize`'s contract, this
/// holds of every token the lexer hands to the parser.
pub proof fn lemma_tokenize_powers_match(s: Seq<char>)
    ensures
        (match sp_tokenize(s) {
            Ok(toks) => powers_match(toks),
            Err(_) => true,
        }),
{
    lemma_scan_powers(s, 0, 1, 1);
}

/// The scanning loop's invariant: finishing the scan from position `i`
/// and appending to the tokens already produced yields exactly what the
/// whole scan yields.
pub open spec fn lex_inv(src: Seq<char>, i: int, line: nat, col: nat, toks: Seq<Token>) -> bool {
    sp_tokenize(src) == (match sp_tokenize_from(src, i, line, col) {
        Ok(rest) => Ok::<Seq<TokenModel>, LexError>(view_tokens(toks) + rest),
        Err(e) => Err(e),
    })
}

/// One step of the invariant: emitting a token whose model the scan
/// prepends moves the position forward.
proof fn lemma_lex_step(
    src: Seq<char>,
    i: int,
    line: nat,
    col: nat,
    toks: Seq<Token>,
    end: int,
    col2: nat,
    tok: Token,
)
    requires
        lex_inv(src, i, line, col, toks),
        sp_tokenize_from(src, i, line, col) == (match sp_tokenize_from(src, end, line, col2) {
            Ok(rest) => Ok::<Seq<TokenModel>, LexError>(seq![tok@] + rest),
            Err(e) => Err(e),
        }),
    ensures
        lex_inv(src, end, line, col2, toks.push(tok)),
{
    let r = sp_tokenize_from(src, end, line, col2);
    if r is Ok {
        assert(view_tokens(toks.push(tok)) + r->Ok_0 =~= view_tokens(toks) + (seq![tok@]
            + r->Ok_0));
    }
}

fn is_digit(c: char) -> (r: bool)
    ensures
        r == is_digit_char(c),
{
    ('0' as u32) <= (c as u32) && (c as u32) <= ('9' as u32)
}

fn is_ident_start(c: char) -> (r: bool)
    ensures
        r == is_ident_start_char(c),
{
    (('a' as u32) <= (c as u32) && (c as u32) <= ('z' as u32)) || (('A' as u32) <= (c as u32) && (c
        as u32) <= ('Z' as u32)) || c == '_'
}

fn is_ident(c: char) -> (r: bool)
    ensures
        r == is_ident_char(c),
{
    is_ident_start(c) || is_digit(c)
}

fn op2_of(a: char, b: char) -> (r: Option<TokenKind>)
    ensures
        r == sp_op2(a, b),
{
    if a == '=' && b == '=' {
        Some(TokenKind::Equals)
    } else if a == '!' && b == '=' {
        Some(TokenKind::NotEquals)
    } else if a == '<' && b == '=' {
        Some(TokenKind::LessEquals)
    } else if a == '>' && b == '=' {
        Some(TokenKind::GreaterEquals)
    } else if a == '|' && b == '|' {
        Some(TokenKind::Or)
    } else if a == '&' && b == '&' {
        Some(TokenKind::And)
    } else if a == '.' && b == '.' {
        Some(TokenKind::DotDot)
    } else if a == ':' && b == ':' {
        Some(TokenKind::DoubleColon)
    } else if a == '+' && b == '+' {
        Some(TokenKind::PlusPlus)
    } else if a == '-' && b == '-' {
        Some(TokenKind::MinusMinus)
    } else if a == '+' && b == '=' {
        Some(TokenKind::PlusEquals)
    } else if a == '-' && b == '=' {
        Some(TokenKind::MinusEquals)
    } else if a == '/' && b == '=' {
        Some(TokenKind::DivideEquals)
    } else if a == '*' && b == '=' {
        Some(TokenKind::MultiplyEquals)
    } else if a == '%' && b == '=' {
        Some(TokenKind::ModEquals)
    } else {
        None
    }
}

fn op1_of(a: char) -> (r: Option<TokenKind>)
    ensures
        r == sp_op1(a),
{
    if a == '|' {
        Some(TokenKind::Pipe)
    } else if a == '[' {
        Some(TokenKind::OpenBracket)
    } else if a == ']' {
        Some(TokenKind::CloseBracket)
    } else if a == '{' {
        Some(TokenKind::OpenCurly)
    } else if a == '}' {
        Some(TokenKind::CloseCurly)
    } else if a == '(' {
        Some(TokenKind::OpenParen)
    } else if a == ')' {
        Some(TokenKind::CloseParen)
    } else if a == '=' {
        Some(TokenKind::Assignment)
    } else if a == '!' {
        Some(TokenKind::Not)
    } else if a == '<' {
        Some(TokenKind::Less)
    } else if a == '>' {
        Some(TokenKind::Greater)
    } else if a == '.' {
        Some(TokenKind::Dot)
    } else if a == ';' {
        Some(TokenKind::SemiColon)
    } else if a == ':' {
        Some(TokenKind::Colon)
    } else if a == '?' {
        Some(TokenKind::Question)
    } else if a == ',' {
        Some(TokenKind::Comma)
    } else if a == '+' {
        Some(TokenKind::Plus)
    } else if a == '-' {
        Some(TokenKind::Minus)
    } else if a == '/' {
        Some(TokenKind::Slash)
    } else if a == '*' {
        Some(TokenKind::Star)
    } else if a == '%' {
        Some(TokenKind::Percent)
    } else {
        None
    }
}

/// A position counter advanced by `k` places, held at the machine limit.
fn sat_add(p: usize, k: usize) -> (r: usize)
    ensures
        r as nat == advance_pos(p as nat, k as nat),
{
    if p <= usize::MAX - k {
        p + k
    } else {
        usize::MAX
    }
}

fn scan_digits(s: &str, from: usize) -> (j: usize)
    requires
        from <= s@.len(),
    ensures
        j == end_of_digits(s@, from as int),
        from <= j <= s@.len(),
{
    let n = s.unicode_len();
    let mut j = from;
    while j < n && is_digit(s.get_char(j))
        invariant
            from <= j <= n,
            n == s@.len(),
            end_of_digits(s@, from as int) == end_of_digits(s@, j as int),
        decreases n - j,
    {
        j += 1;
    }
    j
}

fn scan_ident(s: &str, from: usize) -> (j: usize)
    requires
        from <= s@.len(),
    ensures
        j == end_of_ident(s@, from as int),
        from <= j <= s@.len(),
{
    let n = s.unicode_len();
    let mut j = from;
    while j < n && is_ident(s.get_char(j))
        invariant
            from <= j <= n,
            n == s@.len(),
            end_of_ident(s@, from as int) == end_of_ident(s@, j as int),
        decreases n - j,
    {
        j += 1;
    }
    j
}

fn at_string_end(s: &str, j: usize) -> (r: bool)
    requires
        j <= s@.len(),
    ensures
        r == (j >= s@.len() || s@[j as int] == '"' || s@[j as int] == '\n'),
{
    let n = s.unicode_len();
    if j >= n {
        true
    } else {
        let c = s.get_char(j);
        c == '"' || c == '\n'
    }
}

fn scan_string_end(s: &str, from: usize) -> (j: usize)
    requires
        from <= s@.len(),
    ensures
        j == end_of_string(s@, from as int),
        from <= j <= s@.len(),
{
    let n = s.unicode_len();
    let mut j = from;
    while !at_string_end(s, j)
        invariant
            from <= j <= n,
            n == s@.len(),
            end_of_string(s@, from as int) == end_of_string(s@, j as int),
        decreases n - j,
    {
        j += 1;
    }
    j
}

/// The lexer itself: all state lives in `tokenize`'s locals, so the type
/// only carries the entry point.
pub struct Lexer;

impl Lexer {
    /// Scans the whole source into tokens, closed by one end-of-input
    /// token, or reports the first lexical error. The result is exactly
    /// what `sp_tokenize` yields on the text.
    pub fn tokenize(source: String) -> (r: Result<Vec<Token>, LexError>)
        ensures
            (match r {
                Ok(toks) => sp_tokenize(source@) == Ok::<Seq<TokenModel>, LexError>(
                    view_tokens(toks@),
                ) && eof_terminated(toks@),
                Err(e) => sp_tokenize(source@) == Err::<Seq<TokenModel>, LexError>(e),
            }),
    {
        let s = source.as_str();
        let n = s.unicode_len();
        let mut toks: Vec<Token> = Vec::new();
        let mut i: usize = 0;
        let mut line: usize = 1;
        let mut col: usize = 1;

        proof {
            let r0 = sp_tokenize_from(s@, 0, 1, 1);
            if r0 is Ok {
                assert(view_tokens(toks@) + r0->Ok_0 =~= r0->Ok_0);
            }
        }

        while i < n
            invariant
                n == s@.len(),
                s@ == source@,
                i <= n,
                lex_inv(source@, i as int, line as nat, col as nat, toks@),
            decreases n - i,
        {
            let c = s.get_char(i);
            if c == '\n' {
                line = sat_add(line, 1);
                col = 1;
                i = i + 1;
            } else if c == ' ' || c == '\t' || c == '\r' {
                col = sat_add(col, 1);
                i = i + 1;
            } else if is_digit(c) {
                let j = scan_digits(s, i + 1);
                let dot = j < n && s.get_char(j) == '.';
                let dotdot = dot && j + 1 < n && s.get_char(j + 1) == '.';
                if dot && !dotdot {
                    if j + 1 < n && is_digit(s.get_char(j + 1)) {
                        let k = scan_digits(s, j + 2);
                        let value = String::from_str(s.substring_char(i, k));
                        let tok = Token::new(&TokenKind::Number, value, line, col);
                        proof {
                            assert(tok@ == sp_token_at(
                                s@,
                                i as int,
                                k as int,
                                TokenKind::Number,
                                line as nat,
                                col as nat,
                            ));
                            assert(sp_tokenize_from(source@, i as int, line as nat, col as nat)
                                == sp_emit(
                                source@,
                                i as int,
                                k as int,
                                TokenKind::Number,
                                line as nat,
                                col as nat,
                            ));
                            lemma_lex_step(
                                source@,
                                i as int,
                                line as nat,
                                col as nat,
                                toks@,
                                k as int,
                                advance_pos(col as nat, (k - i) as nat),
                                tok,
                            );
                        }
                        toks.push(tok);
                        col = sat_add(col, k - i);
                        i = k;
                    } else {
                        return Err(LexError::UnterminatedNumber(line, col));
                    }
                } else {
                    let value = String::from_str(s.substring_char(i, j));
                    let tok = Token::new(&TokenKind::Number, value, line, col);
                    proof {
                        assert(tok@ == sp_token_at(
                            s@,
                            i as int,
                            j as int,
                            TokenKind::Number,
                            line as nat,
                            col as nat,
                        ));
                        assert(sp_tokenize_from(source@, i as int, line as nat, col as nat)
                            == sp_emit(
                            source@,
                            i as int,
                            j as int,
                            TokenKind::Number,
                            line as nat,
                            col as nat,
                        ));
                        lemma_lex_step(
                            source@,
                            i as int,
                            line as nat,
                            col as nat,
                            toks@,
                            j as int,
                            advance_pos(col as nat, (j - i) as nat),
                            tok,
                        );
                    }
                    toks.push(tok);
                    col = sat_add(col, j - i);
                    i = j;
                }
            } else if is_ident_start(c) {
                let j = scan_ident(s, i + 1);
                let lexeme = s.substring_char(i, j);
                let kind = match TokenKind::is_keyword(lexeme) {
                    Some(k) => k,
                    None => TokenKind::Identifier,
                };
                let value = String::from_str(lexeme);
                let tok = Token::new(&kind, value, line, col);
                proof {
                    assert(tok@ == sp_token_at(
                        s@,
                        i as int,
                        j as int,
                        kind,
                        line as nat,
                        col as nat,
                    ));
                    assert(sp_tokenize_from(source@, i as int, line as nat, col as nat)
                        == sp_emit(source@, i as int, j as int, kind, line as nat, col as nat));
                    lemma_lex_step(
                        source@,
                        i as int,
                        line as nat,
                        col as nat,
                        toks@,
                        j as int,
                        advance_pos(col as nat, (j - i) as nat),
                        tok,
                    );
                }
                toks.push(tok);
                col = sat_add(col, j - i);
                i = j;
            } else if c == '"' {
                let j = scan_string_end(s, i + 1);
                if j < n && s.get_char(j) == '"' {
                    let value = String::from_str(s.substring_char(i + 1, j));
                    let tok = Token::new(&TokenKind::String, value, line, col);
                    proof {
                        lemma_lex_step(
                            source@,
                            i as int,
                            line as nat,
                            col as nat,
                            toks@,
                            (j + 1) as int,
                            advance_pos(col as nat, (j + 1 - i) as nat),
                            tok,
                        );
                    }
                    toks.push(tok);
                    col = sat_add(col, j + 1 - i);
                    i = j + 1;
                } else {
                    return Err(LexError::UnterminatedString(line, col));
                }
            } else {
                let two = if i + 1 < n {
                    op2_of(c, s.get_char(i + 1))
                } else {
                    None
                };
                match two {
                    Some(kind) => {
                        let value = String::from_str(s.substring_char(i, i + 2));
                        let tok = Token::new(&kind, value, line, col);
                        proof {
                            assert(tok@ == sp_token_at(
                                s@,
                                i as int,
                                i + 2,
                                kind,
                                line as nat,
                                col as nat,
                            ));
                            assert(sp_tokenize_from(source@, i as int, line as nat, col as nat)
                                == sp_emit(
                                source@,
                                i as int,
                                i + 2,
                                kind,
                                line as nat,
                                col as nat,
                            ));
                            lemma_lex_step(
                                source@,
                                i as int,
                                line as nat,
                                col as nat,
                                toks@,
                                i + 2,
                                advance_pos(col as nat, 2),
                                tok,
                            );
                        }
                        toks.push(tok);
                        col = sat_add(col, 2);
                        i = i + 2;
                    },
                    None => {
                        match op1_of(c) {
                            Some(kind) => {
                                let value = String::from_str(s.substring_char(i, i + 1));
                                let tok = Token::new(&kind, value, line, col);
                                proof {
                                    assert(tok@ == sp_token_at(
                                        s@,
                                        i as int,
                                        i + 1,
                                        kind,
                                        line as nat,
                                        col as nat,
                                    ));
                                    assert(sp_tokenize_from(
                                        source@,
                                        i as int,
                                        line as nat,
                                        col as nat,
                                    ) == sp_emit(
                                        source@,
                                        i as int,
                                        i + 1,
                                        kind,
                                        line as nat,
                                        col as nat,
                                    ));
                                    lemma_lex_step(
                                        source@,
                                        i as int,
                                        line as nat,
                                        col as nat,
                                        toks@,
                                        i + 1,
                                        advance_pos(col as nat, 1),
                                        tok,
                                    );
                                }
                                toks.push(tok);
                                col = sat_add(col, 1);
                                i = i + 1;
                            },
                            None => {
                                return Err(LexError::IllegalCharacter(c, line, col));
                            },
                        }
                    },
                }
            }
        }

        let ghost prior = toks@;
        let eof = Token::new(&TokenKind::Eof, String::new(), line, col);
        toks.push(eof);
        proof {
            assert(eof@ == TokenModel {
                kind: TokenKind::Eof,
                value: Seq::empty(),
                line: line as nat,
                pos: col as nat,
                binding_power: 0,
            });
            assert(view_tokens(toks@) =~= view_tokens(prior) + seq![eof@]);
            assert(toks@[toks@.len() - 1].kind == TokenKind::Eof);
        }
        Ok(toks)
    }
}

} // verus!

