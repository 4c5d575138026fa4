//! The lexical rules, stated over the source as a sequence of characters:
//! what one classification step consumes and yields, and what a whole scan
//! produces.
use vstd::prelude::*;
use crate::diagnostic::Diagnostic;
use crate::token::{LiteralView, TokenType, TokenView};

verus! {

pub open spec fn is_digit(c: char) -> bool {
    '0' <= c && c <= '9'
}

pub open spec fn is_alpha(c: char) -> bool {
    ('a' <= c && c <= 'z') || ('A' <= c && c <= 'Z') || c == '_'
}

pub open spec fn is_alpha_numeric(c: char) -> bool {
    is_alpha(c) || is_digit(c)
}

/// The classes of characters that the scanner consumes in maximal runs.
pub enum Class {
    Digit,
    Word,
    NotNewline,
    NotQuote,
}

pub open spec fn in_class(c: char, k: Class) -> bool {
    match k {
        Class::Digit => is_digit(c),
        Class::Word => is_alpha_numeric(c),
        Class::NotNewline => c != '\n',
        Class::NotQuote => c != '"',
    }
}

/// The length of the maximal run of characters of class `k` starting at `i`.
pub open spec fn run_len(src: Seq<char>, i: int, k: Class) -> nat
    decreases src.len() - i,
{
    if 0 <= i < src.len() && in_class(src[i], k) {
        1 + run_len(src, i + 1, k)
    } else {
        0
    }
}

/// Whether the character at `i` exists and is `c`.
pub open spec fn char_is(src: Seq<char>, i: int, c: char) -> bool {
    0 <= i < src.len() && src[i] == c
}

/// The number of newline characters in `s`.
pub open spec fn newlines(s: Seq<char>) -> nat
    decreases s.len(),
{
    if s.len() == 0 {
        0
    } else {
        newlines(s.drop_last()) + if s.last() == '\n' {
            1nat
        } else {
            0nat
        }
    }
}

/// The 1-based line that the cursor is on once `i` characters are consumed.
pub open spec fn line_at(src: Seq<char>, i: int) -> nat {
    1 + newlines(src.subrange(0, i))
}

/// A newline-free run of characters consumed at `i` leaves the line as it was;
/// a newline advances it by one.
pub proof fn lemma_line_step(src: Seq<char>, i: int)
    requires
        0 <= i < src.len(),
    ensures
        line_at(src, i + 1) == line_at(src, i) + if src[i] == '\n' {
            1nat
        } else {
            0nat
        },
{
    assert(src.subrange(0, i + 1).drop_last() =~= src.subrange(0, i));
}

/// A text holds no more newlines than characters.
pub proof fn lemma_newlines_bound(s: Seq<char>)
    ensures
        newlines(s) <= s.len(),
    decreases s.len(),
{
    if s.len() > 0 {
        lemma_newlines_bound(s.drop_last());
    }
}

/// The punctuation that is always a token of one character.
pub open spec fn single_char_kind(c: char) -> Option<TokenType> {
    if c == '(' {
        Some(TokenType::LeftParen)
    } else if c == ')' {
        Some(TokenType::RightParen)
    } else if c == '{' {
        Some(TokenType::LeftBrace)
    } else if c == '}' {
        Some(TokenType::RightBrace)
    } else if c == ',' {
        Some(TokenType::Comma)
    } else if c == '.' {
        Some(TokenType::Dot)
    } else if c == '-' {
        Some(TokenType::Minus)
    } else if c == '+' {
        Some(TokenType::Plus)
    } else if c == ';' {
        Some(TokenType::Semicolon)
    } else if c == '*' {
        Some(TokenType::Star)
    } else {
        None
    }
}

/// The operators `!`, `=`, `<`, `>`, alone or followed by `=`.
pub open spec fn operator_kind(c: char, with_equal: bool) -> Option<TokenType> {
    if c == '!' {
        Some(if with_equal { TokenType::BangEqual } else { TokenType::Bang })
    } else if c == '=' {
        Some(if with_equal { TokenType::EqualEqual } else { TokenType::Equal })
    } else if c == '<' {
        Some(if with_equal { TokenType::LessEqual } else { TokenType::Less })
    } else if c == '>' {
        Some(if with_equal { TokenType::GreaterEqual } else { TokenType::Greater })
    } else {
        None
    }
}

/// The reserved words and their kinds.
pub open spec fn keyword(s: Seq<char>) -> Option<TokenType> {
    if s == seq!['a', 'n', 'd'] {
        Some(TokenType::And)
    } else if s == seq!['c', 'l', 'a', 's', 's'] {
        Some(TokenType::Class)
    } else if s == seq!['e', 'l', 's', 'e'] {
        Some(TokenType::Else)
    } else if s == seq!['f', 'a', 'l', 's', 'e'] {
        Some(TokenType::False)
    } else if s == seq!['f', 'o', 'r'] {
        Some(TokenType::For)
    } else if s == seq!['f', 'u', 'n'] {
        Some(TokenType::Fun)
    } else if s == seq!['i', 'f'] {
        Some(TokenType::If)
    } else if s == seq!['n', 'i', 'l'] {
        Some(TokenType::Nil)
    } else if s == seq!['o', 'r'] {
        Some(TokenType::Or)
    } else if s == seq!['p', 'r', 'i', 'n', 't'] {
        Some(TokenType::Print)
    } else if s == seq!['r', 'e', 't', 'u', 'r', 'n'] {
        Some(TokenType::Return)
    } else if s == seq!['s', 'u', 'p', 'e', 'r'] {
        Some(TokenType::Super)
    } else if s == seq!['t', 'h', 'i', 's'] {
        Some(TokenType::This)
    } else if s == seq!['t', 'r', 'u', 'e'] {
        Some(TokenType::True)
    } else if s == seq!['v', 'a', 'r'] {
        Some(TokenType::Var)
    } else if s == seq!['w', 'h', 'i', 'l', 'e'] {
        Some(TokenType::While)
    } else {
        None
    }
}

/// The kind of a maximal run of identifier characters.
pub open spec fn word_kind(s: Seq<char>) -> TokenType {
    match keyword(s) {
        Some(k) => k,
        None => TokenType::Identifier,
    }
}

/// Where a number literal whose first digit is just before `i` ends: a run
/// of digits, then a `.` and a second run only if a digit follows the `.`.
pub open spec fn number_end(src: Seq<char>, i: int) -> int {
    let a = i + run_len(src, i, Class::Digit);
    if char_is(src, a, '.') && 0 <= a + 1 < src.len() && is_digit(src[a + 1]) {
        a + 1 + run_len(src, a + 1, Class::Digit)
    } else {
        a
    }
}

/// What one classification step yields.
pub enum Outcome {
    Emit(TokenType),
    Skip,
    Unexpected(char),
    Unterminated,
}

/// One classification step on the unit that starts at `s`: where it ends,
/// and what it yields.
pub open spec fn step(src: Seq<char>, s: int) -> (int, Outcome) {
    let c = src[s];
    let n = s + 1;
    if single_char_kind(c) is Some {
        (n, Outcome::Emit(single_char_kind(c)->0))
    } else if operator_kind(c, false) is Some {
        if char_is(src, n, '=') {
            (n + 1, Outcome::Emit(operator_kind(c, true)->0))
        } else {
            (n, Outcome::Emit(operator_kind(c, false)->0))
        }
    } else if c == '/' {
        if char_is(src, n, '/') {
            (n + 1 + run_len(src, n + 1, Class::NotNewline), Outcome::Skip)
        } else {
            (n, Outcome::Emit(TokenType::Slash))
        }
    } else if c == ' ' || c == '\r' || c == '\t' || c == '\n' {
        (n, Outcome::Skip)
    } else if c == '"' {
        let e = n + run_len(src, n, Class::NotQuote);
        if e < src.len() {
            (e + 1, Outcome::Emit(TokenType::String))
        } else {
            (e, Outcome::Unterminated)
        }
    } else if is_digit(c) {
        (number_end(src, n), Outcome::Emit(TokenType::Number))
    } else if is_alpha(c) {
        let e = n + run_len(src, n, Class::Word);
        (e, Outcome::Emit(word_kind(src.subrange(s, e))))
    } else {
        (n, Outcome::Unexpected(c))
    }
}

/// The literal that a token of kind `kind` with text `lexeme` carries.
pub open spec fn literal_of(kind: TokenType, lexeme: Seq<char>) -> Option<LiteralView> {
    match kind {
        TokenType::Number => Some(LiteralView::Number(lexeme)),
        TokenType::String => Some(LiteralView::Text(lexeme.subrange(1, lexeme.len() - 1))),
        _ => None,
    }
}

/// The token of kind `kind` spanning `s..e`, emitted with the cursor at `e`.
pub open spec fn token_at(src: Seq<char>, kind: TokenType, s: int, e: int) -> TokenView {
    TokenView {
        kind,
        lexeme: src.subrange(s, e),
        literal: literal_of(kind, src.subrange(s, e)),
        line: line_at(src, e),
    }
}

/// The diagnostic that an outcome reports when the cursor stops at `e`.
pub open spec fn diagnostic_at(src: Seq<char>, o: Outcome, e: int) -> Option<Diagnostic> {
    match o {
        Outcome::Unexpected(c) => Some(
            Diagnostic::UnexpectedCharacter { line: line_at(src, e) as usize, code_point: c as u32 },
        ),
        Outcome::Unterminated => Some(Diagnostic::UnterminatedString { line: line_at(src, e) as usize }),
        _ => None,
    }
}

/// Every step consumes at least one character, and never runs past the end.
pub proof fn lemma_step_advances(src: Seq<char>, s: int)
    requires
        0 <= s < src.len(),
    ensures
        s < step(src, s).0 <= src.len(),
{
    let n = s + 1;
    lemma_run_len_bound(src, n, Class::NotQuote);
    lemma_run_len_bound(src, n, Class::Word);
    lemma_run_len_bound(src, n, Class::Digit);
    lemma_run_len_bound(src, n + 1, Class::NotNewline);
    let a = n + run_len(src, n, Class::Digit);
    lemma_run_len_bound(src, a + 1, Class::Digit);
}

/// A run never extends past the end of input.
pub proof fn lemma_run_len_bound(src: Seq<char>, i: int, k: Class)
    requires
        0 <= i,
    ensures
        run_len(src, i, k) == 0 || i + run_len(src, i, k) <= src.len(),
    decreases src.len() - i,
{
    if i < src.len() && in_class(src[i], k) {
        lemma_run_len_bound(src, i + 1, k);
    }
}

/// What a scan produces.
pub struct Lexed {
    pub tokens: Seq<TokenView>,
    pub diagnostics: Seq<Diagnostic>,
}

/// The tokens and diagnostics of the units from `s` to the end of input.
pub open spec fn lex_from(src: Seq<char>, s: int) -> Lexed
    decreases src.len() - s,
{
    if 0 <= s < src.len() {
        let e = step(src, s).0;
        let o = step(src, s).1;
        proof {
            lemma_step_advances(src, s);
        }
        let rest = lex_from(src, e);
        Lexed {
            tokens: match o {
                Outcome::Emit(k) => seq![token_at(src, k, s, e)] + rest.tokens,
                _ => rest.tokens,
            },
            diagnostics: match diagnostic_at(src, o, e) {
                Some(d) => seq![d] + rest.diagnostics,
                None => rest.diagnostics,
            },
        }
    } else {
        Lexed { tokens: seq![], diagnostics: seq![] }
    }
}

/// The end-of-input token of `src`.
pub open spec fn eof_token(src: Seq<char>) -> TokenView {
    TokenView {
        kind: TokenType::Eof,
        lexeme: seq![],
        literal: None,
        line: line_at(src, src.len() as int),
    }
}

/// The result of scanning the whole of `src`: the tokens of its units,
/// then the end-of-input token; and the diagnostics, in order.
pub open spec fn scan(src: Seq<char>) -> Lexed {
    let body = lex_from(src, 0);
    Lexed { tokens: body.tokens.push(eof_token(src)), diagnostics: body.diagnostics }
}

} // verus!
