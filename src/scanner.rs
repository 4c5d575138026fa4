//! The scanner: a forward cursor over the decoded characters of the source
//! that classifies one lexical unit at a time.
use vstd::prelude::*;
use crate::diagnostic::Diagnostic;
use crate::lexical::{
    char_is, diagnostic_at, is_alpha, is_alpha_numeric, is_digit, keyword, lemma_line_step,
    lemma_newlines_bound, lex_from, line_at, run_len, scan, step, token_at, Class, Outcome,
};
use crate::text::{collect_text, decode};
use crate::token::{
    lemma_views_push, literal_view, token_views, Literal, LiteralView, Token, TokenType, TokenView,
};

verus! {

/// What `peek` reads past the end of input.
const NUL: char = '\0';

/// The character at `i`, or `NUL` past either end.
pub open spec fn char_or_nul(src: Seq<char>, i: int) -> char {
    if 0 <= i < src.len() {
        src[i]
    } else {
        '\0'
    }
}

/// Looks up the exact text `text` among the reserved words.
fn keyword_kind(text: &[char]) -> (r: Option<TokenType>)
    ensures
        r == keyword(text@),
{
    if spelled(text, &['a', 'n', 'd']) {
        Some(TokenType::And)
    } else if spelled(text, &['c', 'l', 'a', 's', 's']) {
        Some(TokenType::Class)
    } else if spelled(text, &['e', 'l', 's', 'e']) {
        Some(TokenType::Else)
    } else if spelled(text, &['f', 'a', 'l', 's', 'e']) {
        Some(TokenType::False)
    } else if spelled(text, &['f', 'o', 'r']) {
        Some(TokenType::For)
    } else if spelled(text, &['f', 'u', 'n']) {
        Some(TokenType::Fun)
    } else if spelled(text, &['i', 'f']) {
        Some(TokenType::If)
    } else if spelled(text, &['n', 'i', 'l']) {
        Some(TokenType::Nil)
    } else if spelled(text, &['o', 'r']) {
        Some(TokenType::Or)
    } else if spelled(text, &['p', 'r', 'i', 'n', 't']) {
        Some(TokenType::Print)
    } else if spelled(text, &['r', 'e', 't', 'u', 'r', 'n']) {
        Some(TokenType::Return)
    } else if spelled(text, &['s', 'u', 'p', 'e', 'r']) {
        Some(TokenType::Super)
    } else if spelled(text, &['t', 'h', 'i', 's']) {
        Some(TokenType::This)
    } else if spelled(text, &['t', 'r', 'u', 'e']) {
        Some(TokenType::True)
    } else if spelled(text, &['v', 'a', 'r']) {
        Some(TokenType::Var)
    } else if spelled(text, &['w', 'h', 'i', 'l', 'e']) {
        Some(TokenType::While)
    } else {
        None
    }
}

/// Whether `text` is exactly `word`.
fn spelled(text: &[char], word: &[char]) -> (r: bool)
    ensures
        r == (text@ == word@),
{
    if text.len() != word.len() {
        return false;
    }
    let mut i: usize = 0;
    while i < text.len()
        invariant
            text.len() == word.len(),
            i <= text.len(),
            forall|j: int| 0 <= j < i ==> text@[j] == word@[j],
        decreases text.len() - i,
    {
        if text[i] != word[i] {
            return false;
        }
        i += 1;
    }
    assert(text@ =~= word@);
    true
}

/// Scans one source text into tokens, once.
pub struct Scanner {
    source: Vec<char>,
    tokens: Vec<Token>,
    diagnostics: Vec<Diagnostic>,
    start: usize,
    current: usize,
    line: usize,
}

impl Scanner {
    /// The source, as characters.
    pub closed spec fn text(&self) -> Seq<char> {
        self.source@
    }

    /// The diagnostics reported so far.
    pub closed spec fn reported(&self) -> Seq<Diagnostic> {
        self.diagnostics@
    }

    /// The cursors lie in order within the source, whose length leaves room
    /// for the line counter.
    closed spec fn cursors_ok(&self) -> bool {
        &&& self.start <= self.current <= self.source.len()
        &&& self.source.len() < usize::MAX
    }

    /// The cursors are in order and `line` is the line that `current` is on.
    pub closed spec fn wf(&self) -> bool {
        &&& self.cursors_ok()
        &&& self.line == line_at(self.source@, self.current as int)
    }

    /// Nothing has been scanned yet.
    pub closed spec fn is_fresh(&self) -> bool {
        &&& self.wf()
        &&& self.start == 0
        &&& self.current == 0
        &&& self.tokens@.len() == 0
        &&& self.diagnostics@.len() == 0
    }

    /// `a` and `b` hold the same source, cursors and line.
    spec fn same_position(a: Scanner, b: Scanner) -> bool {
        &&& a.source@ == b.source@
        &&& a.start == b.start
        &&& a.current == b.current
        &&& a.line == b.line
    }

    /// `a` and `b` hold the same tokens and diagnostics.
    spec fn same_output(a: Scanner, b: Scanner) -> bool {
        &&& a.tokens@ == b.tokens@
        &&& a.diagnostics@ == b.diagnostics@
    }

    /// The view of the token of kind `kind` with literal `literal` spanning
    /// the current lexeme.
    spec fn lexeme_token(&self, kind: TokenType, literal: Option<LiteralView>) -> TokenView {
        TokenView {
            kind,
            lexeme: self.source@.subrange(self.start as int, self.current as int),
            literal,
            line: self.line as nat,
        }
    }

    /// Only the cursor has moved, to `current`.
    spec fn moved_to(before: Scanner, after: Scanner, current: int) -> bool {
        &&& after.source@ == before.source@
        &&& after.start == before.start
        &&& after.current == current
        &&& after.line == line_at(after.source@, current)
        &&& Self::same_output(before, after)
    }

    pub fn new(source: String) -> (r: Self)
        requires
            source@.len() < usize::MAX,
        ensures
            r.is_fresh(),
            r.text() == source@,
    {
        let chars = decode(source.as_str());
        proof {
            assert(chars@.subrange(0, 0) =~= Seq::<char>::empty());
        }
        Scanner { source: chars, tokens: Vec::new(), diagnostics: Vec::new(), start: 0, current: 0, line: 1 }
    }

    /// The diagnostics reported by the scan, in order.
    pub fn diagnostics(&self) -> (r: &Vec<Diagnostic>)
        ensures
            r@ == self.reported(),
    {
        &self.diagnostics
    }

    /// `after` is `before` with the unit that starts at `before.start`
    /// consumed, and what it yields recorded.
    spec fn did_step(before: Scanner, after: Scanner) -> bool {
        let src = before.source@;
        let s = before.start as int;
        let e = step(src, s).0;
        let o = step(src, s).1;
        &&& after.source@ == src
        &&& after.start == before.start
        &&& after.current == e
        &&& token_views(after.tokens@) == match o {
            Outcome::Emit(k) => token_views(before.tokens@).push(token_at(src, k, s, e)),
            _ => token_views(before.tokens@),
        }
        &&& after.diagnostics@ == match diagnostic_at(src, o, e) {
            Some(d) => before.diagnostics@.push(d),
            None => before.diagnostics@,
        }
    }

    /// Scans the whole source: the tokens of its units in order, then one
    /// end-of-input token. Malformed input is skipped and reported (see
    /// `diagnostics`); the scan always completes.
    pub fn scan_tokens(&mut self) -> (tokens: Vec<Token>)
        requires
            old(self).is_fresh(),
        ensures
            token_views(tokens@) == scan(old(self).text()).tokens,
            final(self).reported() == scan(old(self).text()).diagnostics,
    {
        let ghost src = self.source@;
        proof {
            assert(token_views(self.tokens@) + lex_from(src, 0).tokens =~= lex_from(src, 0).tokens);
            assert(self.diagnostics@ + lex_from(src, 0).diagnostics =~= lex_from(src, 0).diagnostics);
        }
        while !self.is_at_end()
            invariant
                self.wf(),
                self.source@ == src,
                token_views(self.tokens@) + lex_from(src, self.current as int).tokens == lex_from(
                    src,
                    0,
                ).tokens,
                self.diagnostics@ + lex_from(src, self.current as int).diagnostics == lex_from(
                    src,
                    0,
                ).diagnostics,
            decreases self.source.len() - self.current,
        {
            self.start = self.current;
            let ghost s = self.start as int;
            let ghost views = token_views(self.tokens@);
            let ghost reported = self.diagnostics@;
            self.scan_token();
            proof {
                let e = step(src, s).0;
                let o = step(src, s).1;
                let rest = lex_from(src, e);
                match o {
                    Outcome::Emit(k) => {
                        assert(views.push(token_at(src, k, s, e)) + rest.tokens =~= views + (seq![
                            token_at(src, k, s, e),
                        ] + rest.tokens));
                    },
                    _ => {},
                }
                match diagnostic_at(src, o, e) {
                    Some(d) => {
                        assert(reported.push(d) + rest.diagnostics =~= reported + (seq![d]
                            + rest.diagnostics));
                    },
                    None => {},
                }
            }
        }
        proof {
            assert(token_views(self.tokens@) + seq![] =~= token_views(self.tokens@));
            assert(self.diagnostics@ + seq![] =~= self.diagnostics@);
            assert(src.subrange(src.len() as int, src.len() as int) =~= Seq::<char>::empty());
        }
        self.start = self.current;
        self.add_token(TokenType::Eof);
        let mut tokens = Vec::new();
        std::mem::swap(&mut tokens, &mut self.tokens);
        tokens
    }

    /// Classifies and consumes the unit that starts at `start`.
    fn scan_token(&mut self)
        requires
            old(self).wf(),
            old(self).start == old(self).current,
            old(self).current < old(self).source.len(),
        ensures
            final(self).wf(),
            Self::did_step(*old(self), *final(self)),
    {
        let ghost src = self.source@;
        let ghost s = self.start as int;
        let c = self.peek();
        self.advance();
        proof {
            lemma_line_step(src, s);
            lemma_newlines_bound(src.subrange(0, s + 1));
            if s + 1 < src.len() {
                lemma_line_step(src, s + 1);
            }
        }
        match c {
            '(' => self.add_token(TokenType::LeftParen),
            ')' => self.add_token(TokenType::RightParen),
            '{' => self.add_token(TokenType::LeftBrace),
            '}' => self.add_token(TokenType::RightBrace),
            ',' => self.add_token(TokenType::Comma),
            '.' => self.add_token(TokenType::Dot),
            '-' => self.add_token(TokenType::Minus),
            '+' => self.add_token(TokenType::Plus),
            ';' => self.add_token(TokenType::Semicolon),
            '*' => self.add_token(TokenType::Star),
            '!' => {
                if self.next_matches('=') {
                    self.add_token(TokenType::BangEqual)
                } else {
                    self.add_token(TokenType::Bang)
                }
            },
            '=' => {
                if self.next_matches('=') {
                    self.add_token(TokenType::EqualEqual)
                } else {
                    self.add_token(TokenType::Equal)
                }
            },
            '<' => {
                if self.next_matches('=') {
                    self.add_token(TokenType::LessEqual)
                } else {
                    self.add_token(TokenType::Less)
                }
            },
            '>' => {
                if self.next_matches('=') {
                    self.add_token(TokenType::GreaterEqual)
                } else {
                    self.add_token(TokenType::Greater)
                }
            },
            '/' => {
                if self.next_matches('/') {
                    // A comment runs to the end of the line and yields nothing.
                    self.comment();
                } else {
                    self.add_token(TokenType::Slash);
                }
            },
            ' ' | '\r' | '\t' => {},
            '\n' => self.next_line(),
            '"' => self.string(),
            c if self.is_digit(c) => self.number(),
            c if self.is_alpha(c) => self.identifier(),
            c => {
                self.diagnostics.push(
                    Diagnostic::UnexpectedCharacter { line: self.line, code_point: c as u32 },
                );
            },
        }
    }

    /// Consumes the rest of a line comment, up to the newline or the end of input.
    fn comment(&mut self)
        requires
            old(self).wf(),
            old(self).start + 2 == old(self).current,
        ensures
            final(self).wf(),
            Self::moved_to(
                *old(self),
                *final(self),
                old(self).current + run_len(old(self).source@, old(self).current as int, Class::NotNewline),
            ),
    {
        let ghost src = self.source@;
        let ghost before = *self;
        let ghost stop = self.current + run_len(src, self.current as int, Class::NotNewline);
        while self.peek() != '\n' && !self.is_at_end()
            invariant
                self.wf(),
                self.source@ == src,
                self.start == before.start,
                Self::same_output(before, *self),
                self.current + run_len(src, self.current as int, Class::NotNewline) == stop,
            decreases self.source.len() - self.current,
        {
            proof {
                lemma_line_step(src, self.current as int);
            }
            self.advance();
        }
    }

    /// Consumes the rest of a word whose first character is consumed, and
    /// emits it as a keyword or an identifier.
    fn identifier(&mut self)
        requires
            old(self).wf(),
            old(self).start + 1 == old(self).current,
            old(self).start < old(self).source.len(),
            is_alpha(old(self).source@[old(self).start as int]),
        ensures
            final(self).wf(),
            Self::did_step(*old(self), *final(self)),
    {
        let ghost src = self.source@;
        let ghost before = *self;
        let ghost s = self.start as int;
        let ghost stop = s + 1 + run_len(src, s + 1, Class::Word);
        while self.is_alpha_numeric(self.peek())
            invariant
                self.wf(),
                self.source@ == src,
                self.start == before.start,
                Self::same_output(before, *self),
                s + 1 <= self.current,
                self.current + run_len(src, self.current as int, Class::Word) == stop,
            decreases self.source.len() - self.current,
        {
            proof {
                lemma_line_step(src, self.current as int);
            }
            self.advance();
        }
        let token_type = match keyword_kind(&self.source.as_slice()[self.start..self.current]) {
            Some(k) => k,
            None => TokenType::Identifier,
        };
        self.add_token(token_type);
    }

    /// Consumes the rest of a number literal whose first digit is consumed,
    /// and emits it with its numeral as the literal.
    fn number(&mut self)
        requires
            old(self).wf(),
            old(self).start + 1 == old(self).current,
            old(self).start < old(self).source.len(),
            is_digit(old(self).source@[old(self).start as int]),
        ensures
            final(self).wf(),
            Self::did_step(*old(self), *final(self)),
    {
        let ghost src = self.source@;
        let ghost before = *self;
        let ghost s = self.start as int;
        let ghost whole = s + 1 + run_len(src, s + 1, Class::Digit);
        while self.is_digit(self.peek())
            invariant
                self.wf(),
                self.source@ == src,
                self.start == before.start,
                Self::same_output(before, *self),
                s + 1 <= self.current,
                self.current + run_len(src, self.current as int, Class::Digit) == whole,
            decreases self.source.len() - self.current,
        {
            proof {
                lemma_line_step(src, self.current as int);
            }
            self.advance();
        }
        // A fractional part needs a digit after the `.`.
        if self.peek() == '.' && self.is_digit(self.peek_next()) {
            proof {
                lemma_line_step(src, self.current as int);
            }
            self.advance();
            let ghost fraction = whole + 1 + run_len(src, whole + 1, Class::Digit);
            while self.is_digit(self.peek())
                invariant
                    self.wf(),
                    self.source@ == src,
                    self.start == before.start,
                    Self::same_output(before, *self),
                    whole + 1 <= self.current,
                    self.current + run_len(src, self.current as int, Class::Digit) == fraction,
                decreases self.source.len() - self.current,
            {
                proof {
                    lemma_line_step(src, self.current as int);
                }
                self.advance();
            }
        }
        let text = self.get_text();
        self.add_token_literal(TokenType::Number, Some(Literal::Number(text)));
    }

    /// Consumes the rest of a string literal whose opening quote is consumed.
    /// Emits it with the text between the quotes as the literal, or reports
    /// it as unterminated when the input ends first.
    fn string(&mut self)
        requires
            old(self).wf(),
            old(self).start + 1 == old(self).current,
            old(self).start < old(self).source.len(),
            old(self).source@[old(self).start as int] == '"',
        ensures
            final(self).wf(),
            Self::did_step(*old(self), *final(self)),
    {
        let ghost src = self.source@;
        let ghost before = *self;
        let ghost s = self.start as int;
        let ghost stop = s + 1 + run_len(src, s + 1, Class::NotQuote);
        while self.peek() != '"' && !self.is_at_end()
            invariant
                self.wf(),
                self.source@ == src,
                self.start == before.start,
                Self::same_output(before, *self),
                s + 1 <= self.current,
                self.current + run_len(src, self.current as int, Class::NotQuote) == stop,
            decreases self.source.len() - self.current,
        {
            proof {
                lemma_line_step(src, self.current as int);
                lemma_newlines_bound(src.subrange(0, self.current + 1));
            }
            if self.peek() == '\n' {
                self.next_line();
            }
            self.advance();
        }
        if self.is_at_end() {
            self.diagnostics.push(Diagnostic::UnterminatedString { line: self.line });
            return;
        }
        proof {
            lemma_line_step(src, self.current as int);
        }
        // The closing quote.
        self.advance();
        let text = collect_text(&self.source.as_slice()[self.start + 1..self.current - 1]);
        proof {
            let e = self.current as int;
            assert(src.subrange(s, e).subrange(1, e - s - 1) =~= src.subrange(s + 1, e - 1));
        }
        self.add_token_literal(TokenType::String, Some(Literal::String(text)));
    }

    fn advance(&mut self)
        requires
            old(self).cursors_ok(),
            old(self).current < old(self).source.len(),
        ensures
            final(self).cursors_ok(),
            final(self).current == old(self).current + 1,
            final(self).source@ == old(self).source@,
            final(self).start == old(self).start,
            final(self).line == old(self).line,
            Self::same_output(*old(self), *final(self)),
    {
        self.current += 1;
    }

    fn next_line(&mut self)
        requires
            old(self).line < usize::MAX,
        ensures
            final(self).line == old(self).line + 1,
            final(self).source@ == old(self).source@,
            final(self).start == old(self).start,
            final(self).current == old(self).current,
            Self::same_output(*old(self), *final(self)),
    {
        self.line += 1;
    }

    /// Consumes the next character if it is `expected`.
    fn next_matches(&mut self, expected: char) -> (r: bool)
        requires
            old(self).cursors_ok(),
        ensures
            r == char_is(old(self).source@, old(self).current as int, expected),
            final(self).cursors_ok(),
            final(self).current == old(self).current + if r {
                1int
            } else {
                0int
            },
            final(self).source@ == old(self).source@,
            final(self).start == old(self).start,
            final(self).line == old(self).line,
            Self::same_output(*old(self), *final(self)),
    {
        if self.is_at_end() {
            return false;
        }
        if self.peek() != expected {
            return false;
        }
        self.advance();
        true
    }

    fn is_alpha(&self, c: char) -> (r: bool)
        ensures
            r == is_alpha(c),
    {
        ('a' <= c && c <= 'z') || ('A' <= c && c <= 'Z') || c == '_'
    }

    fn is_digit(&self, c: char) -> (r: bool)
        ensures
            r == is_digit(c),
    {
        '0' <= c && c <= '9'
    }

    fn is_alpha_numeric(&self, c: char) -> (r: bool)
        ensures
            r == is_alpha_numeric(c),
    {
        self.is_alpha(c) || self.is_digit(c)
    }

    fn is_at_end(&self) -> (r: bool)
        ensures
            r == (self.current >= self.source.len()),
    {
        self.current >= self.source.len()
    }

    fn peek(&self) -> (c: char)
        ensures
            c == char_or_nul(self.source@, self.current as int),
    {
        if self.is_at_end() {
            return NUL;
        }
        self.get_char()
    }

    fn peek_next(&self) -> (c: char)
        requires
            self.cursors_ok(),
        ensures
            c == char_or_nul(self.source@, self.current + 1),
    {
        if self.current + 1 >= self.source.len() {
            return NUL;
        }
        self.get_next_char()
    }

    fn get_char(&self) -> (c: char)
        requires
            self.current < self.source.len(),
        ensures
            c == self.source@[self.current as int],
    {
        self.source[self.current]
    }

    fn get_next_char(&self) -> (c: char)
        requires
            self.current + 1 < self.source.len(),
        ensures
            c == self.source@[self.current + 1],
    {
        self.source[self.current + 1]
    }

    /// The current lexeme, `start..current`.
    fn get_text(&self) -> (r: String)
        requires
            self.cursors_ok(),
        ensures
            r@ == self.source@.subrange(self.start as int, self.current as int),
    {
        collect_text(&self.source.as_slice()[self.start..self.current])
    }

    fn add_token(&mut self, token_type: TokenType)
        requires
            old(self).cursors_ok(),
        ensures
            Self::same_position(*old(self), *final(self)),
            final(self).cursors_ok(),
            final(self).diagnostics@ == old(self).diagnostics@,
            token_views(final(self).tokens@) == token_views(old(self).tokens@).push(
                old(self).lexeme_token(token_type, None),
            ),
    {
        self.add_token_literal(token_type, None)
    }

    fn add_token_literal(&mut self, token_type: TokenType, literal: Option<Literal>)
        requires
            old(self).cursors_ok(),
        ensures
            Self::same_position(*old(self), *final(self)),
            final(self).cursors_ok(),
            final(self).diagnostics@ == old(self).diagnostics@,
            token_views(final(self).tokens@) == token_views(old(self).tokens@).push(
                old(self).lexeme_token(token_type, literal_view(literal)),
            ),
    {
        let text = self.get_text();
        let token = Token::new(token_type, text, literal, self.line);
        proof {
            lemma_views_push(self.tokens@, token);
        }
        self.tokens.push(token);
    }
}

} // verus!
