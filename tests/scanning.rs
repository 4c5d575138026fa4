use lox::diagnostic::{error, Diagnostic};
use lox::scanner::Scanner;
use lox::token::{Literal, Token, TokenType};

fn scan(source: &str) -> (Vec<Token>, Vec<Diagnostic>) {
    let mut scanner = Scanner::new(source.to_string());
    let tokens = scanner.scan_tokens();
    (tokens, scanner.diagnostics().clone())
}

fn kinds(tokens: &[Token]) -> Vec<TokenType> {
    tokens.iter().map(|t| t.token_type).collect()
}

#[test]
fn last_token_is_eof_with_empty_lexeme() {
    for source in ["", "(+)", "var x = 1;", "\"abc", "@", "// only a comment", "a\nb\n"] {
        let (tokens, _) = scan(source);
        let last = tokens.last().unwrap();
        assert_eq!(last.token_type, TokenType::Eof);
        assert_eq!(last.lexeme, "");
        assert_eq!(last.literal, None);
        let eofs = tokens.iter().filter(|t| t.token_type == TokenType::Eof).count();
        assert_eq!(eofs, 1);
    }
}

#[test]
fn empty_source_gives_only_eof() {
    let (tokens, diagnostics) = scan("");
    assert_eq!(tokens, vec![Token::new(TokenType::Eof, String::new(), None, 1)]);
    assert!(diagnostics.is_empty());
}

#[test]
fn punctuation_in_parentheses() {
    let (tokens, diagnostics) = scan("(+)");
    assert_eq!(
        kinds(&tokens),
        vec![TokenType::LeftParen, TokenType::Plus, TokenType::RightParen, TokenType::Eof]
    );
    assert_eq!(tokens[1].lexeme, "+");
    assert!(diagnostics.is_empty());
}

#[test]
fn single_character_punctuation() {
    let (tokens, _) = scan("(){},.-+;*/");
    assert_eq!(
        kinds(&tokens),
        vec![
            TokenType::LeftParen,
            TokenType::RightParen,
            TokenType::LeftBrace,
            TokenType::RightBrace,
            TokenType::Comma,
            TokenType::Dot,
            TokenType::Minus,
            TokenType::Plus,
            TokenType::Semicolon,
            TokenType::Star,
            TokenType::Slash,
            TokenType::Eof,
        ]
    );
}

#[test]
fn one_or_two_character_operators() {
    let (tokens, _) = scan("! != = == < <= > >=");
    assert_eq!(
        kinds(&tokens),
        vec![
            TokenType::Bang,
            TokenType::BangEqual,
            TokenType::Equal,
            TokenType::EqualEqual,
            TokenType::Less,
            TokenType::LessEqual,
            TokenType::Greater,
            TokenType::GreaterEqual,
            TokenType::Eof,
        ]
    );
    assert_eq!(tokens[1].lexeme, "!=");
    assert_eq!(tokens[7].lexeme, ">=");
    let (tokens, _) = scan("===");
    assert_eq!(kinds(&tokens), vec![TokenType::EqualEqual, TokenType::Equal, TokenType::Eof]);
}

#[test]
fn comment_then_number_on_next_line() {
    let (tokens, diagnostics) = scan("// comment\n42");
    assert_eq!(
        tokens,
        vec![
            Token::new(
                TokenType::Number,
                "42".to_string(),
                Some(Literal::Number("42".to_string())),
                2
            ),
            Token::new(TokenType::Eof, String::new(), None, 2),
        ]
    );
    assert!(diagnostics.is_empty());
}

#[test]
fn slash_alone_is_a_token() {
    let (tokens, _) = scan("a / b");
    assert_eq!(
        kinds(&tokens),
        vec![TokenType::Identifier, TokenType::Slash, TokenType::Identifier, TokenType::Eof]
    );
}

#[test]
fn string_literal_strips_quotes() {
    let (tokens, diagnostics) = scan("\"abc\"");
    assert_eq!(
        tokens[0],
        Token::new(
            TokenType::String,
            "\"abc\"".to_string(),
            Some(Literal::String("abc".to_string())),
            1
        )
    );
    assert_eq!(tokens.len(), 2);
    assert!(diagnostics.is_empty());
}

#[test]
fn empty_and_multi_line_strings() {
    let (tokens, _) = scan("\"\"");
    assert_eq!(tokens[0].literal, Some(Literal::String(String::new())));
    let (tokens, _) = scan("\"a\nb\" x");
    assert_eq!(tokens[0].literal, Some(Literal::String("a\nb".to_string())));
    assert_eq!(tokens[0].line, 2);
    assert_eq!(tokens[1].line, 2);
    assert_eq!(tokens[2].line, 2);
}

#[test]
fn fractional_number() {
    let (tokens, _) = scan("3.14");
    assert_eq!(tokens.len(), 2);
    assert_eq!(tokens[0].token_type, TokenType::Number);
    assert_eq!(tokens[0].lexeme, "3.14");
    assert_eq!(tokens[0].literal, Some(Literal::Number("3.14".to_string())));
    match &tokens[0].literal {
        Some(Literal::Number(numeral)) => assert_eq!(numeral.parse::<f64>().unwrap(), 3.14),
        other => panic!("not a number literal: {:?}", other),
    }
}

#[test]
fn trailing_dot_is_not_part_of_number() {
    let (tokens, _) = scan("3.");
    assert_eq!(kinds(&tokens), vec![TokenType::Number, TokenType::Dot, TokenType::Eof]);
    assert_eq!(tokens[0].literal, Some(Literal::Number("3".to_string())));
    assert_eq!(tokens[1].lexeme, ".");
    let (tokens, _) = scan("1.2.3");
    assert_eq!(
        kinds(&tokens),
        vec![TokenType::Number, TokenType::Dot, TokenType::Number, TokenType::Eof]
    );
    assert_eq!(tokens[0].lexeme, "1.2");
    assert_eq!(tokens[2].lexeme, "3");
}

#[test]
fn identifier_is_not_split_at_keyword() {
    let (tokens, _) = scan("forest");
    assert_eq!(
        tokens,
        vec![
            Token::new(TokenType::Identifier, "forest".to_string(), None, 1),
            Token::new(TokenType::Eof, String::new(), None, 1),
        ]
    );
}

#[test]
fn keyword_and() {
    let (tokens, _) = scan("and");
    assert_eq!(kinds(&tokens), vec![TokenType::And, TokenType::Eof]);
    assert_eq!(tokens[0].lexeme, "and");
    assert_eq!(tokens[0].literal, None);
}

#[test]
fn every_keyword() {
    let (tokens, _) =
        scan("and class else false fun for if nil or print return super this true var while");
    assert_eq!(
        kinds(&tokens),
        vec![
            TokenType::And,
            TokenType::Class,
            TokenType::Else,
            TokenType::False,
            TokenType::Fun,
            TokenType::For,
            TokenType::If,
            TokenType::Nil,
            TokenType::Or,
            TokenType::Print,
            TokenType::Return,
            TokenType::Super,
            TokenType::This,
            TokenType::True,
            TokenType::Var,
            TokenType::While,
            TokenType::Eof,
        ]
    );
    let (tokens, _) = scan("And _if if_ classy x1");
    assert!(tokens[..5].iter().all(|t| t.token_type == TokenType::Identifier));
}

#[test]
fn unterminated_string() {
    let (tokens, diagnostics) = scan("\"abc");
    assert_eq!(kinds(&tokens), vec![TokenType::Eof]);
    assert_eq!(diagnostics, vec![Diagnostic::UnterminatedString { line: 1 }]);
    assert_eq!(diagnostics[0].message(), "Unterminated string.");
}

#[test]
fn unexpected_character() {
    let (tokens, diagnostics) = scan("@");
    assert_eq!(kinds(&tokens), vec![TokenType::Eof]);
    assert_eq!(
        diagnostics,
        vec![Diagnostic::UnexpectedCharacter { line: 1, code_point: 0x40 }]
    );
    assert_eq!(diagnostics[0].message(), "Unexpected character code: '0x40'.");

    let (tokens, diagnostics) = scan("@+");
    assert_eq!(kinds(&tokens), vec![TokenType::Plus, TokenType::Eof]);
    assert_eq!(diagnostics.len(), 1);
}

#[test]
fn diagnostics_keep_their_lines() {
    let (tokens, diagnostics) = scan("#\n\n€ ok");
    assert_eq!(kinds(&tokens), vec![TokenType::Identifier, TokenType::Eof]);
    assert_eq!(tokens[0].line, 3);
    assert_eq!(
        diagnostics,
        vec![
            Diagnostic::UnexpectedCharacter { line: 1, code_point: 0x23 },
            Diagnostic::UnexpectedCharacter { line: 3, code_point: 0x20ac },
        ]
    );
    assert_eq!(diagnostics[1].message(), "Unexpected character code: '0x20ac'.");
    assert_eq!(diagnostics[1].line(), 3);
    let (_, diagnostics) = scan("\u{0}");
    assert_eq!(diagnostics[0].message(), "Unexpected character code: '0x0'.");
}

#[test]
fn reports_carry_line_and_message() {
    let report = Diagnostic::UnterminatedString { line: 7 }.report();
    assert_eq!(report.line, 7);
    assert_eq!(report.location, "");
    assert_eq!(report.message, "Unterminated string.");
    let plain = error(4, "boom".to_string());
    assert_eq!(plain.line, 4);
    assert_eq!(plain.location, "");
    assert_eq!(plain.message, "boom");
}

#[test]
fn lines_advance_on_newlines() {
    let (tokens, _) = scan("a\nb\r\n\tc");
    let lines: Vec<usize> = tokens.iter().map(|t| t.line).collect();
    assert_eq!(lines, vec![1, 2, 3, 3]);
}

#[test]
fn non_ascii_text_is_kept_whole() {
    let (tokens, diagnostics) = scan("\"héllo\" é");
    assert_eq!(tokens[0].lexeme, "\"héllo\"");
    assert_eq!(tokens[0].literal, Some(Literal::String("héllo".to_string())));
    assert_eq!(diagnostics.len(), 1);
}

#[test]
fn rescanning_gives_identical_results() {
    let source = "var a = \"x\"; @ print a >= 10.5; // done\n\"open";
    let first = scan(source);
    let second = scan(source);
    assert_eq!(first, second);
    assert_eq!(first.1.len(), 2);
}
