use rust_lox::scanner::Scanner;
use rust_lox::token::Token;
use rust_lox::token_type::TokenType;

fn scan(source: &str) -> Scanner<'_> {
    let mut scanner = Scanner::new(source);
    scanner.scan_tokens();
    scanner
}

fn assert_token(token: &Token, token_type: TokenType, lexeme: &str, literal: Option<&str>, line: usize) {
    assert_eq!(token.token_type, token_type);
    assert_eq!(token.lexeme, lexeme);
    assert_eq!(token.literal.as_deref(), literal);
    assert_eq!(token.line, line);
}

fn types(tokens: &[Token]) -> Vec<TokenType> {
    tokens.iter().map(|t| t.token_type).collect()
}

#[test]
fn scan_single_char_tokens() {
    let scanner = scan("(){}.,-+;*/");
    let tokens = scanner.tokens;

    let expected = [
        TokenType::LeftParen,
        TokenType::RightParen,
        TokenType::LeftBrace,
        TokenType::RightBrace,
        TokenType::Dot,
        TokenType::Comma,
        TokenType::Minus,
        TokenType::Plus,
        TokenType::Semicolon,
        TokenType::Star,
        TokenType::Slash,
        TokenType::Eof,
    ];

    assert_eq!(tokens.len(), expected.len());
    for (token, token_type) in tokens.iter().zip(expected.iter()) {
        assert_eq!(token.token_type, *token_type);
    }
}

#[test]
fn scan_two_char_tokens() {
    let scanner = scan("! != = == < <= > >=");
    let tokens = scanner.tokens;

    assert_token(&tokens[0], TokenType::Bang, "!", None, 1);
    assert_token(&tokens[1], TokenType::BangEqual, "!=", None, 1);
    assert_token(&tokens[2], TokenType::Equal, "=", None, 1);
    assert_token(&tokens[3], TokenType::EqualEqual, "==", None, 1);
    assert_token(&tokens[4], TokenType::Less, "<", None, 1);
    assert_token(&tokens[5], TokenType::LessEqual, "<=", None, 1);
    assert_token(&tokens[6], TokenType::Greater, ">", None, 1);
    assert_token(&tokens[7], TokenType::GreaterEqual, ">=", None, 1);
    assert_eq!(tokens[8].token_type, TokenType::Eof);
}

#[test]
fn scan_numbers_and_strings() {
    let scanner = scan("123 45.67 \"hi\"");
    let tokens = scanner.tokens;

    assert_token(&tokens[0], TokenType::Number, "123", Some("123"), 1);
    assert_token(&tokens[1], TokenType::Number, "45.67", Some("45.67"), 1);
    // The lexeme of a string is the quoted text; its literal is the content.
    assert_token(&tokens[2], TokenType::String, "\"hi\"", Some("hi"), 1);
    assert_eq!(tokens[3].token_type, TokenType::Eof);
}

#[test]
fn scan_identifiers_and_keywords() {
    let scanner = scan("and class foo bar_1 var while");
    let tokens = scanner.tokens;

    assert_token(&tokens[0], TokenType::And, "and", None, 1);
    assert_token(&tokens[1], TokenType::Class, "class", None, 1);
    assert_token(&tokens[2], TokenType::Identifier, "foo", None, 1);
    assert_token(&tokens[3], TokenType::Identifier, "bar_1", None, 1);
    assert_token(&tokens[4], TokenType::Var, "var", None, 1);
    assert_token(&tokens[5], TokenType::While, "while", None, 1);
    assert_eq!(tokens[6].token_type, TokenType::Eof);
}

#[test]
fn scan_comments_and_line_numbers() {
    let scanner = scan("var a = 1; // comment\nprint a;");
    let tokens = scanner.tokens;

    assert_token(&tokens[0], TokenType::Var, "var", None, 1);
    assert_token(&tokens[1], TokenType::Identifier, "a", None, 1);
    assert_token(&tokens[2], TokenType::Equal, "=", None, 1);
    assert_token(&tokens[3], TokenType::Number, "1", Some("1"), 1);
    assert_token(&tokens[4], TokenType::Semicolon, ";", None, 1);
    assert_token(&tokens[5], TokenType::Print, "print", None, 2);
    assert_token(&tokens[6], TokenType::Identifier, "a", None, 2);
    assert_token(&tokens[7], TokenType::Semicolon, ";", None, 2);
    assert_token(&tokens[8], TokenType::Eof, "", None, 2);
    assert_eq!(tokens.len(), 9);
}

#[test]
fn scan_unterminated_string_records_error() {
    let scanner = scan("\"unterminated");

    assert_eq!(scanner.tokens.len(), 1);
    assert_eq!(scanner.tokens[0].token_type, TokenType::Eof);
    assert_eq!(scanner.errors.len(), 1);
    assert_eq!(scanner.errors[0].0, 1);
    assert_eq!(scanner.errors[0].1, "Unterminated string.");
}

#[test]
fn empty_source_gives_only_eof() {
    let scanner = scan("");
    assert_eq!(scanner.tokens.len(), 1);
    assert_token(&scanner.tokens[0], TokenType::Eof, "", None, 1);
    assert!(scanner.errors.is_empty());
}

#[test]
fn last_token_is_eof_after_errors() {
    let scanner = scan("a @ b\n#");
    let last = scanner.tokens.last().unwrap();
    assert_token(last, TokenType::Eof, "", None, 2);
    assert_eq!(scanner.tokens.len(), 3);
}

#[test]
fn punctuation_only_source_keeps_order() {
    let scanner = scan("*;+-.,}{)(");
    assert_eq!(
        types(&scanner.tokens),
        vec![
            TokenType::Star,
            TokenType::Semicolon,
            TokenType::Plus,
            TokenType::Minus,
            TokenType::Dot,
            TokenType::Comma,
            TokenType::RightBrace,
            TokenType::LeftBrace,
            TokenType::RightParen,
            TokenType::LeftParen,
            TokenType::Eof,
        ]
    );
}

#[test]
fn operator_without_equal_leaves_next_character() {
    let scanner = scan("!a=b<<>!");
    assert_eq!(
        types(&scanner.tokens),
        vec![
            TokenType::Bang,
            TokenType::Identifier,
            TokenType::Equal,
            TokenType::Identifier,
            TokenType::Less,
            TokenType::Less,
            TokenType::Greater,
            TokenType::Bang,
            TokenType::Eof,
        ]
    );
    assert_token(&scanner.tokens[1], TokenType::Identifier, "a", None, 1);
}

#[test]
fn operators_with_equal_take_both_characters() {
    let scanner = scan("!==<=>==");
    assert_token(&scanner.tokens[0], TokenType::BangEqual, "!=", None, 1);
    assert_token(&scanner.tokens[1], TokenType::Equal, "=", None, 1);
    assert_token(&scanner.tokens[2], TokenType::LessEqual, "<=", None, 1);
    assert_token(&scanner.tokens[3], TokenType::GreaterEqual, ">=", None, 1);
    assert_token(&scanner.tokens[4], TokenType::Equal, "=", None, 1);
    assert_eq!(scanner.tokens.len(), 6);
}

#[test]
fn string_literal_round_trip() {
    let scanner = scan("\"hi\"");
    assert_eq!(scanner.tokens.len(), 2);
    assert_token(&scanner.tokens[0], TokenType::String, "\"hi\"", Some("hi"), 1);
    assert_eq!(scanner.tokens[1].token_type, TokenType::Eof);
    assert!(scanner.errors.is_empty());
}

#[test]
fn empty_string_literal_is_present_and_empty() {
    let scanner = scan("\"\"");
    assert_token(&scanner.tokens[0], TokenType::String, "\"\"", Some(""), 1);
}

#[test]
fn multi_line_string_takes_closing_line() {
    let scanner = scan("\"a\nb\" x");
    assert_token(&scanner.tokens[0], TokenType::String, "\"a\nb\"", Some("a\nb"), 2);
    assert_token(&scanner.tokens[1], TokenType::Identifier, "x", None, 2);
    assert_token(&scanner.tokens[2], TokenType::Eof, "", None, 2);
}

#[test]
fn non_ascii_string_content_is_kept() {
    let scanner = scan("\"h\u{e9}llo\" z");
    assert_token(&scanner.tokens[0], TokenType::String, "\"h\u{e9}llo\"", Some("h\u{e9}llo"), 1);
    assert_token(&scanner.tokens[1], TokenType::Identifier, "z", None, 1);
}

#[test]
fn unterminated_string_reports_line_at_end() {
    let scanner = scan("x \"a\nb\nc");
    assert_eq!(types(&scanner.tokens), vec![TokenType::Identifier, TokenType::Eof]);
    assert_eq!(scanner.errors, vec![(3, "Unterminated string.".to_string())]);
    assert_eq!(scanner.tokens[1].line, 3);
}

#[test]
fn numbers_keep_their_text() {
    let scanner = scan("123 45.67");
    assert_token(&scanner.tokens[0], TokenType::Number, "123", Some("123"), 1);
    assert_token(&scanner.tokens[1], TokenType::Number, "45.67", Some("45.67"), 1);
    assert_eq!(scanner.tokens.len(), 3);
}

#[test]
fn trailing_dot_is_not_part_of_number() {
    let scanner = scan("1.");
    assert_token(&scanner.tokens[0], TokenType::Number, "1", Some("1"), 1);
    assert_token(&scanner.tokens[1], TokenType::Dot, ".", None, 1);
    assert_eq!(scanner.tokens[2].token_type, TokenType::Eof);
    let scanner = scan("7.x");
    assert_eq!(
        types(&scanner.tokens),
        vec![TokenType::Number, TokenType::Dot, TokenType::Identifier, TokenType::Eof]
    );
}

#[test]
fn every_keyword_and_its_extension() {
    let table = [
        ("and", TokenType::And),
        ("class", TokenType::Class),
        ("else", TokenType::Else),
        ("false", TokenType::False),
        ("fun", TokenType::Fun),
        ("for", TokenType::For),
        ("if", TokenType::If),
        ("nil", TokenType::Nil),
        ("or", TokenType::Or),
        ("print", TokenType::Print),
        ("return", TokenType::Return),
        ("super", TokenType::Super),
        ("this", TokenType::This),
        ("true", TokenType::True),
        ("var", TokenType::Var),
        ("while", TokenType::While),
    ];
    for (word, kind) in table.iter() {
        let scanner = scan(word);
        assert_token(&scanner.tokens[0], *kind, word, None, 1);
        assert_eq!(scanner.tokens.len(), 2);
        for extra in ["e", "_", "9", "Z"].iter() {
            let longer = format!("{}{}", word, extra);
            let scanner = scan(&longer);
            assert_token(&scanner.tokens[0], TokenType::Identifier, &longer, None, 1);
            assert_eq!(scanner.tokens.len(), 2);
        }
    }
    let scanner = scan("forever For");
    assert_eq!(types(&scanner.tokens), vec![TokenType::Identifier, TokenType::Identifier, TokenType::Eof]);
}

#[test]
fn rescanning_gives_identical_results() {
    let source = "var s = \"x\ny\"; @ 1.5 // end\n\"open";
    let first = scan(source);
    let second = scan(source);
    assert_eq!(first.tokens.len(), second.tokens.len());
    for (a, b) in first.tokens.iter().zip(second.tokens.iter()) {
        assert_eq!(a.token_type, b.token_type);
        assert_eq!(a.lexeme, b.lexeme);
        assert_eq!(a.literal, b.literal);
        assert_eq!(a.line, b.line);
    }
    assert_eq!(first.errors, second.errors);
}

#[test]
fn unexpected_character_is_reported_and_skipped() {
    let scanner = scan("a@b");
    assert_eq!(
        types(&scanner.tokens),
        vec![TokenType::Identifier, TokenType::Identifier, TokenType::Eof]
    );
    assert_eq!(scanner.errors, vec![(1, "Unexpected character: @".to_string())]);
}

#[test]
fn errors_accumulate_in_order() {
    let scanner = scan("#\n$ ?");
    assert_eq!(
        scanner.errors,
        vec![
            (1, "Unexpected character: #".to_string()),
            (2, "Unexpected character: $".to_string()),
            (2, "Unexpected character: ?".to_string()),
        ]
    );
    assert_eq!(types(&scanner.tokens), vec![TokenType::Eof]);
}

#[test]
fn comment_at_end_and_slash_alone() {
    let scanner = scan("a / b // c / d");
    assert_eq!(
        types(&scanner.tokens),
        vec![TokenType::Identifier, TokenType::Slash, TokenType::Identifier, TokenType::Eof]
    );
    let scanner = scan("//only\n/");
    assert_token(&scanner.tokens[0], TokenType::Slash, "/", None, 2);
}

#[test]
fn whitespace_produces_no_tokens() {
    let scanner = scan(" \t\r\n \n");
    assert_token(&scanner.tokens[0], TokenType::Eof, "", None, 3);
    assert_eq!(scanner.tokens.len(), 1);
}
