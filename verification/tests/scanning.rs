use tinyc::scanner::Scanner;
use tinyc::token::TokenType;

fn kinds_of(source: &[u8]) -> Vec<TokenType> {
    let mut scanner = Scanner::new(source.to_vec());
    let mut kinds = Vec::new();
    while let Some(token) = scanner.scan_token() {
        kinds.push(token.token_type);
    }
    kinds
}

#[test]
fn scans_the_reference_token_sequence() {
    let kinds = kinds_of(b"f -> i32 { return 1 + 2; }");
    assert_eq!(
        kinds,
        vec![
            TokenType::Identifier,
            TokenType::Arrow,
            TokenType::Identifier,
            TokenType::BraceLeft,
            TokenType::Return,
            TokenType::Integer,
            TokenType::Plus,
            TokenType::Integer,
            TokenType::Semicolon,
            TokenType::BraceRight,
        ]
    );
}

#[test]
fn scans_punctuation_and_operators() {
    let kinds = kinds_of(b"( ) + - -> { } ;");
    assert_eq!(
        kinds,
        vec![
            TokenType::ParenLeft,
            TokenType::ParenRight,
            TokenType::Plus,
            TokenType::Minus,
            TokenType::Arrow,
            TokenType::BraceLeft,
            TokenType::BraceRight,
            TokenType::Semicolon,
        ]
    );
}

#[test]
fn unrecognized_bytes_become_error_tokens_not_failures() {
    let kinds = kinds_of(b"@ $ return");
    assert_eq!(kinds, vec![TokenType::Error, TokenType::Error, TokenType::Return]);
}

#[test]
fn keyword_return_is_classified_and_similar_names_are_not() {
    assert_eq!(kinds_of(b"return"), vec![TokenType::Return]);
    assert_eq!(kinds_of(b"returns"), vec![TokenType::Identifier]);
    assert_eq!(kinds_of(b"retur"), vec![TokenType::Identifier]);
}

#[test]
fn end_of_input_returns_nothing_not_an_error() {
    let mut scanner = Scanner::new(b"  \t\r\n ".to_vec());
    assert!(scanner.scan_token().is_none());
    assert!(scanner.scan_token().is_none());
}

#[test]
fn newlines_advance_the_line_counter() {
    let mut scanner = Scanner::new(b"a\nb\n\nc".to_vec());
    assert_eq!(scanner.scan_token().unwrap().line, 0);
    assert_eq!(scanner.scan_token().unwrap().line, 1);
    assert_eq!(scanner.scan_token().unwrap().line, 3);
}

#[test]
fn tokens_reference_spans_of_the_source() {
    let mut scanner = Scanner::new(b"alpha beta".to_vec());
    let first = scanner.scan_token().unwrap();
    let second = scanner.scan_token().unwrap();
    assert_eq!(first.start, 0);
    assert_eq!(first.length, 5);
    assert_eq!(scanner.get_token_text(first), "alpha");
    assert_eq!(second.start, 6);
    assert_eq!(second.length, 4);
    assert_eq!(scanner.get_token_text(second), "beta");
}

#[test]
fn maximal_digit_and_identifier_runs() {
    let mut scanner = Scanner::new(b"abc_123 456".to_vec());
    let ident = scanner.scan_token().unwrap();
    assert_eq!(ident.token_type, TokenType::Identifier);
    assert_eq!(scanner.get_token_text(ident), "abc_123");
    let number = scanner.scan_token().unwrap();
    assert_eq!(number.token_type, TokenType::Integer);
    assert_eq!(scanner.get_token_text(number), "456");
}
