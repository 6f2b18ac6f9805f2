use lox_scanner::error::Errors;
use lox_scanner::interpreter::scanner::Scanner;
use lox_scanner::interpreter::token_type::TokenType;

fn number_values(scanner: &Scanner) -> Vec<f64> {
    let mut values = Vec::new();
    for token in scanner.tokens() {
        if let TokenType::Number(text) = token.token_type() {
            values.push(text.parse::<f64>().unwrap());
        }
    }
    values
}

#[test]
fn test_scan_tokens() {
    let mut errors: Errors = Vec::new();
    let mut scanner = Scanner::new("{(*.)}");
    scanner.scan_tokens(&mut errors);
    println!("Tokens: {:?}", scanner.tokens());
    assert_eq!(errors.len(), 0);
    assert_eq!(scanner.tokens().len(), 7);
    assert_eq!(scanner.tokens().last().unwrap().token_type(), &TokenType::Eof);
    let token_types: Vec<&TokenType> = scanner.tokens().iter().map(|t| t.token_type()).collect();
    assert_eq!(
        token_types,
        vec![
            &TokenType::LeftBrace,
            &TokenType::LeftParen,
            &TokenType::Star,
            &TokenType::Dot,
            &TokenType::RightParen,
            &TokenType::RightBrace,
            &TokenType::Eof
        ]
    );
}

#[test]
fn test_scan_operators() {
    let mut errors: Errors = Vec::new();
    let mut scanner = Scanner::new("{(*.>=)==}!=");
    scanner.scan_tokens(&mut errors);
    println!("Tokens: {:?}", scanner.tokens());
    assert_eq!(errors.len(), 0);
    assert_eq!(scanner.tokens().len(), 10);
    assert_eq!(scanner.tokens().last().unwrap().token_type(), &TokenType::Eof);
    let token_types: Vec<&TokenType> = scanner.tokens().iter().map(|t| t.token_type()).collect();
    assert_eq!(
        token_types,
        vec![
            &TokenType::LeftBrace,
            &TokenType::LeftParen,
            &TokenType::Star,
            &TokenType::Dot,
            &TokenType::GreaterEqual,
            &TokenType::RightParen,
            &TokenType::EqualEqual,
            &TokenType::RightBrace,
            &TokenType::BangEqual,
            &TokenType::Eof
        ]
    );
}

#[test]
fn test_scan_comment() {
    let mut errors: Errors = Vec::new();
    let mut scanner = Scanner::new(
        r#"{
        (*./
        >=&
        // some comment */.!=
        ==}!=
        "#,
    );
    scanner.scan_tokens(&mut errors);
    println!("Tokens: {:?}", scanner.tokens());
    assert_eq!(errors.len(), 1);
    assert_eq!(scanner.tokens().len(), 10);
    assert_eq!(scanner.tokens().last().unwrap().token_type(), &TokenType::Eof);
    let token_types: Vec<&TokenType> = scanner.tokens().iter().map(|t| t.token_type()).collect();
    assert_eq!(
        token_types,
        vec![
            &TokenType::LeftBrace,
            &TokenType::LeftParen,
            &TokenType::Star,
            &TokenType::Dot,
            &TokenType::Slash,
            &TokenType::GreaterEqual,
            &TokenType::EqualEqual,
            &TokenType::RightBrace,
            &TokenType::BangEqual,
            &TokenType::Eof
        ]
    );
    let line_numbers: Vec<usize> = scanner.tokens().iter().map(|t| t.line()).collect();
    assert_eq!(line_numbers, vec![1, 2, 2, 2, 2, 3, 5, 5, 5, 6]);
}

#[test]
fn test_scan_string() {
    let mut errors: Errors = Vec::new();
    let mut scanner = Scanner::new(
        r#"{(
        "Doris"
        *"hello world".)}
        "end of string""#,
    );
    scanner.scan_tokens(&mut errors);
    println!("Tokens: {:?}", scanner.tokens());
    assert_eq!(errors.len(), 0);
    assert_eq!(scanner.tokens().len(), 10);
    assert_eq!(scanner.tokens().last().unwrap().token_type(), &TokenType::Eof);
    let token_types: Vec<&TokenType> = scanner.tokens().iter().map(|t| t.token_type()).collect();
    assert_eq!(
        token_types,
        vec![
            &TokenType::LeftBrace,
            &TokenType::LeftParen,
            &TokenType::String("Doris".to_owned()),
            &TokenType::Star,
            &TokenType::String("hello world".to_owned()),
            &TokenType::Dot,
            &TokenType::RightParen,
            &TokenType::RightBrace,
            &TokenType::String("end of string".to_owned()),
            &TokenType::Eof
        ]
    );
}

#[test]
fn test_scan_numbwe() {
    let mut errors: Errors = Vec::new();
    let mut scanner = Scanner::new(
        r#"{(
        "Doris"
        *218.)}
        4711 + 3.1415 3.1.4..5"#,
    );
    scanner.scan_tokens(&mut errors);
    println!("Tokens: {:?}", scanner.tokens());
    assert_eq!(errors.len(), 0);
    assert_eq!(scanner.tokens().len(), 18);
    assert_eq!(scanner.tokens().last().unwrap().token_type(), &TokenType::Eof);
    let token_types: Vec<&TokenType> = scanner.tokens().iter().map(|t| t.token_type()).collect();
    assert_eq!(
        token_types,
        vec![
            &TokenType::LeftBrace,
            &TokenType::LeftParen,
            &TokenType::String("Doris".to_owned()),
            &TokenType::Star,
            &TokenType::Number("218".to_owned()),
            &TokenType::Dot,
            &TokenType::RightParen,
            &TokenType::RightBrace,
            &TokenType::Number("4711".to_owned()),
            &TokenType::Plus,
            &TokenType::Number("3.1415".to_owned()),
            &TokenType::Number("3.1".to_owned()),
            &TokenType::Dot,
            &TokenType::Number("4".to_owned()),
            &TokenType::Dot,
            &TokenType::Dot,
            &TokenType::Number("5".to_owned()),
            &TokenType::Eof
        ]
    );
    assert_eq!(number_values(&scanner), vec![218., 4711., 3.1415, 3.1, 4., 5.]);
}

#[test]
fn test_scan_tokens_error() {
    let mut errors: Errors = Vec::new();
    let mut scanner = Scanner::new("{(*.%)&}");
    scanner.scan_tokens(&mut errors);
    println!("Errors: {:?}", errors);
    assert_eq!(errors.len(), 2);
}
