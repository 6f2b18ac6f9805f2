use lox_scanner::error::{Error, Errors};
use lox_scanner::interpreter::grammar::Class;
use lox_scanner::interpreter::run;
use lox_scanner::interpreter::scanner::{scan, Scanner};
use lox_scanner::interpreter::text::{chars_of, text_of};
use lox_scanner::interpreter::token::Token;
use lox_scanner::interpreter::token_type::TokenType;

fn kinds(tokens: &[Token]) -> Vec<&TokenType> {
    tokens.iter().map(|t| t.token_type()).collect()
}

fn lines(tokens: &[Token]) -> Vec<usize> {
    tokens.iter().map(|t| t.line()).collect()
}

fn code_error(error: &Error) -> (usize, Option<String>, String) {
    match error {
        Error::CodeError { line, location, message } => (*line, location.clone(), message.clone()),
        Error::CompilerError(text) => panic!("not a diagnostic: {}", text),
    }
}

fn ident(name: &str) -> TokenType {
    TokenType::Identifier(name.to_owned())
}

#[test]
fn empty_text_is_one_eof_on_line_one() {
    let mut errors: Errors = Vec::new();
    let tokens = scan("", &mut errors);
    assert_eq!(kinds(&tokens), vec![&TokenType::Eof]);
    assert_eq!(lines(&tokens), vec![1]);
    assert!(errors.is_empty());
}

#[test]
fn every_scan_ends_with_the_only_eof() {
    for text in ["", "+", "\"open", "a b c", "%%%", "// only a comment", "1.2.3\n\n"] {
        let mut errors: Errors = Vec::new();
        let tokens = scan(text, &mut errors);
        assert!(!tokens.is_empty());
        assert_eq!(tokens.last().unwrap().token_type(), &TokenType::Eof);
        let eofs = tokens.iter().filter(|t| t.token_type() == &TokenType::Eof).count();
        assert_eq!(eofs, 1);
    }
}

#[test]
fn punctuation_without_diagnostics() {
    let mut errors: Errors = Vec::new();
    let tokens = scan("{(*.)}", &mut errors);
    assert_eq!(
        kinds(&tokens),
        vec![
            &TokenType::LeftBrace,
            &TokenType::LeftParen,
            &TokenType::Star,
            &TokenType::Dot,
            &TokenType::RightParen,
            &TokenType::RightBrace,
            &TokenType::Eof
        ]
    );
    assert_eq!(errors.len(), 0);
}

#[test]
fn every_single_character_token() {
    let mut errors: Errors = Vec::new();
    let tokens = scan("(){},.-+;*/", &mut errors);
    assert_eq!(
        kinds(&tokens),
        vec![
            &TokenType::LeftParen,
            &TokenType::RightParen,
            &TokenType::LeftBrace,
            &TokenType::RightBrace,
            &TokenType::Comma,
            &TokenType::Dot,
            &TokenType::Minus,
            &TokenType::Plus,
            &TokenType::Semicolon,
            &TokenType::Star,
            &TokenType::Slash,
            &TokenType::Eof
        ]
    );
    assert!(errors.is_empty());
}

#[test]
fn two_character_operators_are_preferred() {
    let mut errors: Errors = Vec::new();
    let tokens = scan("!=", &mut errors);
    assert_eq!(kinds(&tokens), vec![&TokenType::BangEqual, &TokenType::Eof]);
    let tokens = scan("! = == <= < >= > ===", &mut errors);
    assert_eq!(
        kinds(&tokens),
        vec![
            &TokenType::Bang,
            &TokenType::Equal,
            &TokenType::EqualEqual,
            &TokenType::LessEqual,
            &TokenType::Less,
            &TokenType::GreaterEqual,
            &TokenType::Greater,
            &TokenType::EqualEqual,
            &TokenType::Equal,
            &TokenType::Eof
        ]
    );
    assert!(errors.is_empty());
}

#[test]
fn comment_yields_nothing_and_its_newline_counts() {
    let mut errors: Errors = Vec::new();
    let tokens = scan("// comment\n+", &mut errors);
    assert_eq!(kinds(&tokens), vec![&TokenType::Plus, &TokenType::Eof]);
    assert_eq!(lines(&tokens), vec![2, 2]);
    assert!(errors.is_empty());
}

#[test]
fn comment_at_the_end_of_the_text() {
    let mut errors: Errors = Vec::new();
    let tokens = scan("/ // % \" never read", &mut errors);
    assert_eq!(kinds(&tokens), vec![&TokenType::Slash, &TokenType::Eof]);
    assert_eq!(lines(&tokens), vec![1, 1]);
    assert!(errors.is_empty());
}

#[test]
fn string_literal_without_its_quotes() {
    let mut errors: Errors = Vec::new();
    let tokens = scan("\"hello world\"", &mut errors);
    assert_eq!(
        kinds(&tokens),
        vec![&TokenType::String("hello world".to_owned()), &TokenType::Eof]
    );
    assert!(errors.is_empty());
    let tokens = scan("\"\"", &mut errors);
    assert_eq!(kinds(&tokens), vec![&TokenType::String(String::new()), &TokenType::Eof]);
}

#[test]
fn unterminated_string_is_one_diagnostic_and_no_token() {
    let mut errors: Errors = Vec::new();
    let tokens = scan("\"abc", &mut errors);
    assert_eq!(kinds(&tokens), vec![&TokenType::Eof]);
    assert_eq!(errors.len(), 1);
    assert_eq!(code_error(&errors[0]), (1, None, "string not terminated".to_owned()));
}

#[test]
fn unterminated_string_is_reported_on_the_last_line() {
    let mut errors: Errors = Vec::new();
    let tokens = scan("+\n\"abc\n\ndef", &mut errors);
    assert_eq!(kinds(&tokens), vec![&TokenType::Plus, &TokenType::Eof]);
    assert_eq!(lines(&tokens), vec![1, 4]);
    assert_eq!(code_error(&errors[0]), (4, None, "string not terminated".to_owned()));
}

#[test]
fn string_over_several_lines_is_recorded_where_it_starts() {
    let mut errors: Errors = Vec::new();
    let tokens = scan("\"a\nb\nc\" +", &mut errors);
    assert_eq!(
        kinds(&tokens),
        vec![&TokenType::String("a\nb\nc".to_owned()), &TokenType::Plus, &TokenType::Eof]
    );
    assert_eq!(lines(&tokens), vec![1, 3, 3]);
    assert!(errors.is_empty());
}

#[test]
fn string_of_one_newline_is_on_the_line_of_its_opening_quote() {
    let mut errors: Errors = Vec::new();
    let tokens = scan("\n\"\n\"", &mut errors);
    assert_eq!(kinds(&tokens), vec![&TokenType::String("\n".to_owned()), &TokenType::Eof]);
    assert_eq!(lines(&tokens), vec![2, 3]);
    assert!(errors.is_empty());
}

#[test]
fn one_step_reads_a_string_over_two_lines() {
    let mut errors: Errors = Vec::new();
    let mut scanner = Scanner::new("\"a\nb\"");
    scanner.scan_token(&mut errors);
    assert_eq!(scanner.tokens().len(), 1);
    assert_eq!(scanner.tokens()[0].token_type(), &TokenType::String("a\nb".to_owned()));
    assert_eq!(scanner.tokens()[0].line(), 1);
    assert!(errors.is_empty());
    scanner.scan_tokens(&mut errors);
    assert_eq!(lines(scanner.tokens()), vec![1, 2]);
}

#[test]
fn one_step_at_an_unrecognized_character() {
    let mut errors: Errors = Vec::new();
    let mut scanner = Scanner::new("\n@+");
    scanner.scan_token(&mut errors);
    assert!(errors.is_empty());
    scanner.scan_token(&mut errors);
    assert!(scanner.tokens().is_empty());
    assert_eq!(errors.len(), 1);
    assert_eq!(code_error(&errors[0]), (2, None, "invalid character: '@'".to_owned()));
    scanner.scan_token(&mut errors);
    assert_eq!(kinds(scanner.tokens()), vec![&TokenType::Plus]);
    assert_eq!(lines(scanner.tokens()), vec![2]);
    assert_eq!(errors.len(), 1);
}

#[test]
fn one_step_at_an_unclosed_string() {
    let mut errors: Errors = Vec::new();
    let mut scanner = Scanner::new("\"abc\n");
    scanner.scan_token(&mut errors);
    assert!(scanner.tokens().is_empty());
    assert_eq!(errors.len(), 1);
    assert_eq!(code_error(&errors[0]), (2, None, "string not terminated".to_owned()));
    scanner.scan_tokens(&mut errors);
    assert_eq!(kinds(scanner.tokens()), vec![&TokenType::Eof]);
    assert_eq!(lines(scanner.tokens()), vec![2]);
    assert_eq!(errors.len(), 1);
}

#[test]
fn one_step_at_the_end_of_the_text_does_nothing() {
    let mut errors: Errors = Vec::new();
    let mut scanner = Scanner::new("");
    scanner.scan_token(&mut errors);
    assert!(scanner.tokens().is_empty());
    assert!(errors.is_empty());
}

#[test]
fn point_belongs_to_a_number_only_before_a_digit() {
    let mut errors: Errors = Vec::new();
    let tokens = scan("3.1.4..5", &mut errors);
    assert_eq!(
        kinds(&tokens),
        vec![
            &TokenType::Number("3.1".to_owned()),
            &TokenType::Dot,
            &TokenType::Number("4".to_owned()),
            &TokenType::Dot,
            &TokenType::Dot,
            &TokenType::Number("5".to_owned()),
            &TokenType::Eof
        ]
    );
    let values: Vec<f64> = tokens
        .iter()
        .filter_map(|t| match t.token_type() {
            TokenType::Number(text) => Some(text.parse::<f64>().unwrap()),
            _ => None,
        })
        .collect();
    assert_eq!(values, vec![3.1, 4.0, 5.0]);
    assert!(errors.is_empty());
}

#[test]
fn number_at_the_end_of_the_text() {
    let mut errors: Errors = Vec::new();
    let tokens = scan("12.", &mut errors);
    assert_eq!(
        kinds(&tokens),
        vec![&TokenType::Number("12".to_owned()), &TokenType::Dot, &TokenType::Eof]
    );
    let tokens = scan("007.250", &mut errors);
    assert_eq!(kinds(&tokens), vec![&TokenType::Number("007.250".to_owned()), &TokenType::Eof]);
}

#[test]
fn unrecognized_characters_are_reported_one_by_one() {
    let mut errors: Errors = Vec::new();
    let tokens = scan("{(*.%)&}", &mut errors);
    assert_eq!(errors.len(), 2);
    assert_eq!(code_error(&errors[0]), (1, None, "invalid character: '%'".to_owned()));
    assert_eq!(code_error(&errors[1]), (1, None, "invalid character: '&'".to_owned()));
    assert_eq!(
        kinds(&tokens),
        vec![
            &TokenType::LeftBrace,
            &TokenType::LeftParen,
            &TokenType::Star,
            &TokenType::Dot,
            &TokenType::RightParen,
            &TokenType::RightBrace,
            &TokenType::Eof
        ]
    );
}

#[test]
fn unrecognized_character_outside_ascii() {
    let mut errors: Errors = Vec::new();
    let tokens = scan("\n\u{e9}+", &mut errors);
    assert_eq!(kinds(&tokens), vec![&TokenType::Plus, &TokenType::Eof]);
    assert_eq!(code_error(&errors[0]), (2, None, "invalid character: '\u{e9}'".to_owned()));
}

#[test]
fn scanning_twice_gives_the_same() {
    let text = "var x = \"a\nb\" ; % 1.5 // c\n \"open";
    let mut first_errors: Errors = Vec::new();
    let first = scan(text, &mut first_errors);
    let mut second_errors: Errors = Vec::new();
    let second = scan(text, &mut second_errors);
    assert_eq!(kinds(&first), kinds(&second));
    assert_eq!(lines(&first), lines(&second));
    assert_eq!(first_errors.len(), 2);
    assert_eq!(first_errors.len(), second_errors.len());
    for (a, b) in first_errors.iter().zip(second_errors.iter()) {
        assert_eq!(code_error(a), code_error(b));
    }
}

#[test]
fn each_token_is_on_the_line_of_its_first_character() {
    let text = "a\n\nb c\n// x\n  12 != \"s\"\n";
    let mut errors: Errors = Vec::new();
    let tokens = scan(text, &mut errors);
    assert_eq!(
        kinds(&tokens),
        vec![
            &ident("a"),
            &ident("b"),
            &ident("c"),
            &TokenType::Number("12".to_owned()),
            &TokenType::BangEqual,
            &TokenType::String("s".to_owned()),
            &TokenType::Eof
        ]
    );
    assert_eq!(lines(&tokens), vec![1, 3, 3, 5, 5, 5, 6]);
}

#[test]
fn blanks_yield_nothing() {
    let mut errors: Errors = Vec::new();
    let tokens = scan(" \t\r \r\n\t", &mut errors);
    assert_eq!(kinds(&tokens), vec![&TokenType::Eof]);
    assert_eq!(lines(&tokens), vec![2]);
    assert!(errors.is_empty());
}

#[test]
fn every_keyword() {
    let mut errors: Errors = Vec::new();
    let tokens = scan(
        "and class else false fun for if nil or print return super this true var while",
        &mut errors,
    );
    assert_eq!(
        kinds(&tokens),
        vec![
            &TokenType::And,
            &TokenType::Class,
            &TokenType::Else,
            &TokenType::False,
            &TokenType::Fun,
            &TokenType::For,
            &TokenType::If,
            &TokenType::Nil,
            &TokenType::Or,
            &TokenType::Print,
            &TokenType::Return,
            &TokenType::Super,
            &TokenType::This,
            &TokenType::True,
            &TokenType::Var,
            &TokenType::While,
            &TokenType::Eof
        ]
    );
    assert!(errors.is_empty());
}

#[test]
fn words_are_read_to_their_end() {
    let mut errors: Errors = Vec::new();
    let tokens = scan("orchid _x1 For classy var2 or_ x.y if(", &mut errors);
    assert_eq!(
        kinds(&tokens),
        vec![
            &ident("orchid"),
            &ident("_x1"),
            &ident("For"),
            &ident("classy"),
            &ident("var2"),
            &ident("or_"),
            &ident("x"),
            &TokenType::Dot,
            &ident("y"),
            &TokenType::If,
            &TokenType::LeftParen,
            &TokenType::Eof
        ]
    );
    assert!(errors.is_empty());
}

#[test]
fn number_ends_where_a_word_starts() {
    let mut errors: Errors = Vec::new();
    let tokens = scan("12abc", &mut errors);
    assert_eq!(
        kinds(&tokens),
        vec![&TokenType::Number("12".to_owned()), &ident("abc"), &TokenType::Eof]
    );
}

#[test]
fn keyword_lookup() {
    assert_eq!(TokenType::keyword(&"while".to_owned()), Some(TokenType::While));
    assert_eq!(TokenType::keyword(&"While".to_owned()), None);
    assert_eq!(TokenType::keyword(&"".to_owned()), None);
    assert_eq!(TokenType::of_word("nil".to_owned()), TokenType::Nil);
    assert_eq!(TokenType::of_word("nile".to_owned()), ident("nile"));
}

#[test]
fn character_classes() {
    assert!(Class::Digit.contains('0') && Class::Digit.contains('9'));
    assert!(!Class::Digit.contains('a') && !Class::Digit.contains('/') && !Class::Digit.contains(':'));
    assert!(Class::Word.contains('_') && Class::Word.contains('z') && Class::Word.contains('A'));
    assert!(Class::Word.contains('5') && !Class::Word.contains('-') && !Class::Word.contains('['));
    assert!(Class::Comment.contains('"') && !Class::Comment.contains('\n'));
    assert!(Class::Quoted.contains('\n') && !Class::Quoted.contains('"'));
}

#[test]
fn texts_to_characters_and_back() {
    let chars = chars_of("h\u{e9}llo");
    assert_eq!(chars, vec!['h', '\u{e9}', 'l', 'l', 'o']);
    assert_eq!(text_of(&chars, 1, 4), "\u{e9}ll".to_owned());
    assert_eq!(text_of(&chars, 2, 2), String::new());
    assert_eq!(text_of(&chars, 0, 5), "h\u{e9}llo".to_owned());
}

#[test]
fn token_keeps_what_it_was_made_of() {
    let token = Token::new(TokenType::String("s".to_owned()), 7);
    assert_eq!(token.token_type(), &TokenType::String("s".to_owned()));
    assert_eq!(token.line(), 7);
}

#[test]
fn scanner_goes_on_from_where_it_stands() {
    let mut errors: Errors = Vec::new();
    let mut scanner = Scanner::new("a\n");
    assert!(scanner.tokens().is_empty());
    scanner.scan_tokens(&mut errors);
    scanner.scan_tokens(&mut errors);
    assert_eq!(kinds(scanner.tokens()), vec![&ident("a"), &TokenType::Eof, &TokenType::Eof]);
    assert_eq!(lines(scanner.tokens()), vec![1, 2, 2]);
}

#[test]
fn run_collects_diagnostics_over_several_texts() {
    let mut errors: Errors = Vec::new();
    assert!(run("print 1 + 2;", &mut errors).is_ok());
    assert!(errors.is_empty());
    assert!(run("a # b", &mut errors).is_ok());
    assert!(run("\n\"open", &mut errors).is_ok());
    assert_eq!(errors.len(), 2);
    assert_eq!(code_error(&errors[0]), (1, None, "invalid character: '#'".to_owned()));
    assert_eq!(code_error(&errors[1]), (2, None, "string not terminated".to_owned()));
}

#[test]
fn io_failure_becomes_a_tooling_error() {
    let failure = std::io::Error::new(std::io::ErrorKind::NotFound, "no such script");
    match Error::from(failure) {
        Error::CompilerError(message) => assert_eq!(message, "no such script".to_owned()),
        Error::CodeError { .. } => panic!("an I/O failure is no diagnostic"),
    }
}
