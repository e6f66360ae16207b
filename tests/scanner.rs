use lox::error::{LexErrorKind, LoxResult};
use lox::number::Number;
use lox::scanner::{scan, Scanner};
use lox::token::{Object, Token, TokenType};

fn num(x: f64) -> Object {
    Object::Num(Number::from_units((x * 1_000_000.0).round() as i64))
}

#[test]
fn test_scan_tokens_single_token() {
    let mut scanner = Scanner::new("(");
    let scanned_tokens = scanner.scan_tokens().unwrap();
    assert_eq!(scanned_tokens[0].lexeme, "(");
}

#[test]
fn test_scan_tokens_multiple_tokens() {
    let mut scanner = Scanner::new("(2.2)");
    let scanned_tokens = scanner.scan_tokens().unwrap();
    let vec_tokens = vec![
        Token::new(TokenType::LeftParen, "(".to_string(), None, 2),
        Token::new(TokenType::Number, "2.2".to_string(), Some(num(2.2)), 2),
        Token::new(TokenType::RightParen, ")".to_string(), None, 2),
    ];
    assert_eq!(scanned_tokens[0].lexeme, vec_tokens[0].lexeme);
    assert_eq!(scanned_tokens[1].lexeme, vec_tokens[1].lexeme);
    assert_eq!(scanned_tokens[2].lexeme, vec_tokens[2].lexeme);
}

#[test]
fn test_scan_tokens_multiple_tokens_with_reserved_words() {
    let mut scanner = Scanner::new("if (2.2) \n { while true \n { } }");
    let scanned_tokens = scanner.scan_tokens().unwrap();
    let vec_tokens = vec![
        Token::new(TokenType::If, "if".to_string(), None, 2),
        Token::new(TokenType::LeftParen, "(".to_string(), None, 2),
        Token::new(TokenType::Number, "2.2".to_string(), Some(num(2.2)), 2),
        Token::new(TokenType::RightParen, ")".to_string(), None, 2),
        Token::new(TokenType::LeftBrace, "{".to_string(), None, 2),
        Token::new(TokenType::While, "while".to_string(), None, 2),
        Token::new(TokenType::True, "true".to_string(), None, 2),
        Token::new(TokenType::LeftBrace, "{".to_string(), None, 2),
        Token::new(TokenType::RightBrace, "}".to_string(), None, 2),
        Token::new(TokenType::RightBrace, "}".to_string(), None, 2),
        Token::new(TokenType::Eof, "".to_string(), None, 2),
    ];
    assert_eq!(scanned_tokens.len(), vec_tokens.len());
    for (index, token) in scanned_tokens.iter().enumerate() {
        assert_eq!(token.lexeme, vec_tokens[index].lexeme);
        assert_eq!(token.ttype, vec_tokens[index].ttype);
    }
}

#[test]
fn scans_parenthesised_number() {
    let tokens = scan("(2.2)").unwrap();
    let kinds: Vec<TokenType> = tokens.iter().map(|t| t.ttype).collect();
    assert_eq!(kinds, vec![TokenType::LeftParen, TokenType::Number, TokenType::RightParen, TokenType::Eof]);
    assert_eq!(tokens[1].literal, Some(num(2.2)));
    assert_eq!(tokens[3].lexeme, "");
}

#[test]
fn string_spanning_newline_moves_line() {
    let tokens = scan("\"a\nb\" x\ny").unwrap();
    assert_eq!(tokens[0].ttype, TokenType::String);
    assert_eq!(tokens[0].literal, Some(Object::Str("a\nb".to_string())));
    assert_eq!(tokens[1].lexeme, "x");
    assert_eq!(tokens[1].line, 2);
    assert_eq!(tokens[2].line, 3);
    assert_eq!(tokens[3].ttype, TokenType::Eof);
    assert_eq!(tokens[3].line, 3);
}

#[test]
fn two_character_operators_and_comments() {
    let tokens = scan("a != b == c <= d >= e // note\n! = < >").unwrap();
    let kinds: Vec<TokenType> = tokens.iter().map(|t| t.ttype).collect();
    assert_eq!(
        kinds,
        vec![
            TokenType::Identifier,
            TokenType::BangEqual,
            TokenType::Identifier,
            TokenType::Equals,
            TokenType::Identifier,
            TokenType::LessEqual,
            TokenType::Identifier,
            TokenType::GreaterEqual,
            TokenType::Identifier,
            TokenType::Bang,
            TokenType::Assign,
            TokenType::Less,
            TokenType::Greater,
            TokenType::Eof,
        ]
    );
    assert_eq!(tokens[9].line, 2);
}

#[test]
fn keywords_and_identifiers() {
    let tokens = scan("and class else false for fun if nil or print return super this true var while _x1 classy").unwrap();
    let kinds: Vec<TokenType> = tokens.iter().map(|t| t.ttype).collect();
    assert_eq!(
        kinds,
        vec![
            TokenType::And,
            TokenType::Class,
            TokenType::Else,
            TokenType::False,
            TokenType::For,
            TokenType::Fun,
            TokenType::If,
            TokenType::Nil,
            TokenType::Or,
            TokenType::Print,
            TokenType::Return,
            TokenType::Super,
            TokenType::This,
            TokenType::True,
            TokenType::Var,
            TokenType::While,
            TokenType::Identifier,
            TokenType::Identifier,
            TokenType::Eof,
        ]
    );
}

#[test]
fn number_literal_values() {
    let tokens = scan("45.67 7 0.000001 12.").unwrap();
    assert_eq!(tokens[0].literal, Some(Object::Num(Number::from_units(45_670_000))));
    assert_eq!(tokens[1].literal, Some(Object::Num(Number::from_units(7_000_000))));
    assert_eq!(tokens[2].literal, Some(Object::Num(Number::from_units(1))));
    assert_eq!(tokens[3].lexeme, "12");
    assert_eq!(tokens[4].ttype, TokenType::Dot);
}

#[test]
fn unexpected_character_is_first_error() {
    let err = scan("1 +\n @ #").unwrap_err();
    assert_eq!(err, LoxResult::Error { line: 2, kind: LexErrorKind::UnexpectedCharacter });
}

#[test]
fn unterminated_string_error() {
    let err = scan("\"abc\n").unwrap_err();
    assert_eq!(err, LoxResult::Error { line: 2, kind: LexErrorKind::UnterminatedString });
}

#[test]
fn malformed_number_error() {
    let err = scan("1.2.3").unwrap_err();
    assert_eq!(err, LoxResult::Error { line: 1, kind: LexErrorKind::MalformedNumber });
}

#[test]
fn number_out_of_range_error() {
    let err = scan("1.1234567").unwrap_err();
    assert_eq!(err, LoxResult::Error { line: 1, kind: LexErrorKind::NumberOutOfRange });
    let err = scan("99999999999999999999").unwrap_err();
    assert_eq!(err, LoxResult::Error { line: 1, kind: LexErrorKind::NumberOutOfRange });
}
