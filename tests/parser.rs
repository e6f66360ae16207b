use lox::ast::{Expr, Stmt};
use lox::error::{LoxResult, ParseErrorKind};
use lox::number::Number;
use lox::parser::{parse, Parser};
use lox::scanner::scan;
use lox::token::{Object, Token, TokenType};

fn num(x: f64) -> Object {
    Object::Num(Number::from_units((x * 1_000_000.0).round() as i64))
}

fn make_token(ttype: TokenType, lexeme: &str, literal: Object) -> Token {
    Token { ttype, lexeme: lexeme.to_string(), literal: Some(literal), line: 1 }
}

#[test]
fn test_parse_literal() {
    let tokens = vec![make_token(TokenType::Number, "123", num(123.0))];
    let mut parser = Parser::new(tokens);
    let result = parser.parse();
    // An expression statement needs its `;`: the end of input is unexpected.
    match result {
        Err(LoxResult::ParseError { line, lexeme, kind, .. }) => {
            assert_eq!(line, 1);
            assert_eq!(lexeme, "end");
            assert_eq!(kind, ParseErrorKind::UnexpectedToken);
        }
        other => panic!("expected a parse error, got {:?}", other),
    }
}

#[test]
fn test_parse_binary_expression() {
    let tokens = vec![
        make_token(TokenType::Number, "5", num(5.0)),
        make_token(TokenType::Plus, "+", Object::Nil),
        make_token(TokenType::Number, "7", num(7.0)),
    ];
    let mut parser = Parser::new(tokens);
    let result = parser.parse();
    assert!(matches!(
        result,
        Err(LoxResult::ParseError { line: 1, kind: ParseErrorKind::UnexpectedToken, .. })
    ));
}

fn parse_source(source: &str) -> Result<Vec<Stmt>, LoxResult> {
    parse(scan(source).unwrap())
}

#[test]
fn parses_sum_statement() {
    let stmts = parse_source("5 + 7;").unwrap();
    assert_eq!(stmts.len(), 1);
    match &stmts[0] {
        Stmt::Expression(e) => match &**e {
            Expr::Binary(l, op, r) => {
                assert_eq!(**l, Expr::Literal(num(5.0)));
                assert_eq!(op.ttype, TokenType::Plus);
                assert_eq!(**r, Expr::Literal(num(7.0)));
            }
            other => panic!("not a binary expression: {:?}", other),
        },
        other => panic!("not an expression statement: {:?}", other),
    }
}

#[test]
fn precedence_binds_product_tighter() {
    let stmts = parse_source("1 + 2 * 3;").unwrap();
    match &stmts[0] {
        Stmt::Expression(e) => match &**e {
            Expr::Binary(_, op, r) => {
                assert_eq!(op.ttype, TokenType::Plus);
                assert!(matches!(&**r, Expr::Binary(_, inner, _) if inner.ttype == TokenType::Star));
            }
            other => panic!("unexpected {:?}", other),
        },
        other => panic!("unexpected {:?}", other),
    }
}

#[test]
fn for_loop_becomes_block_with_while() {
    let stmts = parse_source("for (var i = 0; i < 3; i = i + 1) print i;").unwrap();
    assert_eq!(stmts.len(), 1);
    match &stmts[0] {
        Stmt::Block(inner) => {
            assert_eq!(inner.len(), 2);
            assert!(matches!(inner[0], Stmt::Variable(_, Some(_))));
            assert!(matches!(inner[1], Stmt::While(_, _)));
        }
        other => panic!("unexpected {:?}", other),
    }
}

#[test]
fn invalid_assignment_target_is_reported() {
    let err = parse_source("1 = 2;").unwrap_err();
    assert!(matches!(
        err,
        LoxResult::ParseError { line: 1, kind: ParseErrorKind::InvalidAssignmentTarget, .. }
    ));
}

#[test]
fn missing_semicolon_after_print_is_unexpected_token() {
    let err = parse_source("print 1\nprint 2;").unwrap_err();
    match err {
        LoxResult::ParseError { line, lexeme, kind, .. } => {
            assert_eq!(line, 2);
            assert_eq!(lexeme, "print");
            assert_eq!(kind, ParseErrorKind::UnexpectedToken);
        }
        other => panic!("unexpected {:?}", other),
    }
}

#[test]
fn error_at_end_names_end() {
    let err = parse_source("print (1;").unwrap_err();
    assert!(matches!(err, LoxResult::ParseError { kind: ParseErrorKind::UnexpectedToken, .. }));
    let err = parse_source("var x = ").unwrap_err();
    match err {
        LoxResult::ParseError { lexeme, .. } => assert_eq!(lexeme, "end"),
        other => panic!("unexpected {:?}", other),
    }
}

#[test]
fn class_with_superclass_parses() {
    let stmts = parse_source("class B < A { m() { return 1; } }").unwrap();
    match &stmts[0] {
        Stmt::Class(name, Some(sup), methods) => {
            assert_eq!(name.lexeme, "B");
            assert_eq!(sup.lexeme, "A");
            assert_eq!(methods.len(), 1);
            assert_eq!(methods[0].name.lexeme, "m");
        }
        other => panic!("unexpected {:?}", other),
    }
}

#[test]
fn block_program_parses_in_order() {
    let stmts = parse_source("{ var x = 1; print x; } print 2;").unwrap();
    assert_eq!(stmts.len(), 2);
    match &stmts[0] {
        Stmt::Block(inner) => {
            assert_eq!(inner.len(), 2);
            assert!(matches!(inner[0], Stmt::Variable(_, Some(_))));
            assert!(matches!(inner[1], Stmt::Print(_)));
        }
        other => panic!("unexpected {:?}", other),
    }
    assert!(matches!(stmts[1], Stmt::Print(_)));
}

#[test]
fn primary_error_names_line_and_lexeme() {
    let err = parse_source("\n\n);").unwrap_err();
    match err {
        LoxResult::ParseError { line, lexeme, kind, .. } => {
            assert_eq!(line, 3);
            assert_eq!(lexeme, ")");
            assert_eq!(kind, ParseErrorKind::UnexpectedToken);
        }
        other => panic!("unexpected {:?}", other),
    }
}

#[test]
fn property_target_becomes_set_property() {
    let stmts = parse_source("a.b = 1;").unwrap();
    match &stmts[0] {
        Stmt::Expression(e) => match &**e {
            Expr::SetProperty(obj, name, _) => {
                assert!(matches!(&**obj, Expr::Variable(t) if t.lexeme == "a"));
                assert_eq!(name.lexeme, "b");
            }
            other => panic!("unexpected {:?}", other),
        },
        other => panic!("unexpected {:?}", other),
    }
}

#[test]
fn call_target_is_invalid() {
    let err = parse_source("f() = 1;").unwrap_err();
    match err {
        LoxResult::ParseError { line, lexeme, kind, .. } => {
            assert_eq!(line, 1);
            assert_eq!(lexeme, "=");
            assert_eq!(kind, ParseErrorKind::InvalidAssignmentTarget);
        }
        other => panic!("unexpected {:?}", other),
    }
}

#[test]
fn missing_semicolon_reported_at_following_token() {
    let err = parse_source("print 1; 2 + 3 print 4;").unwrap_err();
    match err {
        LoxResult::ParseError { line, lexeme, kind, .. } => {
            assert_eq!(line, 1);
            assert_eq!(lexeme, "print");
            assert_eq!(kind, ParseErrorKind::UnexpectedToken);
        }
        other => panic!("unexpected {:?}", other),
    }
}
