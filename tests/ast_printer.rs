use lox::ast::Expr;
use lox::ast_printer::AstPrinter;
use lox::number::Number;
use lox::token::{Object, Token, TokenType};

fn num(x: f64) -> Object {
    Object::Num(Number::from_units((x * 1_000_000.0).round() as i64))
}

#[test]
fn test_ast_printer_should_return_parenthesis() {
    let mut printer = AstPrinter::new();
    let expressions = vec![];
    assert_eq!("()", printer.parenthesize("", &expressions))
}

#[test]
fn test_ast_printer_should_return_parenthesis_and_name() {
    let mut printer: AstPrinter = AstPrinter::new();
    let expressions = vec![];
    assert_eq!("(+)", printer.parenthesize("+", &expressions))
}

#[test]
fn test_ast_printer_should_return_list_of_literals() {
    let mut printer: AstPrinter = AstPrinter::new();
    let expression1 = Expr::Literal(num(2.2));
    let expression2 = Expr::Literal(num(2.3));
    let expression3 = Expr::Literal(num(2.4));
    let expression4 = Expr::Literal(num(2.5));
    let expressions = vec![&expression1, &expression2, &expression3, &expression4];
    assert_eq!("(+ 2.2 2.3 2.4 2.5)", printer.parenthesize("+", &expressions))
}

#[test]
fn test_ast_printer_with_binary_expression() {
    let mut printer: AstPrinter = AstPrinter::new();
    let expression1 = Expr::Binary(
        Box::new(Expr::Unary(
            Token::new(TokenType::Minus, "-".to_string(), None, 1),
            Box::new(Expr::Literal(Object::Nil)),
        )),
        Token::new(TokenType::Star, "*".to_string(), None, 1),
        Box::new(Expr::Grouping(Box::new(Expr::Literal(num(45.67))))),
    );
    assert_eq!("(* (- nil) (group 45.67))", printer.print(expression1))
}

#[test]
fn printer_shows_calls_properties_and_assignments() {
    let mut printer = AstPrinter::new();
    let name = |s: &str| Token::new(TokenType::Identifier, s.to_string(), None, 1);
    let call = Expr::Call(
        Box::new(Expr::Get(Box::new(Expr::Variable(name("obj"))), name("method"))),
        Token::new(TokenType::RightParen, ")".to_string(), None, 1),
        vec![Expr::Literal(num(1.0)), Expr::Literal(Object::Str("s".to_string()))],
    );
    assert_eq!("(call (. obj method) 1 s)", printer.print(call));
    let assign = Expr::Assign(name("x"), Box::new(Expr::Literal(Object::True)));
    assert_eq!("(= x true)", printer.print(assign));
}
