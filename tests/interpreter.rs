use lox::ast::Expr;
use lox::error::{LoxResult, RuntimeErrorKind};
use lox::interpreter::Interpreter;
use lox::number::Number;
use lox::token::Object;
use lox::{run, run_with};

fn output_of(source: &str) -> Vec<String> {
    let (out, result) = run(source);
    assert_eq!(result, Ok(()), "run failed for {source:?}");
    out
}

fn runtime_error(source: &str) -> (usize, RuntimeErrorKind) {
    match run(source).1 {
        Err(LoxResult::RunTimeError { line, kind }) => (line, kind),
        other => panic!("expected a runtime error for {source:?}, got {other:?}"),
    }
}

#[test]
fn prints_sum() {
    assert_eq!(output_of("print 1 + 2;"), vec!["3"]);
}

#[test]
fn prints_concatenation() {
    assert_eq!(output_of("print \"a\" + \"b\";"), vec!["ab"]);
}

#[test]
fn division_by_zero_reports_line() {
    assert_eq!(runtime_error("print 1 / 0;"), (1, RuntimeErrorKind::DivisionByZero));
    assert_eq!(runtime_error("var a = 1;\n\nprint a /\n 0;"), (3, RuntimeErrorKind::DivisionByZero));
}

#[test]
fn undefined_variable_fails() {
    assert_eq!(runtime_error("print undefinedName;"), (1, RuntimeErrorKind::UndefinedVariable));
    assert_eq!(runtime_error("missing = 1;").1, RuntimeErrorKind::UndefinedVariable);
}

#[test]
fn block_shadowing_does_not_leak() {
    assert_eq!(output_of("{ var x = 1; { var x = 2; print x; } print x; }"), vec!["2", "1"]);
}

#[test]
fn closure_keeps_shared_state() {
    let source = "fun make(){ var x = 0; fun inc(){ x = x + 1; return x; } return inc; } var f = make(); print f(); print f();";
    assert_eq!(output_of(source), vec!["1", "2"]);
}

#[test]
fn super_call_uses_lexical_superclass() {
    let source = "class A { method() { return \"A\"; } }
class B < A { method() { return \"B\"; } test() { return super.method(); } }
class C < B { method() { return \"C\"; } }
print C().test();
print C().method();";
    assert_eq!(output_of(source), vec!["A", "C"]);
}

#[test]
fn literal_round_trips_through_display() {
    let mut interpreter = Interpreter::new();
    let literal = Object::Num(Number::from_units(45_670_000));
    let value = interpreter.evaluate(&Expr::Literal(literal.clone())).unwrap();
    assert_eq!(value.stringify(), "45.67");
    let grouped = Expr::Grouping(Box::new(Expr::Literal(Object::Str("hi".to_string()))));
    assert_eq!(interpreter.evaluate(&grouped).unwrap().stringify(), "hi");
    assert_eq!(interpreter.evaluate(&Expr::Literal(Object::Nil)).unwrap().stringify(), "nil");
    assert_eq!(interpreter.evaluate(&Expr::Literal(Object::False)).unwrap().stringify(), "false");
    assert_eq!(output_of("print 45.67; print 2.50; print 100;"), vec!["45.67", "2.5", "100"]);
}

#[test]
fn reassigning_same_value_changes_nothing() {
    let mut interpreter = Interpreter::new();
    assert_eq!(run_with(&mut interpreter, "var a = 1; var b = 2; { var c = 3; }"), Ok(()));
    let frames_before = interpreter.environment.frames.len();
    assert_eq!(run_with(&mut interpreter, "a = 1;"), Ok(()));
    assert_eq!(interpreter.environment.frames.len(), frames_before);
    assert_eq!(run_with(&mut interpreter, "print a; print b;"), Ok(()));
    assert_eq!(interpreter.output, vec!["1", "2"]);
}

#[test]
fn number_arithmetic_results() {
    assert_eq!(
        output_of("print 1 / 3; print 2.5 * 2; print 0 - 0.5; print 10 - 2.25; print -3 * -1.5;"),
        vec!["0.333333", "5", "-0.5", "7.75", "4.5"]
    );
}

#[test]
fn comparisons_equality_and_truthiness() {
    assert_eq!(
        output_of("print 1 < 2; print 2 <= 2; print 3 > 4; print 3 >= 4; print 1 == 1; print \"a\" != \"a\"; print 1 == \"1\"; print nil == nil; print !0; print !nil; print !\"\";"),
        vec!["true", "true", "false", "false", "true", "false", "false", "true", "false", "true", "false"]
    );
}

#[test]
fn logical_operators_short_circuit() {
    assert_eq!(
        output_of("print nil or \"yes\"; print false and undefinedName; print 1 and 2; print 0 or 3;"),
        vec!["yes", "false", "2", "0"]
    );
}

#[test]
fn control_flow_statements() {
    assert_eq!(
        output_of("var s = 0; for (var i = 0; i < 4; i = i + 1) { s = s + i; } print s; var n = 3; while (n > 0) { n = n - 1; } print n; if (s > 5) print \"big\"; else print \"small\";"),
        vec!["6", "0", "big"]
    );
}

#[test]
fn classes_fields_and_initializers() {
    let source = "class Point { init(x, y) { this.x = x; this.y = y; } sum() { return this.x + this.y; } }
var p = Point(2, 3);
print p.sum();
p.x = 10;
print p.sum();
print p;
print Point;
fun f() {}
print f;";
    assert_eq!(output_of(source), vec!["5", "13", "Point instance", "Point", "<fn f>"]);
}

#[test]
fn type_mismatch_errors() {
    assert_eq!(runtime_error("print 1 + true;"), (1, RuntimeErrorKind::TypeMismatch));
    assert_eq!(runtime_error("print -\"a\";"), (1, RuntimeErrorKind::TypeMismatch));
    assert_eq!(runtime_error("print \"a\" < \"b\";"), (1, RuntimeErrorKind::TypeMismatch));
}

#[test]
fn call_errors() {
    assert_eq!(runtime_error("fun f(a) {} f(1, 2);"), (1, RuntimeErrorKind::ArityMismatch));
    assert_eq!(runtime_error("1();"), (1, RuntimeErrorKind::NotCallable));
    assert_eq!(runtime_error("fun f() { return f(); } f();").1, RuntimeErrorKind::StackOverflow);
}

#[test]
fn object_errors() {
    assert_eq!(runtime_error("var a = 1; print a.x;"), (1, RuntimeErrorKind::NotAnInstance));
    assert_eq!(runtime_error("class A {} print A().missing;"), (1, RuntimeErrorKind::UndefinedProperty));
    assert_eq!(runtime_error("var A = 1; class B < A {}"), (1, RuntimeErrorKind::InvalidSuperclass));
}

#[test]
fn number_out_of_range_at_runtime() {
    assert_eq!(
        runtime_error("print 9000000000000 * 9000000000000;"),
        (1, RuntimeErrorKind::NumberOutOfRange)
    );
}

#[test]
fn step_limit_stops_endless_loop() {
    let mut interpreter = Interpreter::new();
    interpreter.step_limit = 1000;
    match run_with(&mut interpreter, "while (true) {}") {
        Err(LoxResult::RunTimeError { kind, .. }) => assert_eq!(kind, RuntimeErrorKind::StepLimitExceeded),
        other => panic!("unexpected {other:?}"),
    }
}

#[test]
fn runtime_error_keeps_earlier_output() {
    let (out, result) = run("print 1; print nope; print 2;");
    assert_eq!(out, vec!["1"]);
    assert!(matches!(result, Err(LoxResult::RunTimeError { kind: RuntimeErrorKind::UndefinedVariable, .. })));
}

#[test]
fn step_budget_resets_for_each_run() {
    let mut interpreter = Interpreter::new();
    interpreter.step_limit = 50;
    let source = "var i = 0; while (i < 40) { i = i + 1; }";
    assert_eq!(run_with(&mut interpreter, source), Ok(()));
    assert_eq!(run_with(&mut interpreter, source), Ok(()));
}

#[test]
fn recursion_deeper_than_a_hundred_calls() {
    assert_eq!(
        output_of("fun count(n) { if (n == 0) return 0; return 1 + count(n - 1); } print count(200);"),
        vec!["200"]
    );
}

#[test]
fn error_inside_block_keeps_globals() {
    let mut interpreter = Interpreter::new();
    assert!(run_with(&mut interpreter, "var y = 0; { var y = 1; print 1 / 0; }").is_err());
    interpreter.output.clear();
    assert_eq!(run_with(&mut interpreter, "print y;"), Ok(()));
    assert_eq!(interpreter.output, vec!["0"]);
}

#[test]
fn return_unwinds_block_and_loop() {
    assert_eq!(
        output_of("fun f(){ var i = 0; while (true) { { return i; } } } print f(); print 3;"),
        vec!["0", "3"]
    );
}

#[test]
fn partial_output_before_error() {
    let (out, result) = run("print 1; print 1 / 0; print 2;");
    assert_eq!(out, vec!["1"]);
    assert_eq!(result, Err(LoxResult::RunTimeError { line: 1, kind: RuntimeErrorKind::DivisionByZero }));
}

#[test]
fn super_method_prints_from_superclass() {
    let source = "class A { method() { print \"A method\"; } } class B < A { method() { print \"B method\"; } test() { super.method(); } } class C < B {} C().test();";
    assert_eq!(output_of(source), vec!["A method"]);
}

#[test]
fn init_binds_this() {
    assert_eq!(output_of("class P { init(x) { this.x = x; } } var p = P(5); print p.x;"), vec!["5"]);
}

#[test]
fn arity_and_callable_checks_through_evaluate() {
    assert_eq!(runtime_error("fun f(a) {} f(1, 2);").1, RuntimeErrorKind::ArityMismatch);
    assert_eq!(output_of("fun f(a) {} print f(1);"), vec!["nil"]);
    assert_eq!(runtime_error("\"s\"();").1, RuntimeErrorKind::NotCallable);
}

#[test]
fn property_get_and_set_through_evaluate() {
    assert_eq!(output_of("class C {} var o = C(); o.x = 1; print o.x;"), vec!["1"]);
    assert_eq!(runtime_error("class C {} var o = C(); print o.y;").1, RuntimeErrorKind::UndefinedProperty);
    assert_eq!(runtime_error("print 1.5 .x;").1, RuntimeErrorKind::NotAnInstance);
}

#[test]
fn failed_class_declaration_binds_nothing() {
    let mut interpreter = Interpreter::new();
    assert!(run_with(&mut interpreter, "var x = 1; class A < x {}").is_err());
    match run_with(&mut interpreter, "print A;") {
        Err(LoxResult::RunTimeError { kind, .. }) => assert_eq!(kind, RuntimeErrorKind::UndefinedVariable),
        other => panic!("unexpected {other:?}"),
    }
}
