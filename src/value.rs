use vstd::prelude::*;
use crate::error::{LoxResult, RuntimeErrorKind};
use crate::number::{
    difference_units, fits, number_text, product_units, quotient_units, sum_units, Number,
};
use crate::text::push_str;
use crate::token::{Object, TokenType};

verus! {

/// What a value of the language is, mathematically: numbers by their count of
/// millionths, strings by their characters, callables and instances by their handle.
pub ghost enum Value {
    Number(int),
    Text(Seq<char>),
    Nil,
    Bool(bool),
    Function(int),
    Class(int),
    Instance(int),
}

impl View for Object {
    type V = Value;

    open spec fn view(&self) -> Value {
        match self {
            Object::Num(n) => Value::Number(n.units as int),
            Object::Str(s) => Value::Text(s@),
            Object::Nil => Value::Nil,
            Object::True => Value::Bool(true),
            Object::False => Value::Bool(false),
            Object::Function(i) => Value::Function(*i as int),
            Object::Class(i) => Value::Class(*i as int),
            Object::Instance(i) => Value::Instance(*i as int),
        }
    }
}

/// Only `nil` and `false` are falsy.
pub open spec fn truthy(v: Value) -> bool {
    !(v is Nil || v == Value::Bool(false))
}

pub open spec fn number_result(u: int) -> Result<Value, RuntimeErrorKind> {
    if fits(u) {
        Ok(Value::Number(u))
    } else {
        Err(RuntimeErrorKind::NumberOutOfRange)
    }
}

pub open spec fn units_of(a: int) -> Number {
    Number { units: a as i64 }
}

/// The result of a binary operator on two values.
pub open spec fn binary_value(op: TokenType, a: Value, b: Value) -> Result<Value, RuntimeErrorKind> {
    match op {
        TokenType::Equals => Ok(Value::Bool(a == b)),
        TokenType::BangEqual => Ok(Value::Bool(a != b)),
        _ => match (a, b) {
            (Value::Number(x), Value::Number(y)) => match op {
                TokenType::Plus => number_result(sum_units(units_of(x), units_of(y))),
                TokenType::Minus => number_result(difference_units(units_of(x), units_of(y))),
                TokenType::Star => number_result(product_units(units_of(x), units_of(y))),
                TokenType::Slash => if y == 0 {
                    Err(RuntimeErrorKind::DivisionByZero)
                } else {
                    number_result(quotient_units(units_of(x), units_of(y)))
                },
                TokenType::Greater => Ok(Value::Bool(x > y)),
                TokenType::GreaterEqual => Ok(Value::Bool(x >= y)),
                TokenType::Less => Ok(Value::Bool(x < y)),
                TokenType::LessEqual => Ok(Value::Bool(x <= y)),
                _ => Err(RuntimeErrorKind::TypeMismatch),
            },
            (Value::Text(x), Value::Text(y)) => match op {
                TokenType::Plus => Ok(Value::Text(x + y)),
                _ => Err(RuntimeErrorKind::TypeMismatch),
            },
            _ => Err(RuntimeErrorKind::TypeMismatch),
        },
    }
}

/// The result of a prefix operator on a value.
pub open spec fn unary_value(op: TokenType, a: Value) -> Result<Value, RuntimeErrorKind> {
    match op {
        TokenType::Bang => Ok(Value::Bool(!truthy(a))),
        TokenType::Minus => match a {
            Value::Number(x) => number_result(-x),
            _ => Err(RuntimeErrorKind::TypeMismatch),
        },
        _ => Err(RuntimeErrorKind::TypeMismatch),
    }
}

/// An executable result agrees with a result of the model, errors reported at `line`.
pub open spec fn agrees(r: Result<Object, LoxResult>, m: Result<Value, RuntimeErrorKind>, line: usize) -> bool {
    match m {
        Ok(v) => r matches Ok(o) && o@ == v,
        Err(k) => r == Err::<Object, LoxResult>(LoxResult::RunTimeError { line, kind: k }),
    }
}

/// The display form of a plain value; callables and instances show their kind only.
pub open spec fn plain_text(v: Value) -> Seq<char> {
    match v {
        Value::Number(u) => number_text(u),
        Value::Text(s) => s,
        Value::Nil => seq!['n', 'i', 'l'],
        Value::Bool(b) => if b {
            seq!['t', 'r', 'u', 'e']
        } else {
            seq!['f', 'a', 'l', 's', 'e']
        },
        Value::Function(_) => seq!['<', 'f', 'n', '>'],
        Value::Class(_) => seq!['<', 'c', 'l', 'a', 's', 's', '>'],
        Value::Instance(_) => seq!['<', 'i', 'n', 's', 't', 'a', 'n', 'c', 'e', '>'],
    }
}

fn bool_object(b: bool) -> (r: Object)
    ensures
        r@ == Value::Bool(b),
{
    if b {
        Object::True
    } else {
        Object::False
    }
}

fn number_object(n: Option<Number>, line: usize) -> (r: Result<Object, LoxResult>)
    ensures
        n matches Some(x) ==> r == Ok::<Object, LoxResult>(Object::Num(x)),
        n is None ==> r == Err::<Object, LoxResult>(LoxResult::RunTimeError { line, kind: RuntimeErrorKind::NumberOutOfRange }),
{
    match n {
        Some(x) => Ok(Object::Num(x)),
        None => Err(LoxResult::run_time_error(line, RuntimeErrorKind::NumberOutOfRange)),
    }
}

fn mismatch(line: usize) -> (r: Result<Object, LoxResult>)
    ensures
        r == Err::<Object, LoxResult>(LoxResult::RunTimeError { line, kind: RuntimeErrorKind::TypeMismatch }),
{
    Err(LoxResult::run_time_error(line, RuntimeErrorKind::TypeMismatch))
}

impl Object {
    /// The display form used by `print`.
    pub fn stringify(&self) -> (r: String)
        ensures
            r@ == plain_text(self@),
    {
        proof {
            reveal_strlit("nil");
            reveal_strlit("true");
            reveal_strlit("false");
            reveal_strlit("<fn>");
            reveal_strlit("<class>");
            reveal_strlit("<instance>");
        }
        match self {
            Object::Num(n) => n.to_text(),
            Object::Str(s) => s.clone(),
            Object::Nil => "nil".to_owned(),
            Object::True => "true".to_owned(),
            Object::False => "false".to_owned(),
            Object::Function(_) => "<fn>".to_owned(),
            Object::Class(_) => "<class>".to_owned(),
            Object::Instance(_) => "<instance>".to_owned(),
        }
    }

    pub fn is_truthy(&self) -> (r: bool)
        ensures
            r == truthy(self@),
    {
        match self {
            Object::Nil => false,
            Object::False => false,
            _ => true,
        }
    }

    pub fn negate(&self, line: usize) -> (r: Result<Object, LoxResult>)
        ensures
            agrees(r, unary_value(TokenType::Minus, self@), line),
    {
        match self {
            Object::Num(n) => number_object(n.negate(), line),
            _ => mismatch(line),
        }
    }

    pub fn not(&self) -> (r: Object)
        ensures
            agrees(Ok(r), unary_value(TokenType::Bang, self@), 0),
    {
        bool_object(!self.is_truthy())
    }

    pub fn add(left: Object, right: Object, line: usize) -> (r: Result<Object, LoxResult>)
        ensures
            agrees(r, binary_value(TokenType::Plus, left@, right@), line),
    {
        match (left, right) {
            (Object::Num(a), Object::Num(b)) => number_object(a.add(b), line),
            (Object::Str(a), Object::Str(b)) => {
                let mut s = a;
                push_str(&mut s, &b);
                Ok(Object::Str(s))
            },
            _ => mismatch(line),
        }
    }

    pub fn subtract(left: Object, right: Object, line: usize) -> (r: Result<Object, LoxResult>)
        ensures
            agrees(r, binary_value(TokenType::Minus, left@, right@), line),
    {
        match (left, right) {
            (Object::Num(a), Object::Num(b)) => number_object(a.subtract(b), line),
            _ => mismatch(line),
        }
    }

    pub fn multiply(left: Object, right: Object, line: usize) -> (r: Result<Object, LoxResult>)
        ensures
            agrees(r, binary_value(TokenType::Star, left@, right@), line),
    {
        match (left, right) {
            (Object::Num(a), Object::Num(b)) => number_object(a.multiply(b), line),
            _ => mismatch(line),
        }
    }

    pub fn divide(left: Object, right: Object, line: usize) -> (r: Result<Object, LoxResult>)
        ensures
            agrees(r, binary_value(TokenType::Slash, left@, right@), line),
    {
        match (left, right) {
            (Object::Num(a), Object::Num(b)) => {
                if b.is_zero() {
                    Err(LoxResult::run_time_error(line, RuntimeErrorKind::DivisionByZero))
                } else {
                    number_object(a.divide(b), line)
                }
            },
            _ => mismatch(line),
        }
    }

    pub fn greater(left: Object, right: Object, line: usize) -> (r: Result<Object, LoxResult>)
        ensures
            agrees(r, binary_value(TokenType::Greater, left@, right@), line),
    {
        match (left, right) {
            (Object::Num(a), Object::Num(b)) => Ok(bool_object(b.less(a))),
            _ => mismatch(line),
        }
    }

    pub fn greater_equal(left: Object, right: Object, line: usize) -> (r: Result<Object, LoxResult>)
        ensures
            agrees(r, binary_value(TokenType::GreaterEqual, left@, right@), line),
    {
        match (left, right) {
            (Object::Num(a), Object::Num(b)) => Ok(bool_object(!a.less(b))),
            _ => mismatch(line),
        }
    }

    pub fn less(left: Object, right: Object, line: usize) -> (r: Result<Object, LoxResult>)
        ensures
            agrees(r, binary_value(TokenType::Less, left@, right@), line),
    {
        match (left, right) {
            (Object::Num(a), Object::Num(b)) => Ok(bool_object(a.less(b))),
            _ => mismatch(line),
        }
    }

    pub fn less_equal(left: Object, right: Object, line: usize) -> (r: Result<Object, LoxResult>)
        ensures
            agrees(r, binary_value(TokenType::LessEqual, left@, right@), line),
    {
        match (left, right) {
            (Object::Num(a), Object::Num(b)) => Ok(bool_object(!b.less(a))),
            _ => mismatch(line),
        }
    }

    /// Whether two values are the same: by value for numbers, strings, booleans
    /// and nil, by handle for functions, classes and instances; values of
    /// different kinds are never the same.
    pub fn same(&self, other: &Object) -> (r: bool)
        ensures
            r == (self@ == other@),
    {
        match self {
            Object::Num(a) => match other {
                Object::Num(b) => a.units == b.units,
                _ => false,
            },
            Object::Str(a) => match other {
                Object::Str(b) => *a == *b,
                _ => false,
            },
            Object::Nil => other.is_nil(),
            Object::True => match other {
                Object::True => true,
                _ => false,
            },
            Object::False => match other {
                Object::False => true,
                _ => false,
            },
            Object::Function(a) => match other {
                Object::Function(b) => *a == *b,
                _ => false,
            },
            Object::Class(a) => match other {
                Object::Class(b) => *a == *b,
                _ => false,
            },
            Object::Instance(a) => match other {
                Object::Instance(b) => *a == *b,
                _ => false,
            },
        }
    }

    pub fn is_nil(&self) -> (r: bool)
        ensures
            r == (self@ is Nil),
    {
        match self {
            Object::Nil => true,
            _ => false,
        }
    }

    pub fn bang_equal(left: Object, right: Object, line: usize) -> (r: Result<Object, LoxResult>)
        ensures
            agrees(r, binary_value(TokenType::BangEqual, left@, right@), line),
    {
        Ok(bool_object(!left.same(&right)))
    }

    pub fn equals(left: Object, right: Object, line: usize) -> (r: Result<Object, LoxResult>)
        ensures
            agrees(r, binary_value(TokenType::Equals, left@, right@), line),
    {
        Ok(bool_object(left.same(&right)))
    }
}

} // verus!
