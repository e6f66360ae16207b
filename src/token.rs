use vstd::prelude::*;
use crate::number::Number;

verus! {

#[derive(Clone, Copy, Debug, PartialEq, Eq, Structural)]
pub enum TokenType {
    LeftParen,
    RightParen,
    LeftBrace,
    RightBrace,
    Comma,
    Dot,
    Minus,
    Plus,
    Semicolon,
    Slash,
    Star,
    Bang,
    BangEqual,
    Assign,
    Equals,
    Greater,
    GreaterEqual,
    Less,
    LessEqual,
    Identifier,
    String,
    Number,
    And,
    Class,
    Else,
    False,
    Fun,
    For,
    If,
    Nil,
    Or,
    Print,
    Return,
    Super,
    This,
    True,
    Var,
    While,
    Eof,
}

/// A value of the language. Functions, classes and instances are handles into the
/// interpreter's store; two such values are equal when they are the same handle.
#[derive(Clone, Debug, PartialEq)]
pub enum Object {
    Num(Number),
    Str(String),
    Nil,
    True,
    False,
    Function(usize),
    Class(usize),
    Instance(usize),
}

/// A lexical unit: its kind, its text, the value of a literal, and its source line.
#[derive(Clone, Debug, PartialEq)]
pub struct Token {
    pub ttype: TokenType,
    pub lexeme: String,
    pub literal: Option<Object>,
    pub line: usize,
}

impl Object {
    /// A copy that Verus knows to be equal to `self`.
    pub fn duplicate(&self) -> (r: Object)
        ensures
            r == *self,
    {
        match self {
            Object::Num(n) => Object::Num(*n),
            Object::Str(s) => Object::Str(s.clone()),
            Object::Nil => Object::Nil,
            Object::True => Object::True,
            Object::False => Object::False,
            Object::Function(i) => Object::Function(*i),
            Object::Class(i) => Object::Class(*i),
            Object::Instance(i) => Object::Instance(*i),
        }
    }
}

impl Token {
    pub fn new(ttype: TokenType, lexeme: String, literal: Option<Object>, line: usize) -> (r: Token)
        ensures
            r == (Token { ttype, lexeme, literal, line }),
    {
        Token { ttype, lexeme, literal, line }
    }

    /// The synthetic token that closes every scanned sequence.
    pub fn eof(line: usize) -> (r: Token)
        ensures
            r.ttype == TokenType::Eof,
            r.lexeme@ == Seq::<char>::empty(),
            r.literal is None,
            r.line == line,
    {
        Token { ttype: TokenType::Eof, lexeme: String::new(), literal: None, line }
    }

    /// A copy that Verus knows to be equal to `self`.
    pub fn duplicate(&self) -> (r: Token)
        ensures
            r == *self,
    {
        let literal = match &self.literal {
            Some(o) => Some(o.duplicate()),
            None => None,
        };
        Token { ttype: self.ttype, lexeme: self.lexeme.clone(), literal, line: self.line }
    }
}

} // verus!
