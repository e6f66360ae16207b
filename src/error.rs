use vstd::prelude::*;

verus! {

/// Why scanning failed.
#[derive(Clone, Copy, Debug, PartialEq, Eq, Structural)]
pub enum LexErrorKind {
    UnexpectedCharacter,
    UnterminatedString,
    MalformedNumber,
    /// A number literal too large, or with more decimals than a number holds.
    NumberOutOfRange,
}

/// Why parsing failed.
#[derive(Clone, Copy, Debug, PartialEq, Eq, Structural)]
pub enum ParseErrorKind {
    UnexpectedToken,
    InvalidAssignmentTarget,
}

/// Why evaluation failed.
#[derive(Clone, Copy, Debug, PartialEq, Eq, Structural)]
pub enum RuntimeErrorKind {
    UndefinedVariable,
    TypeMismatch,
    DivisionByZero,
    ArityMismatch,
    NotCallable,
    NotAnInstance,
    UndefinedProperty,
    InvalidSuperclass,
    /// An arithmetic result beyond the range of numbers.
    NumberOutOfRange,
    /// Calls nested deeper than the interpreter allows.
    StackOverflow,
    /// The program ran for more steps than the interpreter allows.
    StepLimitExceeded,
}

/// An error of one of the three stages, with the source line where it arose.
#[derive(Clone, Debug, PartialEq)]
pub enum LoxResult {
    Error { line: usize, kind: LexErrorKind },
    ParseError { line: usize, lexeme: String, kind: ParseErrorKind, message: String },
    RunTimeError { line: usize, kind: RuntimeErrorKind },
}

impl LoxResult {
    pub fn error(line: usize, kind: LexErrorKind) -> (r: LoxResult)
        ensures
            r == (LoxResult::Error { line, kind }),
    {
        LoxResult::Error { line, kind }
    }

    /// A parse error at the token with `lexeme`; an empty lexeme (the end of input)
    /// is reported as `end`.
    pub fn parse_error(line: usize, kind: ParseErrorKind, message: &str, lexeme: &str) -> (r: LoxResult)
        ensures
            r matches LoxResult::ParseError { line: l, lexeme: x, kind: k, message: m }
                && l == line && k == kind && m@ == message@
                && x@ == (if lexeme@.len() == 0 { seq!['e', 'n', 'd'] } else { lexeme@ }),
    {
        let at = if lexeme.is_empty() {
            proof {
                reveal_strlit("end");
            }
            "end".to_owned()
        } else {
            lexeme.to_owned()
        };
        LoxResult::ParseError { line, lexeme: at, kind, message: message.to_owned() }
    }

    pub fn run_time_error(line: usize, kind: RuntimeErrorKind) -> (r: LoxResult)
        ensures
            r == (LoxResult::RunTimeError { line, kind }),
    {
        LoxResult::RunTimeError { line, kind }
    }
}

} // verus!
