//! A small dynamically typed scripting language: scanner, parser and a tree-walking
//! interpreter with closures and classes.
use vstd::prelude::*;

pub mod ast;
pub mod ast_printer;
pub mod environment;
pub mod error;
pub mod interpreter;
pub mod number;
pub mod parser;
pub mod scanner;
pub(crate) mod text;
pub mod token;
pub mod value;

use crate::error::LoxResult;
use crate::environment::FrameModel;
use crate::interpreter::{stmts_run, Heap, Interpreter, Outcome};
use crate::parser::{parse, prog_err, program_g, unexpected_at};
use crate::scanner::{scan, scan_spec, TokenModel};
use crate::token::{Token, TokenType};

verus! {

/// How a run ends that the execution model gives: the scopes and the output it
/// gives, and the result that goes with its error, if any.
pub open spec fn ends_as(m: Option<Outcome>, env: Seq<FrameModel>, out: Seq<Seq<char>>, r: Result<(), LoxResult>) -> bool {
    m matches Some((env2, out2, err)) ==> (env == env2 && out == out2 && match err {
        None => r is Ok,
        Some((line, kind)) => r == Err::<(), LoxResult>(LoxResult::RunTimeError { line, kind }),
    })
}

/// How a run ends that the execution model gives, as far as its output and
/// result go.
pub open spec fn ends_with_output(m: Option<Outcome>, out: Seq<Seq<char>>, r: Result<(), LoxResult>) -> bool {
    m matches Some((_, out2, err)) ==> (out == out2 && match err {
        None => r is Ok,
        Some((line, kind)) => r == Err::<(), LoxResult>(LoxResult::RunTimeError { line, kind }),
    })
}

/// What running the tokens `tv` in `pre` gives `post` and `r`: a parse error of a
/// missing `;` where it stands, with nothing run; otherwise, for a program the
/// grammar model covers, the run the execution model gives.
pub open spec fn ran_tokens(pre: &Interpreter, post: &Interpreter, r: Result<(), LoxResult>, tv: Seq<Token>) -> bool {
    (tv.len() > 0 && tv.last().ttype == TokenType::Eof) ==> ({
        &&& prog_err(tv, 0) matches Some(k) ==> (r matches Err(e) && unexpected_at(tv, k, e) && *post == *pre)
        &&& program_g(tv, 0) is Some ==> ends_as(
            stmts_run(pre.heap(), pre.environment@, pre.current as int, pre.printed(), program_g(tv, 0)->0),
            post.environment@,
            post.printed(),
            r,
        )
    })
}

/// The tokens `tv` are what scanning `src` gives.
pub open spec fn scanned_to(src: Seq<char>, tv: Seq<Token>) -> bool {
    scan_spec(src) == Ok::<Seq<TokenModel>, (int, crate::error::LexErrorKind)>(tv.map_values(|t: Token| t@))
}

/// Parses a token sequence and runs it in `interpreter`. A parse error stops
/// before anything runs and leaves the interpreter as it was; otherwise the
/// run goes as the execution model gives it, runtime error included.
pub fn run_tokens(interpreter: &mut Interpreter, tokens: Vec<Token>) -> (r: Result<(), LoxResult>)
    requires
        old(interpreter).wf(),
    ensures
        final(interpreter).wf(),
        r matches Err(e) ==> (e is ParseError || e is RunTimeError),
        r matches Err(e) && e is ParseError ==> *final(interpreter) == *old(interpreter),
        ran_tokens(old(interpreter), final(interpreter), r, tokens@),
{
    let statements = match parse(tokens) {
        Ok(s) => s,
        Err(e) => return Err(e),
    };
    interpreter.interpret(&statements)
}

/// Scans, parses and runs a source text in `interpreter`. A scan or parse error
/// stops before anything runs; a runtime error stops the run where it arose.
pub fn run_with(interpreter: &mut Interpreter, source: &str) -> (r: Result<(), LoxResult>)
    requires
        old(interpreter).wf(),
        source@.len() < usize::MAX - 1,
    ensures
        final(interpreter).wf(),
        scan_spec(source@) matches Err((l, k)) ==> r == Err::<(), LoxResult>(LoxResult::Error { line: l as usize, kind: k })
            && *final(interpreter) == *old(interpreter),
        r matches Err(e) && !(e is RunTimeError) ==> *final(interpreter) == *old(interpreter),
        scan_spec(source@) is Ok ==> exists|tv: Seq<Token>| #[trigger] scanned_to(source@, tv) && ran_tokens(
            old(interpreter),
            final(interpreter),
            r,
            tv,
        ),
{
    let tokens = match scan(source) {
        Ok(t) => t,
        Err(e) => return Err(e),
    };
    let ghost tv = tokens@;
    let r = run_tokens(interpreter, tokens);
    proof {
        assert(scanned_to(source@, tv));
    }
    r
}

/// Runs a source text in a fresh interpreter: what it printed, one line per
/// `print`, and how the run ended.
pub fn run(source: &str) -> (r: (Vec<String>, Result<(), LoxResult>))
    requires
        source@.len() < usize::MAX - 1,
    ensures
        scan_spec(source@) matches Err((l, k)) ==> r.1 == Err::<(), LoxResult>(LoxResult::Error { line: l as usize, kind: k })
            && r.0@.len() == 0,
        scan_spec(source@) is Ok ==> exists|tv: Seq<Token>| #[trigger] scanned_to(source@, tv) && ((tv.len() > 0
            && tv.last().ttype == TokenType::Eof) ==> ({
            &&& prog_err(tv, 0) matches Some(k) ==> (r.1 matches Err(e) && unexpected_at(tv, k, e) && r.0@.len() == 0)
            &&& program_g(tv, 0) is Some ==> ends_with_output(
                stmts_run(
                    Heap { functions: Seq::empty(), classes: Seq::empty(), instances: Seq::empty() },
                    seq![FrameModel { enclosing: None, names: Seq::empty(), values: Seq::empty() }],
                    0,
                    Seq::empty(),
                    program_g(tv, 0)->0,
                ),
                r.0@.map_values(|s: String| s@),
                r.1,
            )
        })),
{
    let mut interpreter = Interpreter::new();
    let ghost fresh = interpreter;
    let result = run_with(&mut interpreter, source);
    proof {
        if scan_spec(source@) is Ok {
            let tv = choose|tv: Seq<Token>| #[trigger] scanned_to(source@, tv) && ran_tokens(&fresh, &interpreter, result, tv);
            assert(scanned_to(source@, tv));
            if tv.len() > 0 && tv.last().ttype == TokenType::Eof && program_g(tv, 0) is Some {
                let m = stmts_run(
                    Heap { functions: Seq::empty(), classes: Seq::empty(), instances: Seq::empty() },
                    seq![FrameModel { enclosing: None, names: Seq::empty(), values: Seq::empty() }],
                    0,
                    Seq::empty(),
                    program_g(tv, 0)->0,
                );
                assert(ends_as(m, interpreter.environment@, interpreter.printed(), result));
                assert(ends_with_output(m, interpreter.printed(), result));
            }
        }
    }
    (interpreter.output, result)
}

} // verus!
