use vstd::prelude::*;
use crate::ast::Expr;
use crate::text::{push_char, push_str};
use crate::token::Object;
use crate::value::plain_text;

verus! {

/// The parts of a parenthesised form, each after a space.
pub open spec fn spaced(parts: Seq<Seq<char>>) -> Seq<char>
    decreases parts.len(),
{
    if parts.len() == 0 {
        Seq::empty()
    } else {
        spaced(parts.drop_last()) + seq![' '] + parts.last()
    }
}

/// `(name part part ...)`.
pub open spec fn paren(name: Seq<char>, parts: Seq<Seq<char>>) -> Seq<char> {
    seq!['('] + name + spaced(parts) + seq![')']
}

/// The printed forms of a list of expressions.
pub open spec fn texts(s: Seq<Expr>) -> Seq<Seq<char>>
    decreases s,
{
    if s.len() == 0 {
        Seq::empty()
    } else {
        texts(s.drop_last()).push(expr_text(s.last()))
    }
}

/// The fully parenthesised form of an expression.
pub open spec fn expr_text(e: Expr) -> Seq<char>
    decreases e,
{
    match e {
        Expr::Binary(l, op, r) => paren(op.lexeme@, seq![expr_text(*l), expr_text(*r)]),
        Expr::Grouping(x) => paren(seq!['g', 'r', 'o', 'u', 'p'], seq![expr_text(*x)]),
        Expr::Literal(v) => plain_text(v@),
        Expr::Unary(op, x) => paren(op.lexeme@, seq![expr_text(*x)]),
        Expr::Assign(n, x) => paren(seq!['='], seq![n.lexeme@, expr_text(*x)]),
        Expr::Call(c, _, args) => paren(
            seq!['c', 'a', 'l', 'l'],
            seq![expr_text(*c)] + texts(args@),
        ),
        Expr::Get(o, n) => paren(seq!['.'], seq![expr_text(*o), n.lexeme@]),
        Expr::Logical(l, op, r) => paren(op.lexeme@, seq![expr_text(*l), expr_text(*r)]),
        Expr::SetProperty(o, n, x) => paren(seq!['='], seq![expr_text(*o), n.lexeme@, expr_text(*x)]),
        Expr::Super(_, m) => paren(seq!['s', 'u', 'p', 'e', 'r'], seq![m.lexeme@]),
        Expr::This(_) => seq!['t', 'h', 'i', 's'],
        Expr::Variable(n) => n.lexeme@,
    }
}

/// Renders expressions in a fully parenthesised prefix form.
pub struct AstPrinter {}

impl AstPrinter {
    pub fn new() -> (r: AstPrinter) {
        AstPrinter {  }
    }

    pub fn print(&mut self, expr: Expr) -> (r: String)
        ensures
            r@ == expr_text(expr),
    {
        self.text(&expr)
    }

    /// `(name e1 e2 ...)`, each expression printed in turn.
    pub fn parenthesize(&mut self, name: &str, exprs: &[&Expr]) -> (r: String)
        ensures
            r@ == paren(name@, Seq::new(exprs@.len(), |i: int| expr_text(*exprs@[i]))),
    {
        let mut s = String::new();
        push_char(&mut s, '(');
        push_str(&mut s, &name.to_owned());
        let ghost texts = Seq::new(exprs@.len(), |i: int| expr_text(*exprs@[i]));
        let mut i: usize = 0;
        while i < exprs.len()
            invariant
                0 <= i <= exprs@.len(),
                texts == Seq::new(exprs@.len(), |i: int| expr_text(*exprs@[i])),
                s@ == seq!['('] + name@ + spaced(texts.subrange(0, i as int)),
            decreases exprs.len() - i,
        {
            let t = self.text(exprs[i]);
            push_char(&mut s, ' ');
            push_str(&mut s, &t);
            proof {
                assert(texts.subrange(0, i + 1).drop_last() =~= texts.subrange(0, i as int));
            }
            i = i + 1;
        }
        push_char(&mut s, ')');
        proof {
            assert(texts.subrange(0, exprs@.len() as int) =~= texts);
        }
        s
    }

    #[verifier::loop_isolation(false)]
    fn text(&mut self, e: &Expr) -> (r: String)
        ensures
            r@ == expr_text(*e),
        decreases e,
    {
        proof {
            reveal_strlit("group");
            reveal_strlit("=");
            reveal_strlit("call");
            reveal_strlit(".");
            reveal_strlit("super");
            reveal_strlit("this");
            assert("group"@ =~= seq!['g', 'r', 'o', 'u', 'p']);
            assert("="@ =~= seq!['=']);
            assert("call"@ =~= seq!['c', 'a', 'l', 'l']);
            assert("."@ =~= seq!['.']);
            assert("super"@ =~= seq!['s', 'u', 'p', 'e', 'r']);
            assert("this"@ =~= seq!['t', 'h', 'i', 's']);
        }
        match e {
            Expr::Binary(l, op, r) => {
                let a = self.text(l);
                let b = self.text(r);
                join_paren(&op.lexeme, two(a, b))
            },
            Expr::Grouping(x) => {
                let a = self.text(x);
                join_paren(&"group".to_owned(), one(a))
            },
            Expr::Literal(v) => v.stringify(),
            Expr::Unary(op, x) => {
                let a = self.text(x);
                join_paren(&op.lexeme, one(a))
            },
            Expr::Assign(n, x) => {
                let a = self.text(x);
                join_paren(&"=".to_owned(), two(n.lexeme.clone(), a))
            },
            Expr::Call(c, _, args) => {
                let mut parts: Vec<String> = Vec::new();
                parts.push(self.text(c));
                let ghost head = expr_text(**c);
                proof {
                    assert(parts@.map_values(|p: String| p@) =~= seq![head] + texts(args@.subrange(0, 0)));
                }
                let mut i: usize = 0;
                while i < args.len()
                    invariant
                        0 <= i <= args.len(),
                        parts@.map_values(|p: String| p@) == seq![head] + texts(args@.subrange(0, i as int)),
                    decreases args.len() - i,
                {
                    proof {
                        assert(decreases_to!(e => args[i as int]));
                    }
                    let t = self.text(&args[i]);
                    let ghost before = parts@.map_values(|p: String| p@);
                    parts.push(t);
                    proof {
                        let sub = args@.subrange(0, i + 1);
                        assert(sub.drop_last() =~= args@.subrange(0, i as int));
                        assert(sub.last() == args@[i as int]);
                        assert(parts@.map_values(|p: String| p@) =~= before.push(t@));
                        assert(seq![head] + texts(sub) =~= (seq![head] + texts(args@.subrange(0, i as int))).push(t@));
                    }
                    i = i + 1;
                }
                proof {
                    assert(args@.subrange(0, args.len() as int) =~= args@);
                }
                join_paren(&"call".to_owned(), parts)
            },
            Expr::Get(o, n) => {
                let a = self.text(o);
                join_paren(&".".to_owned(), two(a, n.lexeme.clone()))
            },
            Expr::Logical(l, op, r) => {
                let a = self.text(l);
                let b = self.text(r);
                join_paren(&op.lexeme, two(a, b))
            },
            Expr::SetProperty(o, n, x) => {
                let a = self.text(o);
                let b = self.text(x);
                join_paren(&"=".to_owned(), three(a, n.lexeme.clone(), b))
            },
            Expr::Super(_, m) => join_paren(&"super".to_owned(), one(m.lexeme.clone())),
            Expr::This(_) => "this".to_owned(),
            Expr::Variable(n) => n.lexeme.clone(),
        }
    }
}

/// `(name p1 p2 ...)`.
fn join_paren(name: &String, parts: Vec<String>) -> (r: String)
    ensures
        r@ == paren(name@, parts@.map_values(|p: String| p@)),
{
    let ghost texts = parts@.map_values(|p: String| p@);
    let mut s = String::new();
    push_char(&mut s, '(');
    push_str(&mut s, name);
    let mut i: usize = 0;
    while i < parts.len()
        invariant
            0 <= i <= parts.len(),
            texts == parts@.map_values(|p: String| p@),
            s@ == seq!['('] + name@ + spaced(texts.subrange(0, i as int)),
        decreases parts.len() - i,
    {
        push_char(&mut s, ' ');
        push_str(&mut s, &parts[i]);
        proof {
            assert(texts.subrange(0, i + 1).drop_last() =~= texts.subrange(0, i as int));
        }
        i = i + 1;
    }
    push_char(&mut s, ')');
    proof {
        assert(texts.subrange(0, parts.len() as int) =~= texts);
    }
    s
}


fn one(a: String) -> (r: Vec<String>)
    ensures
        r@.map_values(|p: String| p@) == seq![a@],
{
    let mut v: Vec<String> = Vec::new();
    v.push(a);
    proof {
        assert(v@.map_values(|p: String| p@) =~= seq![a@]);
    }
    v
}

fn two(a: String, b: String) -> (r: Vec<String>)
    ensures
        r@.map_values(|p: String| p@) == seq![a@, b@],
{
    let mut v: Vec<String> = Vec::new();
    v.push(a);
    v.push(b);
    proof {
        assert(v@.map_values(|p: String| p@) =~= seq![a@, b@]);
    }
    v
}

fn three(a: String, b: String, c: String) -> (r: Vec<String>)
    ensures
        r@.map_values(|p: String| p@) == seq![a@, b@, c@],
{
    let mut v: Vec<String> = Vec::new();
    v.push(a);
    v.push(b);
    v.push(c);
    proof {
        assert(v@.map_values(|p: String| p@) =~= seq![a@, b@, c@]);
    }
    v
}

} // verus!
