use vstd::prelude::*;
use crate::token::{Object, Token};

verus! {

/// An expression: each node owns its children.
#[derive(Debug, PartialEq)]
pub enum Expr {
    Binary(Box<Expr>, Token, Box<Expr>),
    Grouping(Box<Expr>),
    Literal(Object),
    Unary(Token, Box<Expr>),
    Assign(Token, Box<Expr>),
    /// The callee, the closing parenthesis (for error lines), and the arguments.
    Call(Box<Expr>, Token, Vec<Expr>),
    Get(Box<Expr>, Token),
    Logical(Box<Expr>, Token, Box<Expr>),
    SetProperty(Box<Expr>, Token, Box<Expr>),
    /// The `super` keyword and the method name.
    Super(Token, Token),
    This(Token),
    Variable(Token),
}

/// A function declaration: its name, its parameters and its body.
#[derive(Debug, PartialEq)]
pub struct FunctionDecl {
    pub name: Token,
    pub params: Vec<Token>,
    pub body: Vec<Stmt>,
}

/// A statement.
#[derive(Debug, PartialEq)]
pub enum Stmt {
    Block(Vec<Stmt>),
    /// The class name, the name of its superclass if any, and its methods.
    Class(Token, Option<Token>, Vec<FunctionDecl>),
    Expression(Box<Expr>),
    Function(FunctionDecl),
    If(Box<Expr>, Box<Stmt>, Option<Box<Stmt>>),
    Print(Box<Expr>),
    /// The `return` keyword and the returned value, if any.
    Return(Token, Option<Box<Expr>>),
    Variable(Token, Option<Box<Expr>>),
    While(Box<Expr>, Box<Stmt>),
}

impl Expr {
    /// A deep copy.
    #[verifier::loop_isolation(false)]
    pub fn duplicate(&self) -> (r: Expr)
        decreases self,
    {
        match self {
            Expr::Binary(l, op, r) => Expr::Binary(Box::new(l.duplicate()), op.duplicate(), Box::new(r.duplicate())),
            Expr::Grouping(e) => Expr::Grouping(Box::new(e.duplicate())),
            Expr::Literal(v) => Expr::Literal(v.duplicate()),
            Expr::Unary(op, r) => Expr::Unary(op.duplicate(), Box::new(r.duplicate())),
            Expr::Assign(n, v) => Expr::Assign(n.duplicate(), Box::new(v.duplicate())),
            Expr::Call(callee, paren, args) => {
                let mut copied: Vec<Expr> = Vec::new();
                let mut i: usize = 0;
                while i < args.len()
                    decreases args.len() - i,
                {
                    proof {
                        assert(decreases_to!(self => args[i as int]));
                    }
                    copied.push(args[i].duplicate());
                    i = i + 1;
                }
                Expr::Call(Box::new(callee.duplicate()), paren.duplicate(), copied)
            },
            Expr::Get(o, n) => Expr::Get(Box::new(o.duplicate()), n.duplicate()),
            Expr::Logical(l, op, r) => Expr::Logical(Box::new(l.duplicate()), op.duplicate(), Box::new(r.duplicate())),
            Expr::SetProperty(o, n, v) => Expr::SetProperty(Box::new(o.duplicate()), n.duplicate(), Box::new(v.duplicate())),
            Expr::Super(k, m) => Expr::Super(k.duplicate(), m.duplicate()),
            Expr::This(k) => Expr::This(k.duplicate()),
            Expr::Variable(n) => Expr::Variable(n.duplicate()),
        }
    }
}

fn duplicate_tokens(ts: &Vec<Token>) -> (r: Vec<Token>)
    ensures
        r@ == ts@,
{
    let mut copied: Vec<Token> = Vec::new();
    let mut i: usize = 0;
    while i < ts.len()
        invariant
            0 <= i <= ts.len(),
            copied@ == ts@.subrange(0, i as int),
        decreases ts.len() - i,
    {
        proof {
            assert(ts@.subrange(0, i + 1) =~= ts@.subrange(0, i as int).push(ts@[i as int]));
        }
        copied.push(ts[i].duplicate());
        i = i + 1;
    }
    proof {
        assert(ts@.subrange(0, ts.len() as int) =~= ts@);
    }
    copied
}

fn duplicate_opt(e: &Option<Box<Expr>>) -> (r: Option<Box<Expr>>) {
    match e {
        Some(x) => Some(Box::new(x.duplicate())),
        None => None,
    }
}

impl FunctionDecl {
    /// A deep copy: the same name and parameters, and as many body statements.
    pub fn duplicate(&self) -> (r: FunctionDecl)
        ensures
            r.name == self.name,
            r.params@ == self.params@,
            r.body@.len() == self.body@.len(),
        decreases self,
    {
        let mut body: Vec<Stmt> = Vec::new();
        let mut i: usize = 0;
        while i < self.body.len()
            invariant
                0 <= i <= self.body.len(),
                body@.len() == i,
            decreases self.body.len() - i,
        {
            proof {
                assert(decreases_to!(self => self.body[i as int]));
            }
            body.push(self.body[i].duplicate());
            i = i + 1;
        }
        FunctionDecl { name: self.name.duplicate(), params: duplicate_tokens(&self.params), body }
    }
}

impl Stmt {
    /// A deep copy.
    #[verifier::loop_isolation(false)]
    pub fn duplicate(&self) -> (r: Stmt)
        decreases self,
    {
        match self {
            Stmt::Block(stmts) => {
                let mut copied: Vec<Stmt> = Vec::new();
                let mut i: usize = 0;
                while i < stmts.len()
                    decreases stmts.len() - i,
                {
                    proof {
                        assert(decreases_to!(self => stmts[i as int]));
                    }
                    copied.push(stmts[i].duplicate());
                    i = i + 1;
                }
                Stmt::Block(copied)
            },
            Stmt::Class(name, sup, methods) => {
                let mut copied: Vec<FunctionDecl> = Vec::new();
                let mut i: usize = 0;
                while i < methods.len()
                    decreases methods.len() - i,
                {
                    proof {
                        assert(decreases_to!(self => methods[i as int]));
                    }
                    copied.push(methods[i].duplicate());
                    i = i + 1;
                }
                let sup2 = match sup {
                    Some(t) => Some(t.duplicate()),
                    None => None,
                };
                Stmt::Class(name.duplicate(), sup2, copied)
            },
            Stmt::Expression(e) => Stmt::Expression(Box::new(e.duplicate())),
            Stmt::Function(f) => Stmt::Function(f.duplicate()),
            Stmt::If(c, t, e) => {
                let e2 = match e {
                    Some(x) => Some(Box::new(x.duplicate())),
                    None => None,
                };
                Stmt::If(Box::new(c.duplicate()), Box::new(t.duplicate()), e2)
            },
            Stmt::Print(e) => Stmt::Print(Box::new(e.duplicate())),
            Stmt::Return(k, v) => Stmt::Return(k.duplicate(), duplicate_opt(v)),
            Stmt::Variable(n, init) => Stmt::Variable(n.duplicate(), duplicate_opt(init)),
            Stmt::While(c, b) => Stmt::While(Box::new(c.duplicate()), Box::new(b.duplicate())),
        }
    }
}

} // verus!
