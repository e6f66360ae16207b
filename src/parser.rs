use vstd::prelude::*;
use crate::ast::{Expr, FunctionDecl, Stmt};
use crate::error::{LoxResult, ParseErrorKind};
use crate::token::{Object, Token, TokenType};

verus! {

/// A parse that succeeded consumed at least one token and stopped before the end;
/// one that failed reports a parse error.
pub open spec fn progress<X>(len: int, pos: int, r: Result<(X, usize), LoxResult>) -> bool {
    match r {
        Ok((_, q)) => pos < q < len,
        Err(e) => e is ParseError,
    }
}

/// Whether the token at `p` has kind `t` (the end-of-input token matches nothing).
pub open spec fn at(ts: Seq<Token>, p: int, t: TokenType) -> bool {
    0 <= p < ts.len() && ts[p].ttype != TokenType::Eof && ts[p].ttype == t
}

/// The operators of a binary precedence level, from `or` (11) down to `*` and `/` (6).
pub open spec fn level_op(ts: Seq<Token>, q: int, level: int) -> bool {
    if level == 11 {
        at(ts, q, TokenType::Or)
    } else if level == 10 {
        at(ts, q, TokenType::And)
    } else if level == 9 {
        at(ts, q, TokenType::BangEqual) || at(ts, q, TokenType::Equals)
    } else if level == 8 {
        at(ts, q, TokenType::Greater) || at(ts, q, TokenType::GreaterEqual) || at(ts, q, TokenType::Less)
            || at(ts, q, TokenType::LessEqual)
    } else if level == 7 {
        at(ts, q, TokenType::Minus) || at(ts, q, TokenType::Plus)
    } else {
        at(ts, q, TokenType::Slash) || at(ts, q, TokenType::Star)
    }
}

/// The node joining two operands at a level: `and` and `or` short-circuit.
pub open spec fn level_node(level: int, l: Expr, op: Token, r: Expr) -> Expr {
    if level >= 10 {
        Expr::Logical(Box::new(l), op, Box::new(r))
    } else {
        Expr::Binary(Box::new(l), op, Box::new(r))
    }
}

/// The grammar of expressions without calls or property access: the expression
/// that starts at `p`, and where it ends. `None` where the text is no such
/// expression.
pub open spec fn expression_g(ts: Seq<Token>, p: int) -> Option<(Expr, int)>
    decreases ts.len() - p, 30int,
{
    assignment_g(ts, p)
}

pub open spec fn assignment_g(ts: Seq<Token>, p: int) -> Option<(Expr, int)>
    decreases ts.len() - p, 28int,
{
    match level_g(ts, p, 11) {
        Some((e, q)) => if p < q && at(ts, q, TokenType::Assign) {
            match assignment_g(ts, q + 1) {
                Some((v, s)) => match e {
                    Expr::Variable(name) => Some((Expr::Assign(name, Box::new(v)), s)),
                    Expr::Get(object, name) => Some((Expr::SetProperty(object, name, Box::new(v)), s)),
                    _ => None,
                },
                None => None,
            }
        } else {
            Some((e, q))
        },
        None => None,
    }
}

/// A left-associative chain of operands of the level below joined by this level's operators.
pub open spec fn level_g(ts: Seq<Token>, p: int, level: int) -> Option<(Expr, int)>
    decreases ts.len() - p, if level <= 5 {
        10int
    } else {
        2 * level
    },
{
    if level <= 5 {
        unary_g(ts, p)
    } else {
        match level_g(ts, p, level - 1) {
            Some((e, q)) => if p < q <= ts.len() {
                level_rest(ts, e, q, level)
            } else {
                None
            },
            None => None,
        }
    }
}

pub open spec fn level_rest(ts: Seq<Token>, acc: Expr, q: int, level: int) -> Option<(Expr, int)>
    decreases ts.len() - q, 2 * level + 1,
{
    if level_op(ts, q, level) && level > 5 {
        match level_g(ts, q + 1, level - 1) {
            Some((r, s)) => if q < s <= ts.len() {
                level_rest(ts, level_node(level, acc, ts[q], r), s, level)
            } else {
                None
            },
            None => None,
        }
    } else {
        Some((acc, q))
    }
}

pub open spec fn unary_g(ts: Seq<Token>, p: int) -> Option<(Expr, int)>
    decreases ts.len() - p, 9int,
{
    if at(ts, p, TokenType::Bang) || at(ts, p, TokenType::Minus) {
        match unary_g(ts, p + 1) {
            Some((r, q)) => Some((Expr::Unary(ts[p], Box::new(r)), q)),
            None => None,
        }
    } else {
        call_g(ts, p)
    }
}

/// A primary expression followed by property accesses `.name`; `None` where a
/// call follows.
pub open spec fn call_g(ts: Seq<Token>, p: int) -> Option<(Expr, int)>
    decreases ts.len() - p, 8int,
{
    match primary_g(ts, p) {
        Some((e, q)) => if p < q <= ts.len() {
            get_chain(ts, e, q)
        } else {
            None
        },
        None => None,
    }
}

/// Property accesses applied in turn to `acc`, from `q` on.
pub open spec fn get_chain(ts: Seq<Token>, acc: Expr, q: int) -> Option<(Expr, int)>
    decreases ts.len() - q,
{
    if at(ts, q, TokenType::Dot) {
        if at(ts, q + 1, TokenType::Identifier) {
            get_chain(ts, Expr::Get(Box::new(acc), ts[q + 1]), q + 2)
        } else {
            None
        }
    } else if at(ts, q, TokenType::LeftParen) {
        None
    } else {
        Some((acc, q))
    }
}

/// After a call's `(` and its first argument: the arguments, separated by
/// commas; the position just after the last one.
pub open spec fn args_list(ts: Seq<Token>, p: int) -> Option<int>
    decreases ts.len() - p,
{
    match expression_g(ts, p) {
        Some((_, q)) => if p < q < ts.len() {
            if at(ts, q, TokenType::Comma) {
                args_list(ts, q + 1)
            } else {
                Some(q)
            }
        } else {
            None
        },
        None => None,
    }
}

/// After a call's `(`: where its argument list ends (at its `)` if it is well formed).
pub open spec fn args_end(ts: Seq<Token>, p: int) -> Option<int> {
    if at(ts, p, TokenType::RightParen) {
        Some(p)
    } else {
        args_list(ts, p)
    }
}

/// Property and call suffixes from `q` on: where they end, and whether the last
/// one is a call.
pub open spec fn suffix_end(ts: Seq<Token>, q: int, last_call: bool) -> Option<(int, bool)>
    decreases ts.len() - q,
{
    if at(ts, q, TokenType::Dot) {
        if at(ts, q + 1, TokenType::Identifier) {
            suffix_end(ts, q + 2, false)
        } else {
            None
        }
    } else if at(ts, q, TokenType::LeftParen) {
        match args_end(ts, q + 1) {
            Some(e) => if q < e < ts.len() && at(ts, e, TokenType::RightParen) {
                suffix_end(ts, e + 1, true)
            } else {
                None
            },
            None => None,
        }
    } else {
        Some((q, last_call))
    }
}

/// Where suffixes from `q` on end, when the last one is a call.
pub open spec fn suffix_call_end(ts: Seq<Token>, q: int, last_call: bool) -> Option<int> {
    match suffix_end(ts, q, last_call) {
        Some((e, true)) => Some(e),
        _ => None,
    }
}

/// A call operand followed by `=`: where the `=` stands.
pub open spec fn call_assign_at(ts: Seq<Token>, p: int) -> Option<int> {
    match call_operand(ts, p) {
        Some(e) => if at(ts, e, TokenType::Assign) {
            Some(e)
        } else {
            None
        },
        None => None,
    }
}

/// A primary expression with its suffixes, when the last suffix is a call:
/// where it ends.
pub open spec fn call_operand(ts: Seq<Token>, p: int) -> Option<int> {
    match primary_g(ts, p) {
        Some((_, q)) => if p < q <= ts.len() {
            suffix_call_end(ts, q, false)
        } else {
            None
        },
        None => None,
    }
}

/// A call used as an assignment target: the line of its `=`.
pub open spec fn call_target(ts: Seq<Token>, p: int) -> Option<usize> {
    match call_operand(ts, p) {
        Some(e) => if at(ts, e, TokenType::Assign) && assignment_g(ts, e + 1) is Some {
            Some(ts[e].line)
        } else {
            None
        },
        None => None,
    }
}

pub open spec fn primary_g(ts: Seq<Token>, p: int) -> Option<(Expr, int)>
    decreases ts.len() - p, 7int,
{
    if at(ts, p, TokenType::False) {
        Some((Expr::Literal(Object::False), p + 1))
    } else if at(ts, p, TokenType::True) {
        Some((Expr::Literal(Object::True), p + 1))
    } else if at(ts, p, TokenType::Nil) {
        Some((Expr::Literal(Object::Nil), p + 1))
    } else if (at(ts, p, TokenType::Number) || at(ts, p, TokenType::String)) && ts[p].literal is Some {
        Some((Expr::Literal(ts[p].literal->0), p + 1))
    } else if at(ts, p, TokenType::Identifier) {
        Some((Expr::Variable(ts[p]), p + 1))
    } else if at(ts, p, TokenType::This) {
        Some((Expr::This(ts[p]), p + 1))
    } else if at(ts, p, TokenType::Super) {
        if at(ts, p + 1, TokenType::Dot) && at(ts, p + 2, TokenType::Identifier) {
            Some((Expr::Super(ts[p], ts[p + 2]), p + 3))
        } else {
            None
        }
    } else if at(ts, p, TokenType::LeftParen) {
        match expression_g(ts, p + 1) {
            Some((e, q)) => if at(ts, q, TokenType::RightParen) {
                Some((Expr::Grouping(Box::new(e)), q + 1))
            } else {
                None
            },
            None => None,
        }
    } else {
        None
    }
}

/// The exec result holds the expression and end position the grammar gives.
pub open spec fn gives(g: Option<(Expr, int)>, r: Result<(Box<Expr>, usize), LoxResult>) -> bool {
    g matches Some((e, q)) ==> (r matches Ok((b, q2)) && *b == e && q2 == q)
}

/// After `var`: the name, an optional initializer, and the `;`.
pub open spec fn var_g(ts: Seq<Token>, p: int) -> Option<(Stmt, int)> {
    if at(ts, p, TokenType::Identifier) {
        if at(ts, p + 1, TokenType::Assign) {
            match expression_g(ts, p + 2) {
                Some((e, q)) => if at(ts, q, TokenType::Semicolon) {
                    Some((Stmt::Variable(ts[p], Some(Box::new(e))), q + 1))
                } else {
                    None
                },
                None => None,
            }
        } else if at(ts, p + 1, TokenType::Semicolon) {
            Some((Stmt::Variable(ts[p], None), p + 2))
        } else {
            None
        }
    } else {
        None
    }
}

/// After `print`: the expression and the `;`.
pub open spec fn print_g(ts: Seq<Token>, p: int) -> Option<(Stmt, int)> {
    match expression_g(ts, p) {
        Some((e, q)) => if at(ts, q, TokenType::Semicolon) {
            Some((Stmt::Print(Box::new(e)), q + 1))
        } else {
            None
        },
        None => None,
    }
}

/// An expression statement and its `;`.
pub open spec fn expr_stmt_g(ts: Seq<Token>, p: int) -> Option<(Stmt, int)> {
    match expression_g(ts, p) {
        Some((e, q)) => if at(ts, q, TokenType::Semicolon) {
            Some((Stmt::Expression(Box::new(e)), q + 1))
        } else {
            None
        },
        None => None,
    }
}

pub open spec fn statement_g(ts: Seq<Token>, p: int) -> Option<(Stmt, int)> {
    if at(ts, p, TokenType::For) || at(ts, p, TokenType::If) || at(ts, p, TokenType::Return) || at(
        ts,
        p,
        TokenType::While,
    ) || at(ts, p, TokenType::LeftBrace) {
        None
    } else if at(ts, p, TokenType::Print) {
        print_g(ts, p + 1)
    } else {
        expr_stmt_g(ts, p)
    }
}

/// The grammar of the simple declarations: `var`, `print` and expression
/// statements over expressions without calls or property access.
pub open spec fn declaration_g(ts: Seq<Token>, p: int) -> Option<(Stmt, int)> {
    if at(ts, p, TokenType::Class) || at(ts, p, TokenType::Fun) {
        None
    } else if at(ts, p, TokenType::Var) {
        var_g(ts, p + 1)
    } else {
        statement_g(ts, p)
    }
}

/// A program of simple declarations from `p` to the end of input.
pub open spec fn program_g(ts: Seq<Token>, p: int) -> Option<Seq<Stmt>>
    decreases ts.len() - p,
{
    if !(0 <= p < ts.len()) {
        None
    } else if ts[p].ttype == TokenType::Eof {
        Some(Seq::empty())
    } else {
        match declaration_g(ts, p) {
            Some((st, q)) => if p < q <= ts.len() {
                match program_g(ts, q) {
                    Some(rest) => Some(seq![st] + rest),
                    None => None,
                }
            } else {
                None
            },
            None => None,
        }
    }
}

/// The shape of a statement: blocks as the shapes of their statements.
pub ghost enum StmtM {
    Expression(Expr),
    Print(Expr),
    Variable(Token, Option<Expr>),
    Block(Seq<StmtM>),
    If(Expr, Box<StmtM>, Option<Box<StmtM>>),
    While(Expr, Box<StmtM>),
    Return(Token, Option<Expr>),
    Function(FunM),
    /// The class name, its superclass's name, and its methods.
    Class(Token, Option<Token>, Seq<FunM>),
}

/// The shape of a function declaration.
pub ghost struct FunM {
    pub name: Token,
    pub params: Seq<Token>,
    pub body: Seq<StmtM>,
}

pub open spec fn fun_m(d: FunctionDecl) -> FunM
    decreases d,
{
    FunM { name: d.name, params: d.params@, body: stmts_m(d.body@) }
}

pub open spec fn funs_m(ds: Seq<FunctionDecl>) -> Seq<FunM>
    decreases ds,
{
    if ds.len() == 0 {
        Seq::empty()
    } else {
        funs_m(ds.drop_last()).push(fun_m(ds.last()))
    }
}

pub open spec fn opt_expr(e: Option<Box<Expr>>) -> Option<Expr> {
    match e {
        Some(x) => Some(*x),
        None => None,
    }
}

pub open spec fn stmt_m(s: Stmt) -> StmtM
    decreases s,
{
    match s {
        Stmt::Expression(e) => StmtM::Expression(*e),
        Stmt::Print(e) => StmtM::Print(*e),
        Stmt::Variable(n, init) => StmtM::Variable(n, opt_expr(init)),
        Stmt::Block(v) => StmtM::Block(stmts_m(v@)),
        Stmt::If(c, t, el) => StmtM::If(
            *c,
            Box::new(stmt_m(*t)),
            match el {
                Some(b) => Some(Box::new(stmt_m(*b))),
                None => None,
            },
        ),
        Stmt::While(c, b) => StmtM::While(*c, Box::new(stmt_m(*b))),
        Stmt::Return(k, v) => StmtM::Return(k, opt_expr(v)),
        Stmt::Function(d) => StmtM::Function(fun_m(d)),
        Stmt::Class(n, sup, ms) => StmtM::Class(n, sup, funs_m(ms@)),
    }
}

pub open spec fn stmts_m(ss: Seq<Stmt>) -> Seq<StmtM>
    decreases ss,
{
    if ss.len() == 0 {
        Seq::empty()
    } else {
        stmts_m(ss.drop_last()).push(stmt_m(ss.last()))
    }
}

pub open spec fn shape(g: Option<(Stmt, int)>) -> Option<(StmtM, int)> {
    match g {
        Some((s, q)) => Some((stmt_m(s), q)),
        None => None,
    }
}

/// The grammar of declarations with blocks, `if`, `while` and `return`, as shapes.
pub open spec fn decl_m(ts: Seq<Token>, p: int) -> Option<(StmtM, int)>
    decreases ts.len() - p, 4int,
{
    if at(ts, p, TokenType::Class) {
        class_m(ts, p + 1)
    } else if at(ts, p, TokenType::Fun) {
        match function_m(ts, p + 1) {
            Some((f, q)) => Some((StmtM::Function(f), q)),
            None => None,
        }
    } else if at(ts, p, TokenType::Var) {
        shape(var_g(ts, p + 1))
    } else {
        stmt_gm(ts, p)
    }
}

pub open spec fn stmt_gm(ts: Seq<Token>, p: int) -> Option<(StmtM, int)>
    decreases ts.len() - p, 3int,
{
    if at(ts, p, TokenType::For) {
        for_m(ts, p + 1)
    } else if at(ts, p, TokenType::If) {
        if_m(ts, p + 1)
    } else if at(ts, p, TokenType::Print) {
        shape(print_g(ts, p + 1))
    } else if at(ts, p, TokenType::Return) {
        return_m(ts, p)
    } else if at(ts, p, TokenType::While) {
        while_m(ts, p + 1)
    } else if at(ts, p, TokenType::LeftBrace) {
        match block_m(ts, p + 1) {
            Some((ss, q)) => Some((StmtM::Block(ss), q)),
            None => None,
        }
    } else {
        shape(expr_stmt_g(ts, p))
    }
}

/// After `if`.
pub open spec fn if_m(ts: Seq<Token>, p: int) -> Option<(StmtM, int)>
    decreases ts.len() - p, 2int,
{
    if at(ts, p, TokenType::LeftParen) {
        match expression_g(ts, p + 1) {
            Some((c, q)) => if p < q < ts.len() && at(ts, q, TokenType::RightParen) {
                match stmt_gm(ts, q + 1) {
                    Some((t, u)) => if q < u < ts.len() {
                        if at(ts, u, TokenType::Else) {
                            match stmt_gm(ts, u + 1) {
                                Some((e, w)) => Some((StmtM::If(c, Box::new(t), Some(Box::new(e))), w)),
                                None => None,
                            }
                        } else {
                            Some((StmtM::If(c, Box::new(t), None), u))
                        }
                    } else {
                        None
                    },
                    None => None,
                }
            } else {
                None
            },
            None => None,
        }
    } else {
        None
    }
}

/// After `for (`: the initializer, if any, and where it ends.
pub open spec fn for_init(ts: Seq<Token>, p: int) -> Option<(Option<StmtM>, int)> {
    if at(ts, p, TokenType::Semicolon) {
        Some((None, p + 1))
    } else if at(ts, p, TokenType::Var) {
        match var_g(ts, p + 1) {
            Some((st, s)) => Some((Some(stmt_m(st)), s)),
            None => None,
        }
    } else {
        match expr_stmt_g(ts, p) {
            Some((st, s)) => Some((Some(stmt_m(st)), s)),
            None => None,
        }
    }
}

/// The loop condition, `true` when left out, and where it ends.
pub open spec fn for_cond(ts: Seq<Token>, p: int) -> Option<(Expr, int)> {
    if at(ts, p, TokenType::Semicolon) {
        Some((Expr::Literal(Object::True), p))
    } else {
        expression_g(ts, p)
    }
}

/// The increment, if any, and where it ends.
pub open spec fn for_inc(ts: Seq<Token>, p: int) -> Option<(Option<Expr>, int)> {
    if at(ts, p, TokenType::RightParen) {
        Some((None, p))
    } else {
        match expression_g(ts, p) {
            Some((e, s)) => Some((Some(e), s)),
            None => None,
        }
    }
}

pub open spec fn opt_stmt_m(o: Option<Stmt>) -> Option<StmtM> {
    match o {
        Some(st) => Some(stmt_m(st)),
        None => None,
    }
}

pub open spec fn cond_or_true(o: Option<Box<Expr>>) -> Expr {
    match o {
        Some(c) => *c,
        None => Expr::Literal(Object::True),
    }
}

/// The block a `for` loop stands for.
pub open spec fn for_shape(im: Option<StmtM>, c: Expr, ie: Option<Expr>, b: StmtM) -> StmtM {
    let body = match ie {
        Some(e) => StmtM::Block(seq![b, StmtM::Expression(e)]),
        None => b,
    };
    let looped = StmtM::While(c, Box::new(body));
    StmtM::Block(
        match im {
            Some(st) => seq![st, looped],
            None => seq![looped],
        },
    )
}

/// After `for`: the loop as a block holding the initializer and a `while`
/// loop whose body runs the increment after the loop's own body.
pub open spec fn for_m(ts: Seq<Token>, p: int) -> Option<(StmtM, int)>
    decreases ts.len() - p, 2int,
{
    if !at(ts, p, TokenType::LeftParen) {
        None
    } else {
        match for_init(ts, p + 1) {
            Some((im, q2)) => match for_cond(ts, q2) {
                Some((c, q3)) => if at(ts, q3, TokenType::Semicolon) {
                    match for_inc(ts, q3 + 1) {
                        Some((ie, q5)) => if p < q5 < ts.len() && at(ts, q5, TokenType::RightParen) {
                            match stmt_gm(ts, q5 + 1) {
                                Some((b, u)) => Some((for_shape(im, c, ie, b), u)),
                                None => None,
                            }
                        } else {
                            None
                        },
                        None => None,
                    }
                } else {
                    None
                },
                None => None,
            },
            None => None,
        }
    }
}

proof fn lemma_stmts_m_small(v: Seq<Stmt>)
    requires
        1 <= v.len() <= 2,
    ensures
        v.len() == 1 ==> stmts_m(v) == seq![stmt_m(v[0])],
        v.len() == 2 ==> stmts_m(v) == seq![stmt_m(v[0]), stmt_m(v[1])],
{
    let d = v.drop_last();
    if v.len() == 2 {
        let d2 = d.drop_last();
        assert(d2 =~= Seq::<Stmt>::empty());
        assert(stmts_m(d2) == Seq::<StmtM>::empty());
        assert(d.last() == v[0]);
        assert(stmts_m(d) =~= seq![stmt_m(v[0])]);
        assert(v.last() == v[1]);
        assert(stmts_m(v) =~= seq![stmt_m(v[0]), stmt_m(v[1])]);
    } else {
        assert(d =~= Seq::<Stmt>::empty());
        assert(stmts_m(d) == Seq::<StmtM>::empty());
        assert(v.last() == v[0]);
        assert(stmts_m(v) =~= seq![stmt_m(v[0])]);
    }
}

/// After `while`.
pub open spec fn while_m(ts: Seq<Token>, p: int) -> Option<(StmtM, int)>
    decreases ts.len() - p, 2int,
{
    if at(ts, p, TokenType::LeftParen) {
        match expression_g(ts, p + 1) {
            Some((c, q)) => if p < q < ts.len() && at(ts, q, TokenType::RightParen) {
                match stmt_gm(ts, q + 1) {
                    Some((b, u)) => Some((StmtM::While(c, Box::new(b)), u)),
                    None => None,
                }
            } else {
                None
            },
            None => None,
        }
    } else {
        None
    }
}

/// At `return`.
pub open spec fn return_m(ts: Seq<Token>, p: int) -> Option<(StmtM, int)> {
    if at(ts, p + 1, TokenType::Semicolon) {
        Some((StmtM::Return(ts[p], None), p + 2))
    } else {
        match expression_g(ts, p + 1) {
            Some((v, q)) => if at(ts, q, TokenType::Semicolon) {
                Some((StmtM::Return(ts[p], Some(v)), q + 1))
            } else {
                None
            },
            None => None,
        }
    }
}

/// After `{`: the declarations up to the closing `}`.
pub open spec fn block_m(ts: Seq<Token>, p: int) -> Option<(Seq<StmtM>, int)>
    decreases ts.len() - p, 5int,
{
    if !(0 <= p < ts.len()) || ts[p].ttype == TokenType::Eof {
        None
    } else if at(ts, p, TokenType::RightBrace) {
        Some((Seq::empty(), p + 1))
    } else {
        match decl_m(ts, p) {
            Some((st, q)) => if p < q <= ts.len() {
                match block_m(ts, q) {
                    Some((rest, r)) => Some((seq![st] + rest, r)),
                    None => None,
                }
            } else {
                None
            },
            None => None,
        }
    }
}

/// At the first parameter: the names separated by commas.
pub open spec fn params_m(ts: Seq<Token>, p: int) -> Option<(Seq<Token>, int)>
    decreases ts.len() - p,
{
    if at(ts, p, TokenType::Identifier) {
        if at(ts, p + 1, TokenType::Comma) {
            match params_m(ts, p + 2) {
                Some((ps, q)) => Some((seq![ts[p]] + ps, q)),
                None => None,
            }
        } else {
            Some((seq![ts[p]], p + 1))
        }
    } else {
        None
    }
}

/// At a function's name: its parameters and its body.
pub open spec fn function_m(ts: Seq<Token>, p: int) -> Option<(FunM, int)>
    decreases ts.len() - p, 6int,
{
    if at(ts, p, TokenType::Identifier) && at(ts, p + 1, TokenType::LeftParen) {
        let ps = if at(ts, p + 2, TokenType::RightParen) {
            Some((Seq::<Token>::empty(), p + 2))
        } else {
            params_m(ts, p + 2)
        };
        match ps {
            Some((params, q)) => if p + 2 <= q && at(ts, q, TokenType::RightParen) && at(ts, q + 1, TokenType::LeftBrace) {
                match block_m(ts, q + 2) {
                    Some((body, e)) => Some((FunM { name: ts[p], params, body }, e)),
                    None => None,
                }
            } else {
                None
            },
            None => None,
        }
    } else {
        None
    }
}

/// After `class`.
pub open spec fn class_m(ts: Seq<Token>, p: int) -> Option<(StmtM, int)>
    decreases ts.len() - p, 8int,
{
    if at(ts, p, TokenType::Identifier) {
        let sup = if at(ts, p + 1, TokenType::Less) {
            if at(ts, p + 2, TokenType::Identifier) {
                Some((Some(ts[p + 2]), p + 3))
            } else {
                None
            }
        } else {
            Some((None, p + 1))
        };
        match sup {
            Some((sc, q)) => if at(ts, q, TokenType::LeftBrace) {
                match methods_m(ts, q + 1) {
                    Some((ms, e)) => Some((StmtM::Class(ts[p], sc, ms), e)),
                    None => None,
                }
            } else {
                None
            },
            None => None,
        }
    } else {
        None
    }
}

/// After a class's `{`: its methods up to the closing `}`.
pub open spec fn methods_m(ts: Seq<Token>, p: int) -> Option<(Seq<FunM>, int)>
    decreases ts.len() - p, 7int,
{
    if !(0 <= p < ts.len()) || ts[p].ttype == TokenType::Eof {
        None
    } else if at(ts, p, TokenType::RightBrace) {
        Some((Seq::empty(), p + 1))
    } else {
        match function_m(ts, p) {
            Some((f, q)) => if p < q <= ts.len() {
                match methods_m(ts, q) {
                    Some((rest, r)) => Some((seq![f] + rest, r)),
                    None => None,
                }
            } else {
                None
            },
            None => None,
        }
    }
}

/// A program of such declarations, as shapes, from `p` to the end of input.
pub open spec fn program_m(ts: Seq<Token>, p: int) -> Option<Seq<StmtM>>
    decreases ts.len() - p,
{
    if !(0 <= p < ts.len()) {
        None
    } else if ts[p].ttype == TokenType::Eof {
        Some(Seq::empty())
    } else {
        match decl_m(ts, p) {
            Some((st, q)) => if p < q <= ts.len() {
                match program_m(ts, q) {
                    Some(rest) => Some(seq![st] + rest),
                    None => None,
                }
            } else {
                None
            },
            None => None,
        }
    }
}

/// Where an expression at `p` is not followed by `;`: the position of the
/// token found instead.
pub open spec fn semi_missing_at(ts: Seq<Token>, p: int) -> Option<int> {
    match expression_g(ts, p) {
        Some((_, q)) => if at(ts, q, TokenType::Semicolon) {
            None
        } else {
            Some(q)
        },
        None => None,
    }
}

/// Where a `print` or expression statement at `p` lacks its `;`: the position of
/// the token found instead.
pub open spec fn missing_semicolon(ts: Seq<Token>, p: int) -> Option<int> {
    if at(ts, p, TokenType::Print) {
        semi_missing_at(ts, p + 1)
    } else if at(ts, p, TokenType::Class) || at(ts, p, TokenType::Fun) || at(ts, p, TokenType::Var) || at(
        ts,
        p,
        TokenType::For,
    ) || at(ts, p, TokenType::If) || at(ts, p, TokenType::Return) || at(ts, p, TokenType::While) || at(
        ts,
        p,
        TokenType::LeftBrace,
    ) {
        None
    } else {
        semi_missing_at(ts, p)
    }
}

/// The first parse error of a program of modelled declarations that ends in a
/// `print` or expression statement without its `;`: where it is reported.
pub open spec fn prog_err(ts: Seq<Token>, p: int) -> Option<int>
    decreases ts.len() - p,
{
    if !(0 <= p < ts.len()) || ts[p].ttype == TokenType::Eof {
        None
    } else {
        match decl_m(ts, p) {
            Some((_, q)) => if p < q <= ts.len() {
                prog_err(ts, q)
            } else {
                None
            },
            None => missing_semicolon(ts, p),
        }
    }
}

/// The exec result has the shape and end position the grammar gives.
pub open spec fn gives_m(g: Option<(StmtM, int)>, r: Result<(Stmt, usize), LoxResult>) -> bool {
    g matches Some((m, q)) ==> (r matches Ok((s2, q2)) && stmt_m(s2) == m && q2 == q)
}

/// The exec result holds the statement and end position the grammar gives.
pub open spec fn gives_stmt(g: Option<(Stmt, int)>, r: Result<(Stmt, usize), LoxResult>) -> bool {
    g matches Some((st, q)) ==> (r matches Ok((s2, q2)) && s2 == st && q2 == q)
}

/// `e` is the parse error for an unexpected token at `p`: its line, and its
/// lexeme (`end` for the end of input).
pub open spec fn unexpected_at(ts: Seq<Token>, p: int, e: LoxResult) -> bool {
    e matches LoxResult::ParseError { line, lexeme, kind, .. } && line == ts[p].line
        && kind == ParseErrorKind::UnexpectedToken && lexeme@ == (if ts[p].lexeme@.len() == 0 {
        seq!['e', 'n', 'd']
    } else {
        ts[p].lexeme@
    })
}

/// Whether a primary expression can start at `p`.
pub open spec fn starts_primary(ts: Seq<Token>, p: int) -> bool {
    at(ts, p, TokenType::False) || at(ts, p, TokenType::True) || at(ts, p, TokenType::Nil) || at(
        ts,
        p,
        TokenType::Number,
    ) || at(ts, p, TokenType::String) || at(ts, p, TokenType::Identifier) || at(ts, p, TokenType::This)
        || at(ts, p, TokenType::Super) || at(ts, p, TokenType::LeftParen)
}

/// A token that starts a statement.
pub open spec fn starts_statement(t: TokenType) -> bool {
    t == TokenType::Class || t == TokenType::Fun || t == TokenType::Var || t == TokenType::For || t
        == TokenType::If || t == TokenType::While || t == TokenType::Print || t == TokenType::Return
}

/// A place where parsing may resume after an error: the end of input, just past
/// a `;`, or before a token that starts a statement.
pub open spec fn resume_point(ts: Seq<Token>, j: int) -> bool {
    ts[j].ttype == TokenType::Eof || ts[j - 1].ttype == TokenType::Semicolon || starts_statement(ts[j].ttype)
}

/// An assignment whose target is neither a variable nor a property: the line
/// of its `=`, where the error is reported.
pub open spec fn bad_target(ts: Seq<Token>, p: int) -> Option<usize> {
    match level_g(ts, p, 11) {
        Some((e, q)) => if at(ts, q, TokenType::Assign) && assignment_g(ts, q + 1) is Some && !(e is Variable)
            && !(e is Get) {
            Some(ts[q].line)
        } else {
            None
        },
        None => None,
    }
}

pub struct Parser {
    pub tokens: Vec<Token>,
    pub current: usize,
}

impl Parser {
    /// The token sequence ends with the end-of-input token.
    pub open spec fn wf(&self) -> bool {
        &&& self.tokens.len() > 0
        &&& self.tokens@.last().ttype == TokenType::Eof
        &&& self.current < self.tokens.len()
    }

    pub open spec fn len(&self) -> int {
        self.tokens.len() as int
    }

    /// A parser over `tokens`; an end-of-input token is added when they lack one.
    pub fn new(tokens: Vec<Token>) -> (p: Parser)
        ensures
            p.wf(),
            p.current == 0,
            tokens.len() > 0 && tokens@.last().ttype == TokenType::Eof ==> p.tokens@ == tokens@,
            !(tokens.len() > 0 && tokens@.last().ttype == TokenType::Eof) ==> p.tokens@.drop_last() == tokens@,
    {
        let mut tokens = tokens;
        let n = tokens.len();
        if n == 0 || tokens[n - 1].ttype != TokenType::Eof {
            let line = if n == 0 {
                1
            } else {
                tokens[n - 1].line
            };
            let ghost before = tokens@;
            tokens.push(Token::eof(line));
            proof {
                assert(tokens@.drop_last() == before);
            }
        }
        Parser { tokens, current: 0 }
    }

    fn at_end(&self, p: usize) -> (r: bool)
        requires
            self.wf(),
            p < self.tokens.len(),
        ensures
            r == (self.tokens@[p as int].ttype == TokenType::Eof),
    {
        self.tokens[p].ttype == TokenType::Eof
    }

    fn check(&self, p: usize, t: TokenType) -> (r: bool)
        requires
            self.wf(),
            p < self.tokens.len(),
        ensures
            r == (self.tokens@[p as int].ttype != TokenType::Eof && self.tokens@[p as int].ttype == t),
            r ==> p + 1 < self.tokens.len(),
    {
        !self.at_end(p) && self.tokens[p].ttype == t
    }

    fn error_at(&self, p: usize, message: &str) -> (e: LoxResult)
        requires
            p < self.tokens.len(),
        ensures
            unexpected_at(self.tokens@, p as int, e),
    {
        let t = &self.tokens[p];
        LoxResult::parse_error(t.line, ParseErrorKind::UnexpectedToken, message, t.lexeme.as_str())
    }

    fn consume(&self, p: usize, t: TokenType, message: &str) -> (r: Result<usize, LoxResult>)
        requires
            self.wf(),
            p < self.tokens.len(),
        ensures
            r matches Ok(q) ==> q == p + 1 && q < self.tokens.len() && self.tokens@[p as int].ttype == t,
            r is Ok == at(self.tokens@, p as int, t),
            r matches Err(e) ==> unexpected_at(self.tokens@, p as int, e),
            r matches Err(e) ==> e is ParseError,
    {
        if self.check(p, t) {
            Ok(p + 1)
        } else {
            Err(self.error_at(p, message))
        }
    }

    pub fn expression(&self, p: usize) -> (r: Result<(Box<Expr>, usize), LoxResult>)
        requires
            self.wf(),
            p < self.tokens.len(),
        ensures
            progress(self.len(), p as int, r),
            gives(expression_g(self.tokens@, p as int), r),
        decreases self.tokens.len() - p, 13int,
    {
        self.assignment(p)
    }

    fn assignment(&self, p: usize) -> (r: Result<(Box<Expr>, usize), LoxResult>)
        requires
            self.wf(),
            p < self.tokens.len(),
        ensures
            progress(self.len(), p as int, r),
            gives(assignment_g(self.tokens@, p as int), r),
            call_target(self.tokens@, p as int) matches Some(l) ==> (r matches Err(
                LoxResult::ParseError { line, lexeme, kind, .. },
            ) && line == l && kind == ParseErrorKind::InvalidAssignmentTarget && lexeme@ == seq!['=']),
            bad_target(self.tokens@, p as int) matches Some(l) ==> (r matches Err(
                LoxResult::ParseError { line, lexeme, kind, .. },
            ) && line == l && kind == ParseErrorKind::InvalidAssignmentTarget && lexeme@ == seq!['=']),
        decreases self.tokens.len() - p, 12int,
    {
        proof {
            reveal_strlit("=");
            assert("="@ =~= seq!['=']);
        }
        let (expr, q) = match self.or(p) {
            Ok(x) => x,
            Err(e) => return Err(e),
        };
        if self.check(q, TokenType::Assign) {
            let line = self.tokens[q].line;
            let (value, s) = match self.assignment(q + 1) {
                Ok(x) => x,
                Err(e) => return Err(e),
            };
            match *expr {
                Expr::Variable(name) => Ok((Box::new(Expr::Assign(name, value)), s)),
                Expr::Get(object, name) => Ok((Box::new(Expr::SetProperty(object, name, value)), s)),
                _ => Err(
                    LoxResult::parse_error(
                        line,
                        ParseErrorKind::InvalidAssignmentTarget,
                        "Invalid assignment target.",
                        "=",
                    ),
                ),
            }
        } else {
            Ok((expr, q))
        }
    }

    fn or(&self, p: usize) -> (r: Result<(Box<Expr>, usize), LoxResult>)
        requires
            self.wf(),
            p < self.tokens.len(),
        ensures
            progress(self.len(), p as int, r),
            gives(level_g(self.tokens@, p as int, 11), r),
            call_assign_at(self.tokens@, p as int) matches Some(e) ==> (r matches Ok((x, q)) && *x is Call && q == e),
        decreases self.tokens.len() - p, 11int,
    {
        let (mut expr, mut q) = match self.and(p) {
            Ok(x) => x,
            Err(e) => return Err(e),
        };
        while self.check(q, TokenType::Or)
            invariant
                self.wf(),
                p < q < self.tokens.len(),
                call_assign_at(self.tokens@, p as int) matches Some(e) ==> (*expr is Call && q == e),
                level_g(self.tokens@, p as int, 11) is Some ==> level_g(self.tokens@, p as int, 11) == level_rest(
                    self.tokens@,
                    *expr,
                    q as int,
                    11,
                ),
            decreases self.tokens.len() - q,
        {
            let op = self.tokens[q].duplicate();
            let (right, s) = match self.and(q + 1) {
                Ok(x) => x,
                Err(e) => return Err(e),
            };
            expr = Box::new(Expr::Logical(expr, op, right));
            q = s;
        }
        Ok((expr, q))
    }

    fn and(&self, p: usize) -> (r: Result<(Box<Expr>, usize), LoxResult>)
        requires
            self.wf(),
            p < self.tokens.len(),
        ensures
            progress(self.len(), p as int, r),
            gives(level_g(self.tokens@, p as int, 10), r),
            call_assign_at(self.tokens@, p as int) matches Some(e) ==> (r matches Ok((x, q)) && *x is Call && q == e),
        decreases self.tokens.len() - p, 10int,
    {
        let (mut expr, mut q) = match self.equality(p) {
            Ok(x) => x,
            Err(e) => return Err(e),
        };
        while self.check(q, TokenType::And)
            invariant
                self.wf(),
                p < q < self.tokens.len(),
                call_assign_at(self.tokens@, p as int) matches Some(e) ==> (*expr is Call && q == e),
                level_g(self.tokens@, p as int, 10) is Some ==> level_g(self.tokens@, p as int, 10) == level_rest(
                    self.tokens@,
                    *expr,
                    q as int,
                    10,
                ),
            decreases self.tokens.len() - q,
        {
            let op = self.tokens[q].duplicate();
            let (right, s) = match self.equality(q + 1) {
                Ok(x) => x,
                Err(e) => return Err(e),
            };
            expr = Box::new(Expr::Logical(expr, op, right));
            q = s;
        }
        Ok((expr, q))
    }

    fn equality(&self, p: usize) -> (r: Result<(Box<Expr>, usize), LoxResult>)
        requires
            self.wf(),
            p < self.tokens.len(),
        ensures
            progress(self.len(), p as int, r),
            gives(level_g(self.tokens@, p as int, 9), r),
            call_assign_at(self.tokens@, p as int) matches Some(e) ==> (r matches Ok((x, q)) && *x is Call && q == e),
        decreases self.tokens.len() - p, 9int,
    {
        let (mut expr, mut q) = match self.comparison(p) {
            Ok(x) => x,
            Err(e) => return Err(e),
        };
        while self.check(q, TokenType::BangEqual) || self.check(q, TokenType::Equals)
            invariant
                self.wf(),
                p < q < self.tokens.len(),
                call_assign_at(self.tokens@, p as int) matches Some(e) ==> (*expr is Call && q == e),
                level_g(self.tokens@, p as int, 9) is Some ==> level_g(self.tokens@, p as int, 9) == level_rest(
                    self.tokens@,
                    *expr,
                    q as int,
                    9,
                ),
            decreases self.tokens.len() - q,
        {
            let op = self.tokens[q].duplicate();
            let (right, s) = match self.comparison(q + 1) {
                Ok(x) => x,
                Err(e) => return Err(e),
            };
            expr = Box::new(Expr::Binary(expr, op, right));
            q = s;
        }
        Ok((expr, q))
    }

    fn comparison(&self, p: usize) -> (r: Result<(Box<Expr>, usize), LoxResult>)
        requires
            self.wf(),
            p < self.tokens.len(),
        ensures
            progress(self.len(), p as int, r),
            gives(level_g(self.tokens@, p as int, 8), r),
            call_assign_at(self.tokens@, p as int) matches Some(e) ==> (r matches Ok((x, q)) && *x is Call && q == e),
        decreases self.tokens.len() - p, 8int,
    {
        let (mut expr, mut q) = match self.term(p) {
            Ok(x) => x,
            Err(e) => return Err(e),
        };
        while self.check(q, TokenType::Greater) || self.check(q, TokenType::GreaterEqual)
            || self.check(q, TokenType::Less) || self.check(q, TokenType::LessEqual)
            invariant
                self.wf(),
                p < q < self.tokens.len(),
                call_assign_at(self.tokens@, p as int) matches Some(e) ==> (*expr is Call && q == e),
                level_g(self.tokens@, p as int, 8) is Some ==> level_g(self.tokens@, p as int, 8) == level_rest(
                    self.tokens@,
                    *expr,
                    q as int,
                    8,
                ),
            decreases self.tokens.len() - q,
        {
            let op = self.tokens[q].duplicate();
            let (right, s) = match self.term(q + 1) {
                Ok(x) => x,
                Err(e) => return Err(e),
            };
            expr = Box::new(Expr::Binary(expr, op, right));
            q = s;
        }
        Ok((expr, q))
    }

    fn term(&self, p: usize) -> (r: Result<(Box<Expr>, usize), LoxResult>)
        requires
            self.wf(),
            p < self.tokens.len(),
        ensures
            progress(self.len(), p as int, r),
            gives(level_g(self.tokens@, p as int, 7), r),
            call_assign_at(self.tokens@, p as int) matches Some(e) ==> (r matches Ok((x, q)) && *x is Call && q == e),
        decreases self.tokens.len() - p, 7int,
    {
        let (mut expr, mut q) = match self.factor(p) {
            Ok(x) => x,
            Err(e) => return Err(e),
        };
        while self.check(q, TokenType::Minus) || self.check(q, TokenType::Plus)
            invariant
                self.wf(),
                p < q < self.tokens.len(),
                call_assign_at(self.tokens@, p as int) matches Some(e) ==> (*expr is Call && q == e),
                level_g(self.tokens@, p as int, 7) is Some ==> level_g(self.tokens@, p as int, 7) == level_rest(
                    self.tokens@,
                    *expr,
                    q as int,
                    7,
                ),
            decreases self.tokens.len() - q,
        {
            let op = self.tokens[q].duplicate();
            let (right, s) = match self.factor(q + 1) {
                Ok(x) => x,
                Err(e) => return Err(e),
            };
            expr = Box::new(Expr::Binary(expr, op, right));
            q = s;
        }
        Ok((expr, q))
    }

    fn factor(&self, p: usize) -> (r: Result<(Box<Expr>, usize), LoxResult>)
        requires
            self.wf(),
            p < self.tokens.len(),
        ensures
            progress(self.len(), p as int, r),
            gives(level_g(self.tokens@, p as int, 6), r),
            call_assign_at(self.tokens@, p as int) matches Some(e) ==> (r matches Ok((x, q)) && *x is Call && q == e),
        decreases self.tokens.len() - p, 6int,
    {
        proof {
            assert(level_g(self.tokens@, p as int, 5) == unary_g(self.tokens@, p as int));
        }
        let (mut expr, mut q) = match self.unary(p) {
            Ok(x) => x,
            Err(e) => return Err(e),
        };
        while self.check(q, TokenType::Slash) || self.check(q, TokenType::Star)
            invariant
                self.wf(),
                p < q < self.tokens.len(),
                call_assign_at(self.tokens@, p as int) matches Some(e) ==> (*expr is Call && q == e),
                level_g(self.tokens@, p as int, 6) is Some ==> level_g(self.tokens@, p as int, 6) == level_rest(
                    self.tokens@,
                    *expr,
                    q as int,
                    6,
                ),
            decreases self.tokens.len() - q,
        {
            let op = self.tokens[q].duplicate();
            proof {
                assert(level_g(self.tokens@, q + 1, 5) == unary_g(self.tokens@, q + 1));
            }
            let (right, s) = match self.unary(q + 1) {
                Ok(x) => x,
                Err(e) => return Err(e),
            };
            expr = Box::new(Expr::Binary(expr, op, right));
            q = s;
        }
        Ok((expr, q))
    }

    fn unary(&self, p: usize) -> (r: Result<(Box<Expr>, usize), LoxResult>)
        requires
            self.wf(),
            p < self.tokens.len(),
        ensures
            progress(self.len(), p as int, r),
            gives(unary_g(self.tokens@, p as int), r),
            call_assign_at(self.tokens@, p as int) matches Some(e) ==> (r matches Ok((x, q)) && *x is Call && q == e),
        decreases self.tokens.len() - p, 5int,
    {
        if self.check(p, TokenType::Bang) || self.check(p, TokenType::Minus) {
            let op = self.tokens[p].duplicate();
            let (right, q) = match self.unary(p + 1) {
                Ok(x) => x,
                Err(e) => return Err(e),
            };
            return Ok((Box::new(Expr::Unary(op, right)), q));
        }
        self.call(p)
    }

    fn call(&self, p: usize) -> (r: Result<(Box<Expr>, usize), LoxResult>)
        requires
            self.wf(),
            p < self.tokens.len(),
        ensures
            progress(self.len(), p as int, r),
            gives(call_g(self.tokens@, p as int), r),
            call_assign_at(self.tokens@, p as int) matches Some(e) ==> (r matches Ok((x, q)) && *x is Call && q == e),
        decreases self.tokens.len() - p, 4int,
    {
        let (mut expr, mut q) = match self.primary(p) {
            Ok(x) => x,
            Err(e) => return Err(e),
        };
        loop
            invariant
                self.wf(),
                p < q < self.tokens.len(),
                call_g(self.tokens@, p as int) is Some ==> call_g(self.tokens@, p as int) == get_chain(
                    self.tokens@,
                    *expr,
                    q as int,
                ),
                call_operand(self.tokens@, p as int) is Some ==> call_operand(self.tokens@, p as int) == suffix_call_end(
                    self.tokens@,
                    q as int,
                    *expr is Call,
                ),
            ensures
                p < q < self.tokens.len(),
                call_g(self.tokens@, p as int) is Some ==> call_g(self.tokens@, p as int) == Some((*expr, q as int)),
                call_operand(self.tokens@, p as int) is Some ==> call_operand(self.tokens@, p as int) == Some(q as int)
                    && *expr is Call,
            decreases self.tokens.len() - q,
        {
            if self.check(q, TokenType::LeftParen) {
                let mut args: Vec<Expr> = Vec::new();
                let mut s = q + 1;
                if !self.check(s, TokenType::RightParen) {
                    loop
                        invariant_except_break
                            args_end(self.tokens@, q + 1) is Some ==> args_end(self.tokens@, q + 1) == args_list(
                                self.tokens@,
                                s as int,
                            ),
                        invariant
                            self.wf(),
                            p < q < s < self.tokens.len(),
                            call_g(self.tokens@, p as int) is None,
                            call_operand(self.tokens@, p as int) is Some ==> args_end(self.tokens@, q + 1) is Some,
                        ensures
                            p < q < s < self.tokens.len(),
                            args_end(self.tokens@, q + 1) is Some ==> args_end(self.tokens@, q + 1) == Some(s as int),
                        decreases self.tokens.len() - s,
                    {
                        let (arg, t) = match self.expression(s) {
                            Ok(x) => x,
                            Err(e) => return Err(e),
                        };
                        args.push(*arg);
                        s = t;
                        if self.check(s, TokenType::Comma) {
                            s = s + 1;
                        } else {
                            break;
                        }
                    }
                }
                let paren = self.tokens[s].duplicate();
                let u = match self.consume(s, TokenType::RightParen, "Expect ')' after arguments.") {
                    Ok(u) => u,
                    Err(e) => return Err(e),
                };
                expr = Box::new(Expr::Call(expr, paren, args));
                q = u;
            } else if self.check(q, TokenType::Dot) {
                let u = match self.consume(q + 1, TokenType::Identifier, "Expect property name after '.'.") {
                    Ok(u) => u,
                    Err(e) => return Err(e),
                };
                let name = self.tokens[q + 1].duplicate();
                expr = Box::new(Expr::Get(expr, name));
                q = u;
            } else {
                break;
            }
        }
        Ok((expr, q))
    }

    /// A literal, a name, `this`, `super.name`, or a parenthesised expression.
    fn primary(&self, p: usize) -> (r: Result<(Box<Expr>, usize), LoxResult>)
        requires
            self.wf(),
            p < self.tokens.len(),
        ensures
            progress(self.len(), p as int, r),
            gives(primary_g(self.tokens@, p as int), r),
            !starts_primary(self.tokens@, p as int) ==> (r matches Err(e) && unexpected_at(self.tokens@, p as int, e)),
            (at(self.tokens@, p as int, TokenType::Number) || at(self.tokens@, p as int, TokenType::String))
                && self.tokens@[p as int].literal is None ==> (r matches Err(e) && unexpected_at(
                self.tokens@,
                p as int,
                e,
            )),
        decreases self.tokens.len() - p, 3int,
    {
        let t = &self.tokens[p];
        if self.check(p, TokenType::False) {
            return Ok((Box::new(Expr::Literal(Object::False)), p + 1));
        }
        if self.check(p, TokenType::True) {
            return Ok((Box::new(Expr::Literal(Object::True)), p + 1));
        }
        if self.check(p, TokenType::Nil) {
            return Ok((Box::new(Expr::Literal(Object::Nil)), p + 1));
        }
        if self.check(p, TokenType::Number) || self.check(p, TokenType::String) {
            return match &t.literal {
                Some(v) => Ok((Box::new(Expr::Literal(v.duplicate())), p + 1)),
                None => Err(self.error_at(p, "Expect a literal value.")),
            };
        }
        if self.check(p, TokenType::Identifier) {
            return Ok((Box::new(Expr::Variable(t.duplicate())), p + 1));
        }
        if self.check(p, TokenType::This) {
            return Ok((Box::new(Expr::This(t.duplicate())), p + 1));
        }
        if self.check(p, TokenType::Super) {
            let q = match self.consume(p + 1, TokenType::Dot, "Expect '.' after 'super'.") {
                Ok(q) => q,
                Err(e) => return Err(e),
            };
            let s = match self.consume(q, TokenType::Identifier, "Expect superclass method name.") {
                Ok(s) => s,
                Err(e) => return Err(e),
            };
            return Ok((Box::new(Expr::Super(t.duplicate(), self.tokens[q].duplicate())), s));
        }
        if self.check(p, TokenType::LeftParen) {
            let (inner, q) = match self.expression(p + 1) {
                Ok(x) => x,
                Err(e) => return Err(e),
            };
            let s = match self.consume(q, TokenType::RightParen, "Expect ')' after expression.") {
                Ok(s) => s,
                Err(e) => return Err(e),
            };
            return Ok((Box::new(Expr::Grouping(inner)), s));
        }
        Err(self.error_at(p, "Expect expression."))
    }
}

impl Parser {
    fn expression_statement(&self, p: usize) -> (r: Result<(Stmt, usize), LoxResult>)
        requires
            self.wf(),
            p < self.tokens.len(),
        ensures
            progress(self.len(), p as int, r),
            semi_missing_at(self.tokens@, p as int) matches Some(k) ==> (r matches Err(e) && unexpected_at(
                self.tokens@,
                k,
                e,
            )),
            gives_stmt(expr_stmt_g(self.tokens@, p as int), r),
        decreases self.tokens.len() - p, 21int,
    {
        let (expr, q) = match self.expression(p) {
            Ok(x) => x,
            Err(e) => return Err(e),
        };
        match self.consume(q, TokenType::Semicolon, "Expect ';' after expression.") {
            Ok(s) => Ok((Stmt::Expression(expr), s)),
            Err(e) => Err(e),
        }
    }

    /// After `print`.
    fn print_statement(&self, p: usize) -> (r: Result<(Stmt, usize), LoxResult>)
        requires
            self.wf(),
            p < self.tokens.len(),
        ensures
            progress(self.len(), p as int, r),
            semi_missing_at(self.tokens@, p as int) matches Some(k) ==> (r matches Err(e) && unexpected_at(
                self.tokens@,
                k,
                e,
            )),
            gives_stmt(print_g(self.tokens@, p as int), r),
        decreases self.tokens.len() - p, 21int,
    {
        let (value, q) = match self.expression(p) {
            Ok(x) => x,
            Err(e) => return Err(e),
        };
        match self.consume(q, TokenType::Semicolon, "Expect ';' after value.") {
            Ok(s) => Ok((Stmt::Print(value), s)),
            Err(e) => Err(e),
        }
    }

    /// At `return`.
    fn return_statement(&self, p: usize) -> (r: Result<(Stmt, usize), LoxResult>)
        requires
            self.wf(),
            p + 1 < self.tokens.len(),
        ensures
            progress(self.len(), p as int, r),
            gives_m(return_m(self.tokens@, p as int), r),
        decreases self.tokens.len() - p, 21int,
    {
        let keyword = self.tokens[p].duplicate();
        let mut q = p + 1;
        let mut value: Option<Box<Expr>> = None;
        if !self.check(q, TokenType::Semicolon) {
            let (v, s) = match self.expression(q) {
                Ok(x) => x,
                Err(e) => return Err(e),
            };
            value = Some(v);
            q = s;
        }
        match self.consume(q, TokenType::Semicolon, "Expect ';' after return value.") {
            Ok(s) => Ok((Stmt::Return(keyword, value), s)),
            Err(e) => Err(e),
        }
    }

    /// After `var`.
    fn var_declaration(&self, p: usize) -> (r: Result<(Stmt, usize), LoxResult>)
        requires
            self.wf(),
            p < self.tokens.len(),
        ensures
            progress(self.len(), p as int, r),
            gives_stmt(var_g(self.tokens@, p as int), r),
        decreases self.tokens.len() - p, 21int,
    {
        let mut q = match self.consume(p, TokenType::Identifier, "Expect variable name.") {
            Ok(q) => q,
            Err(e) => return Err(e),
        };
        let name = self.tokens[p].duplicate();
        let mut initializer: Option<Box<Expr>> = None;
        if self.check(q, TokenType::Assign) {
            let (v, s) = match self.expression(q + 1) {
                Ok(x) => x,
                Err(e) => return Err(e),
            };
            initializer = Some(v);
            q = s;
        }
        match self.consume(q, TokenType::Semicolon, "Expect ';' after variable declaration.") {
            Ok(s) => Ok((Stmt::Variable(name, initializer), s)),
            Err(e) => Err(e),
        }
    }

    /// After `{`: the declarations up to the closing `}`.
    fn block(&self, p: usize) -> (r: Result<(Vec<Stmt>, usize), LoxResult>)
        requires
            self.wf(),
            p < self.tokens.len(),
        ensures
            progress(self.len(), p as int, r),
            block_m(self.tokens@, p as int) matches Some((ms, q)) ==> (r matches Ok((v, q2)) && stmts_m(v@) == ms && q2 == q),
        decreases self.tokens.len() - p, 24int,
    {
        let mut statements: Vec<Stmt> = Vec::new();
        let mut q = p;
        proof {
            assert(stmts_m(statements@) =~= Seq::<StmtM>::empty());
            if block_m(self.tokens@, p as int) is Some {
                let (all, _) = block_m(self.tokens@, p as int)->0;
                assert(stmts_m(statements@) + all =~= all);
            }
        }
        while !self.check(q, TokenType::RightBrace) && !self.at_end(q)
            invariant
                self.wf(),
                p <= q < self.tokens.len(),
                block_m(self.tokens@, p as int) matches Some((all, end)) ==> (block_m(self.tokens@, q as int) matches Some(
                    (rest, end2),
                ) && end2 == end && all == stmts_m(statements@) + rest),
            decreases self.tokens.len() - q,
        {
            let (stmt, s) = match self.declaration(q) {
                Ok(x) => x,
                Err(e) => return Err(e),
            };
            let ghost before = statements@;
            statements.push(stmt);
            proof {
                assert(statements@.drop_last() =~= before);
                if block_m(self.tokens@, p as int) is Some {
                    let (rest, _) = block_m(self.tokens@, s as int)->0;
                    let m = stmt_m(stmt);
                    assert(stmts_m(before) + (seq![m] + rest) =~= stmts_m(statements@) + rest);
                }
            }
            q = s;
        }
        proof {
            if block_m(self.tokens@, p as int) is Some && at(self.tokens@, q as int, TokenType::RightBrace) {
                assert(stmts_m(statements@) + Seq::<StmtM>::empty() =~= stmts_m(statements@));
            }
        }
        match self.consume(q, TokenType::RightBrace, "Expect '}' after block.") {
            Ok(s) => Ok((statements, s)),
            Err(e) => Err(e),
        }
    }

    /// After `if`.
    fn if_statement(&self, p: usize) -> (r: Result<(Stmt, usize), LoxResult>)
        requires
            self.wf(),
            p < self.tokens.len(),
        ensures
            progress(self.len(), p as int, r),
            gives_m(if_m(self.tokens@, p as int), r),
        decreases self.tokens.len() - p, 21int,
    {
        let q = match self.consume(p, TokenType::LeftParen, "Expect '(' after 'if'.") {
            Ok(q) => q,
            Err(e) => return Err(e),
        };
        let (condition, s) = match self.expression(q) {
            Ok(x) => x,
            Err(e) => return Err(e),
        };
        let t = match self.consume(s, TokenType::RightParen, "Expect ')' after if condition.") {
            Ok(t) => t,
            Err(e) => return Err(e),
        };
        let (then_branch, u) = match self.statement(t) {
            Ok(x) => x,
            Err(e) => return Err(e),
        };
        if self.check(u, TokenType::Else) {
            let (else_branch, v) = match self.statement(u + 1) {
                Ok(x) => x,
                Err(e) => return Err(e),
            };
            Ok((Stmt::If(condition, Box::new(then_branch), Some(Box::new(else_branch))), v))
        } else {
            Ok((Stmt::If(condition, Box::new(then_branch), None), u))
        }
    }

    /// After `while`.
    fn while_statement(&self, p: usize) -> (r: Result<(Stmt, usize), LoxResult>)
        requires
            self.wf(),
            p < self.tokens.len(),
        ensures
            progress(self.len(), p as int, r),
            gives_m(while_m(self.tokens@, p as int), r),
        decreases self.tokens.len() - p, 21int,
    {
        let q = match self.consume(p, TokenType::LeftParen, "Expect '(' after 'while'.") {
            Ok(q) => q,
            Err(e) => return Err(e),
        };
        let (condition, s) = match self.expression(q) {
            Ok(x) => x,
            Err(e) => return Err(e),
        };
        let t = match self.consume(s, TokenType::RightParen, "Expect ')' after condition.") {
            Ok(t) => t,
            Err(e) => return Err(e),
        };
        let (body, u) = match self.statement(t) {
            Ok(x) => x,
            Err(e) => return Err(e),
        };
        Ok((Stmt::While(condition, Box::new(body)), u))
    }

    /// After `for`: the loop becomes a `while` loop inside a block.
    #[verifier::spinoff_prover]
    #[verifier::rlimit(100)]
    fn for_statement(&self, p: usize) -> (r: Result<(Stmt, usize), LoxResult>)
        requires
            self.wf(),
            p < self.tokens.len(),
        ensures
            progress(self.len(), p as int, r),
            gives_m(for_m(self.tokens@, p as int), r),
        decreases self.tokens.len() - p, 21int,
    {
        let mut q = match self.consume(p, TokenType::LeftParen, "Expect '(' after 'for'.") {
            Ok(q) => q,
            Err(e) => return Err(e),
        };
        let mut initializer: Option<Stmt> = None;
        if self.check(q, TokenType::Semicolon) {
            q = q + 1;
        } else if self.check(q, TokenType::Var) {
            let (init, s) = match self.var_declaration(q + 1) {
                Ok(x) => x,
                Err(e) => return Err(e),
            };
            initializer = Some(init);
            q = s;
        } else {
            let (init, s) = match self.expression_statement(q) {
                Ok(x) => x,
                Err(e) => return Err(e),
            };
            initializer = Some(init);
            q = s;
        }
        let ghost im: Option<StmtM> = opt_stmt_m(initializer);
        let ghost q2 = q as int;
        assert(for_m(self.tokens@, p as int) is Some ==> for_init(self.tokens@, p + 1) == Some((im, q2)));
        let mut condition: Option<Box<Expr>> = None;
        if !self.check(q, TokenType::Semicolon) {
            let (c, s) = match self.expression(q) {
                Ok(x) => x,
                Err(e) => return Err(e),
            };
            condition = Some(c);
            q = s;
        }
        let ghost cexpr = cond_or_true(condition);
        assert(for_m(self.tokens@, p as int) is Some ==> for_cond(self.tokens@, q2) == Some((cexpr, q as int)));
        q = match self.consume(q, TokenType::Semicolon, "Expect ';' after loop condition.") {
            Ok(s) => s,
            Err(e) => return Err(e),
        };
        let ghost q2_after = q as int;
        let mut increment: Option<Box<Expr>> = None;
        if !self.check(q, TokenType::RightParen) {
            let (c, s) = match self.expression(q) {
                Ok(x) => x,
                Err(e) => return Err(e),
            };
            increment = Some(c);
            q = s;
        }
        let ghost ie = opt_expr(increment);
        assert(for_m(self.tokens@, p as int) is Some ==> for_inc(self.tokens@, q2_after) == Some((ie, q as int)));
        q = match self.consume(q, TokenType::RightParen, "Expect ')' after for clauses.") {
            Ok(s) => s,
            Err(e) => return Err(e),
        };
        let (body, u) = match self.statement(q) {
            Ok(x) => x,
            Err(e) => return Err(e),
        };
        let ghost body0 = body;
        let body = match increment {
            Some(inc) => {
                let mut parts: Vec<Stmt> = Vec::new();
                parts.push(body);
                parts.push(Stmt::Expression(inc));
                proof {
                    lemma_stmts_m_small(parts@);
                }
                Stmt::Block(parts)
            },
            None => body,
        };
        let ghost body_m = match ie {
            Some(e) => StmtM::Block(seq![stmt_m(body0), StmtM::Expression(e)]),
            None => stmt_m(body0),
        };
        assert(stmt_m(body) == body_m);
        let condition = match condition {
            Some(c) => c,
            None => Box::new(Expr::Literal(Object::True)),
        };
        assert(*condition == cexpr);
        let looped = Stmt::While(condition, Box::new(body));
        let ghost looped_m = StmtM::While(cexpr, Box::new(body_m));
        assert(stmt_m(looped) == looped_m);
        let mut outer: Vec<Stmt> = Vec::new();
        match initializer {
            Some(init) => outer.push(init),
            None => {},
        }
        outer.push(looped);
        proof {
            lemma_stmts_m_small(outer@);
            match im {
                Some(st) => {
                    assert(outer@.len() == 2 && stmt_m(outer@[0]) == st && outer@[1] == looped);
                    assert(stmts_m(outer@) =~= seq![st, looped_m]);
                },
                None => {
                    assert(outer@.len() == 1 && outer@[0] == looped);
                    assert(stmts_m(outer@) =~= seq![looped_m]);
                },
            }
            assert(stmt_m(Stmt::Block(outer)) == for_shape(im, cexpr, ie, stmt_m(body0)));
        }
        Ok((Stmt::Block(outer), u))
    }

    fn statement(&self, p: usize) -> (r: Result<(Stmt, usize), LoxResult>)
        requires
            self.wf(),
            p < self.tokens.len(),
        ensures
            progress(self.len(), p as int, r),
            missing_semicolon(self.tokens@, p as int) matches Some(k) ==> (r matches Err(e) && unexpected_at(
                self.tokens@,
                k,
                e,
            )),
            gives_m(stmt_gm(self.tokens@, p as int), r),
            gives_stmt(statement_g(self.tokens@, p as int), r),
        decreases self.tokens.len() - p, 22int,
    {
        if self.check(p, TokenType::For) {
            return self.for_statement(p + 1);
        }
        if self.check(p, TokenType::If) {
            return self.if_statement(p + 1);
        }
        if self.check(p, TokenType::Print) {
            return self.print_statement(p + 1);
        }
        if self.check(p, TokenType::Return) {
            return self.return_statement(p);
        }
        if self.check(p, TokenType::While) {
            return self.while_statement(p + 1);
        }
        if self.check(p, TokenType::LeftBrace) {
            return match self.block(p + 1) {
                Ok((stmts, q)) => Ok((Stmt::Block(stmts), q)),
                Err(e) => Err(e),
            };
        }
        self.expression_statement(p)
    }

    /// At the function's name: its parameters and its body.
    fn function(&self, p: usize) -> (r: Result<(FunctionDecl, usize), LoxResult>)
        requires
            self.wf(),
            p < self.tokens.len(),
        ensures
            progress(self.len(), p as int, r),
            function_m(self.tokens@, p as int) matches Some((f, q)) ==> (r matches Ok((d, q2)) && fun_m(d) == f && q2
                == q),
        decreases self.tokens.len() - p, 25int,
    {
        let q = match self.consume(p, TokenType::Identifier, "Expect function name.") {
            Ok(q) => q,
            Err(e) => return Err(e),
        };
        let name = self.tokens[p].duplicate();
        let mut s = match self.consume(q, TokenType::LeftParen, "Expect '(' after function name.") {
            Ok(s) => s,
            Err(e) => return Err(e),
        };
        let ghost s0 = s as int;
        let mut params: Vec<Token> = Vec::new();
        if !self.check(s, TokenType::RightParen) {
            proof {
                if params_m(self.tokens@, s0) is Some {
                    let (all, _) = params_m(self.tokens@, s0)->0;
                    assert(params@ + all =~= all);
                }
            }
            loop
                invariant_except_break
                    params_m(self.tokens@, s0) matches Some((all, end)) ==> (params_m(self.tokens@, s as int) matches Some(
                        (rest, end2),
                    ) && end2 == end && all == params@ + rest),
                invariant
                    self.wf(),
                    p < s < self.tokens.len(),
                    s0 <= s,
                    function_m(self.tokens@, p as int) is Some ==> params_m(self.tokens@, s0) is Some,
                ensures
                    p < s < self.tokens.len(),
                    s0 <= s,
                    params_m(self.tokens@, s0) matches Some((all, end)) ==> (params@ == all && s == end),
                decreases self.tokens.len() - s,
            {
                let t = match self.consume(s, TokenType::Identifier, "Expect parameter name.") {
                    Ok(t) => t,
                    Err(e) => return Err(e),
                };
                let ghost before = params@;
                let ghost at_s = s as int;
                params.push(self.tokens[s].duplicate());
                s = t;
                if self.check(s, TokenType::Comma) {
                    proof {
                        if params_m(self.tokens@, s0) is Some {
                            let (rest, _) = params_m(self.tokens@, at_s + 2)->0;
                            assert(before + (seq![self.tokens@[at_s]] + rest) =~= params@ + rest);
                        }
                    }
                    s = s + 1;
                } else {
                    proof {
                        if params_m(self.tokens@, s0) is Some {
                            assert(before + seq![self.tokens@[at_s]] =~= params@);
                        }
                    }
                    break;
                }
            }
        }
        let t = match self.consume(s, TokenType::RightParen, "Expect ')' after parameters.") {
            Ok(t) => t,
            Err(e) => return Err(e),
        };
        let u = match self.consume(t, TokenType::LeftBrace, "Expect '{' before function body.") {
            Ok(u) => u,
            Err(e) => return Err(e),
        };
        let (body, v) = match self.block(u) {
            Ok(x) => x,
            Err(e) => return Err(e),
        };
        Ok((FunctionDecl { name, params, body }, v))
    }

    /// After `class`.
    fn class_declaration(&self, p: usize) -> (r: Result<(Stmt, usize), LoxResult>)
        requires
            self.wf(),
            p < self.tokens.len(),
        ensures
            progress(self.len(), p as int, r),
            gives_m(class_m(self.tokens@, p as int), r),
        decreases self.tokens.len() - p, 26int,
    {
        let mut q = match self.consume(p, TokenType::Identifier, "Expect class name.") {
            Ok(q) => q,
            Err(e) => return Err(e),
        };
        let name = self.tokens[p].duplicate();
        let mut superclass: Option<Token> = None;
        if self.check(q, TokenType::Less) {
            let s = match self.consume(q + 1, TokenType::Identifier, "Expect superclass name.") {
                Ok(s) => s,
                Err(e) => return Err(e),
            };
            superclass = Some(self.tokens[q + 1].duplicate());
            q = s;
        }
        q = match self.consume(q, TokenType::LeftBrace, "Expect '{' before class body.") {
            Ok(s) => s,
            Err(e) => return Err(e),
        };
        let ghost q0 = q as int;
        let mut methods: Vec<FunctionDecl> = Vec::new();
        proof {
            assert(funs_m(methods@) =~= Seq::<FunM>::empty());
            if methods_m(self.tokens@, q0) is Some {
                let (all, _) = methods_m(self.tokens@, q0)->0;
                assert(funs_m(methods@) + all =~= all);
            }
        }
        while !self.check(q, TokenType::RightBrace) && !self.at_end(q)
            invariant
                self.wf(),
                p < q < self.tokens.len(),
                class_m(self.tokens@, p as int) is Some ==> methods_m(self.tokens@, q0) is Some,
                methods_m(self.tokens@, q0) matches Some((all, end)) ==> (methods_m(self.tokens@, q as int) matches Some(
                    (rest, end2),
                ) && end2 == end && all == funs_m(methods@) + rest),
            decreases self.tokens.len() - q,
        {
            let (m, s) = match self.function(q) {
                Ok(x) => x,
                Err(e) => return Err(e),
            };
            let ghost before = methods@;
            methods.push(m);
            proof {
                assert(methods@.drop_last() =~= before);
                if methods_m(self.tokens@, q0) is Some {
                    let (rest, _) = methods_m(self.tokens@, s as int)->0;
                    assert(funs_m(before) + (seq![fun_m(m)] + rest) =~= funs_m(methods@) + rest);
                }
            }
            q = s;
        }
        proof {
            if methods_m(self.tokens@, q0) is Some && at(self.tokens@, q as int, TokenType::RightBrace) {
                assert(funs_m(methods@) + Seq::<FunM>::empty() =~= funs_m(methods@));
            }
        }
        match self.consume(q, TokenType::RightBrace, "Expect '}' after class body.") {
            Ok(s) => Ok((Stmt::Class(name, superclass, methods), s)),
            Err(e) => Err(e),
        }
    }

    fn declaration(&self, p: usize) -> (r: Result<(Stmt, usize), LoxResult>)
        requires
            self.wf(),
            p < self.tokens.len(),
        ensures
            progress(self.len(), p as int, r),
            missing_semicolon(self.tokens@, p as int) matches Some(k) ==> (r matches Err(e) && unexpected_at(
                self.tokens@,
                k,
                e,
            )),
            gives_m(decl_m(self.tokens@, p as int), r),
            gives_stmt(declaration_g(self.tokens@, p as int), r),
        decreases self.tokens.len() - p, 23int,
    {
        if self.check(p, TokenType::Class) {
            return self.class_declaration(p + 1);
        }
        if self.check(p, TokenType::Fun) {
            return match self.function(p + 1) {
                Ok((f, q)) => Ok((Stmt::Function(f), q)),
                Err(e) => Err(e),
            };
        }
        if self.check(p, TokenType::Var) {
            return self.var_declaration(p + 1);
        }
        self.statement(p)
    }

    /// Skips to the next statement boundary: just past a `;`, or before a keyword
    /// that starts a statement, or the end of input.
    fn synchronize(&self, p: usize) -> (q: usize)
        requires
            self.wf(),
            p < self.tokens.len(),
            self.tokens@[p as int].ttype != TokenType::Eof,
        ensures
            p < q < self.tokens.len(),
            resume_point(self.tokens@, q as int),
            forall|j: int| p < j < q ==> !resume_point(self.tokens@, j),
    {
        let mut q = p + 1;
        while !self.at_end(q)
            invariant
                self.wf(),
                p < q < self.tokens.len(),
                forall|j: int| p < j < q ==> !resume_point(self.tokens@, j),
            decreases self.tokens.len() - q,
        {
            if self.tokens[q - 1].ttype == TokenType::Semicolon {
                return q;
            }
            let t = self.tokens[q].ttype;
            if t == TokenType::Class || t == TokenType::Fun || t == TokenType::Var || t == TokenType::For
                || t == TokenType::If || t == TokenType::While || t == TokenType::Print || t == TokenType::Return {
                return q;
            }
            q = q + 1;
        }
        q
    }

    /// Parses declarations up to the end of input. After an error the parser
    /// skips to the next statement boundary and goes on; the first error is the
    /// one returned.
    #[verifier::spinoff_prover]
    #[verifier::rlimit(100)]
    pub fn parse(&mut self) -> (r: Result<Vec<Stmt>, LoxResult>)
        requires
            old(self).wf(),
        ensures
            final(self).tokens@ == old(self).tokens@,
            final(self).wf(),
            final(self).tokens@[final(self).current as int].ttype == TokenType::Eof,
            r matches Err(e) ==> e is ParseError,
            program_g(old(self).tokens@, old(self).current as int) matches Some(ss) ==> (r matches Ok(v) && v@ == ss),
            program_m(old(self).tokens@, old(self).current as int) matches Some(ms) ==> (r matches Ok(v) && stmts_m(v@)
                == ms),
            prog_err(old(self).tokens@, old(self).current as int) matches Some(k) ==> (r matches Err(e) && unexpected_at(
                old(self).tokens@,
                k,
                e,
            )),
    {
        let mut statements: Vec<Stmt> = Vec::new();
        let mut first: Option<LoxResult> = None;
        let mut p = self.current;
        proof {
            assert(statements@ + program_g(self.tokens@, p as int)->0 =~= program_g(self.tokens@, p as int)->0);
            assert(stmts_m(statements@) =~= Seq::<StmtM>::empty());
            assert(stmts_m(statements@) + program_m(self.tokens@, p as int)->0 =~= program_m(self.tokens@, p as int)->0);
        }
        while !self.at_end(p)
            invariant
                self.wf(),
                p < self.tokens.len(),
                first matches Some(e) ==> e is ParseError,
                self.tokens@ == old(self).tokens@,
                program_g(self.tokens@, old(self).current as int) matches Some(all) ==> (first is None
                    && (program_g(self.tokens@, p as int) matches Some(rest) && all == statements@ + rest)),
                prog_err(self.tokens@, old(self).current as int) matches Some(k) ==> ((first is None && prog_err(
                    self.tokens@,
                    p as int,
                ) == Some(k)) || (first matches Some(e) && unexpected_at(self.tokens@, k, e))),
                program_m(self.tokens@, old(self).current as int) matches Some(all) ==> (first is None
                    && (program_m(self.tokens@, p as int) matches Some(rest) && all == stmts_m(statements@) + rest)),
            decreases self.tokens.len() - p,
        {
            match self.declaration(p) {
                Ok((stmt, q)) => {
                    let ghost before = statements@;
                    statements.push(stmt);
                    proof {
                        assert(statements@.drop_last() =~= before);
                        if program_m(self.tokens@, p as int) is Some {
                            let rest = program_m(self.tokens@, p as int)->0;
                            let rest2 = program_m(self.tokens@, q as int)->0;
                            assert(stmts_m(before) + rest =~= stmts_m(statements@) + rest2);
                        }
                        if program_g(self.tokens@, p as int) is Some {
                            let rest = program_g(self.tokens@, p as int)->0;
                            let rest2 = program_g(self.tokens@, q as int)->0;
                            assert(before + rest =~= statements@ + rest2);
                        }
                    }
                    p = q;
                },
                Err(e) => {
                    if first.is_none() {
                        first = Some(e);
                    }
                    p = self.synchronize(p);
                },
            }
        }
        self.current = p;
        proof {
            assert(statements@ + Seq::<Stmt>::empty() =~= statements@);
            assert(stmts_m(statements@) + Seq::<StmtM>::empty() =~= stmts_m(statements@));
        }
        match first {
            Some(e) => Err(e),
            None => Ok(statements),
        }
    }
}

/// Parses a token sequence into a program.
pub fn parse(tokens: Vec<Token>) -> (r: Result<Vec<Stmt>, LoxResult>)
    ensures
        r matches Err(e) ==> e is ParseError,
        (tokens.len() > 0 && tokens@.last().ttype == TokenType::Eof && program_g(tokens@, 0) is Some) ==> (r matches Ok(
            v,
        ) && v@ == program_g(tokens@, 0)->0),
        (tokens.len() > 0 && tokens@.last().ttype == TokenType::Eof && program_m(tokens@, 0) is Some) ==> (r matches Ok(
            v,
        ) && stmts_m(v@) == program_m(tokens@, 0)->0),
        (tokens.len() > 0 && tokens@.last().ttype == TokenType::Eof && prog_err(tokens@, 0) is Some) ==> (r matches Err(e)
            && unexpected_at(tokens@, prog_err(tokens@, 0)->0, e)),
{
    let mut parser = Parser::new(tokens);
    parser.parse()
}

} // verus!
