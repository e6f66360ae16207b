use vstd::prelude::*;
use crate::ast::{Expr, FunctionDecl, Stmt};
use crate::environment::{assigned, defined, lemma_lookup_defined, lookup, resolve, Environment, FrameModel};
use crate::error::{LoxResult, RuntimeErrorKind};
use crate::text::push_str;
use crate::token::{Object, Token, TokenType};
use crate::value::{binary_value, plain_text, truthy, unary_value, Value};

verus! {

/// How deeply calls may nest before evaluation fails with a stack overflow.
pub const MAX_CALL_DEPTH: u64 = 256;

/// How many loop iterations and calls one run of `interpret` may make.
pub const STEP_LIMIT: u64 = 100000000;

/// A function value: its declaration and the scope it closes over.
pub struct LoxFunction {
    pub decl: FunctionDecl,
    pub closure: usize,
    /// An `init` method: calling it yields the instance.
    pub is_initializer: bool,
}

/// A class value: its name, its superclass, and its methods as function handles.
pub struct LoxClass {
    pub name: String,
    pub superclass: Option<usize>,
    pub method_names: Vec<String>,
    pub method_ids: Vec<usize>,
}

/// An object: its class and its fields.
pub struct LoxInstance {
    pub class: usize,
    pub field_names: Vec<String>,
    pub field_values: Vec<Object>,
}

/// How a statement ended: normally, or by a `return` carrying its value.
pub enum Flow {
    Normal,
    Return(Object),
}

/// The result of an expression built from literals, variables and operators,
/// seen from scope `cur` of the scopes `env`; `None` for any other expression.
pub open spec fn simple_eval(env: Seq<FrameModel>, cur: int, e: Expr) -> Option<Result<Value, (usize, RuntimeErrorKind)>>
    decreases e,
{
    match e {
        Expr::Literal(o) => Some(Ok(o@)),
        Expr::Grouping(x) => simple_eval(env, cur, *x),
        Expr::Variable(name) => match lookup(env, cur, name.lexeme@) {
            Some(v) => Some(Ok(v)),
            None => Some(Err((name.line, RuntimeErrorKind::UndefinedVariable))),
        },
        Expr::Unary(op, x) => match simple_eval(env, cur, *x) {
            Some(Ok(v)) => Some(lift(unary_value(op.ttype, v), op.line)),
            other => other,
        },
        Expr::Binary(l, op, r) => match simple_eval(env, cur, *l) {
            Some(Ok(a)) => match simple_eval(env, cur, *r) {
                Some(Ok(b)) => Some(lift(binary_value(op.ttype, a, b), op.line)),
                other => other,
            },
            other => other,
        },
        Expr::Logical(l, op, r) => match simple_eval(env, cur, *l) {
            Some(Ok(a)) => if (op.ttype == TokenType::Or) == truthy(a) {
                Some(Ok(a))
            } else {
                simple_eval(env, cur, *r)
            },
            other => other,
        },
        _ => None,
    }
}

pub open spec fn lift(m: Result<Value, RuntimeErrorKind>, line: usize) -> Result<Value, (usize, RuntimeErrorKind)> {
    match m {
        Ok(v) => Ok(v),
        Err(k) => Err((line, k)),
    }
}

/// An executable result agrees with a result of the model.
pub open spec fn evaluated(r: Result<Object, LoxResult>, m: Result<Value, (usize, RuntimeErrorKind)>) -> bool {
    match m {
        Ok(v) => r matches Ok(o) && o@ == v,
        Err((line, k)) => r == Err::<Object, LoxResult>(LoxResult::RunTimeError { line, kind: k }),
    }
}

/// The functions, classes and instances an interpreter holds.
pub ghost struct Heap {
    pub functions: Seq<LoxFunction>,
    pub classes: Seq<LoxClass>,
    pub instances: Seq<LoxInstance>,
}

/// The display form `print` uses: functions and classes by name, instances by
/// their class's name.
pub open spec fn shown_in(h: Heap, v: Value) -> Seq<char> {
    match v {
        Value::Function(i) => if 0 <= i < h.functions.len() {
            seq!['<', 'f', 'n', ' '] + h.functions[i].decl.name.lexeme@ + seq!['>']
        } else {
            plain_text(v)
        },
        Value::Class(i) => if 0 <= i < h.classes.len() {
            h.classes[i].name@
        } else {
            plain_text(v)
        },
        Value::Instance(i) => if 0 <= i < h.instances.len() && h.instances[i].class < h.classes.len() {
            h.classes[h.instances[i].class as int].name@ + seq![' ', 'i', 'n', 's', 't', 'a', 'n', 'c', 'e']
        } else {
            plain_text(v)
        },
        _ => plain_text(v),
    }
}

/// Functions, classes, instances and the active scope are as they were.
pub open spec fn same_store(pre: &Interpreter, post: &Interpreter) -> bool {
    &&& post.functions == pre.functions
    &&& post.classes == pre.classes
    &&& post.instances == pre.instances
    &&& post.current == pre.current
}

/// Where a run stands: the scopes, the output so far, and the runtime error
/// (its line and kind) that stopped it, if one did.
pub type Outcome = (Seq<FrameModel>, Seq<Seq<char>>, Option<(usize, RuntimeErrorKind)>);

/// The outcome of evaluating an expression for a statement: on success, `ok`;
/// on a runtime error, the state as it was with that error.
pub open spec fn then_ok(
    m: Result<Value, (usize, RuntimeErrorKind)>,
    env: Seq<FrameModel>,
    printed: Seq<Seq<char>>,
    ok: Outcome,
) -> Outcome {
    match m {
        Ok(_) => ok,
        Err(err) => (env, printed, Some(err)),
    }
}

/// What running a statement does to the scopes `env` and the output `printed`,
/// run in scope `cur`: for `print`, `var`, expression statements (assignments
/// included), blocks and `if`, over expressions built from literals, variables
/// and operators, runtime errors included. `None` for any other statement.
pub open spec fn stmt_run(h: Heap, env: Seq<FrameModel>, cur: int, printed: Seq<Seq<char>>, s: Stmt) -> Option<Outcome>
    decreases s,
{
    match s {
        Stmt::Print(e) => match simple_eval(env, cur, *e) {
            Some(m) => Some(
                then_ok(m, env, printed, (env, printed.push(shown_in(h, m->Ok_0)), None)),
            ),
            None => None,
        },
        Stmt::Variable(name, init) => match init {
            None => Some((defined(env, cur, name.lexeme@, Value::Nil), printed, None)),
            Some(e) => match simple_eval(env, cur, *e) {
                Some(m) => Some(then_ok(m, env, printed, (defined(env, cur, name.lexeme@, m->Ok_0), printed, None))),
                None => None,
            },
        },
        Stmt::Expression(e) => match *e {
            Expr::Assign(name, x) => match simple_eval(env, cur, *x) {
                Some(m) => Some(
                    then_ok(
                        m,
                        env,
                        printed,
                        match resolve(env, cur, name.lexeme@) {
                            Some((f, sl)) => (assigned(env, f, sl, m->Ok_0), printed, None),
                            None => (env, printed, Some((name.line, RuntimeErrorKind::UndefinedVariable))),
                        },
                    ),
                ),
                None => None,
            },
            other => match simple_eval(env, cur, other) {
                Some(m) => Some(then_ok(m, env, printed, (env, printed, None))),
                None => None,
            },
        },
        Stmt::Block(stmts) => if env.len() + 1 < usize::MAX {
            stmts_run(
                h,
                env.push(FrameModel { enclosing: Some(cur), names: Seq::empty(), values: Seq::empty() }),
                env.len() as int,
                printed,
                stmts@,
            )
        } else {
            Some((env, printed, Some((0, RuntimeErrorKind::StepLimitExceeded))))
        },
        Stmt::If(c, t, el) => match simple_eval(env, cur, *c) {
            Some(Ok(v)) => if truthy(v) {
                stmt_run(h, env, cur, printed, *t)
            } else {
                match el {
                    Some(b) => stmt_run(h, env, cur, printed, *b),
                    None => Some((env, printed, None)),
                }
            },
            Some(Err(err)) => Some((env, printed, Some(err))),
            None => None,
        },
        _ => None,
    }
}

/// What running statements in order does, as `stmt_run` gives it for each; the
/// first runtime error stops the run.
pub open spec fn stmts_run(h: Heap, env: Seq<FrameModel>, cur: int, printed: Seq<Seq<char>>, ss: Seq<Stmt>) -> Option<Outcome>
    decreases ss,
{
    if ss.len() == 0 {
        Some((env, printed, None))
    } else {
        match stmt_run(h, env, cur, printed, ss[0]) {
            Some((env2, printed2, None)) => stmts_run(h, env2, cur, printed2, ss.drop_first()),
            Some(stopped) => Some(stopped),
            None => None,
        }
    }
}

/// A run ended as the model gives it: with its scopes and output, normally or
/// with its runtime error, touching nothing else.
pub open spec fn ran(pre: &Interpreter, post: &Interpreter, m: Option<Outcome>, r: Result<Flow, LoxResult>) -> bool {
    m matches Some((env, out, err)) ==> (post.environment@ == env && post.printed() == out && same_store(pre, post)
        && match err {
        None => r matches Ok(Flow::Normal),
        Some((line, kind)) => r == Err::<Flow, LoxResult>(LoxResult::RunTimeError { line, kind }),
    })
}

/// Every argument evaluates, without a variable lookup failing or an operator
/// error, to a value.
pub open spec fn args_simple(env: Seq<FrameModel>, cur: int, args: Seq<Expr>) -> bool {
    forall|k: int| 0 <= k < args.len() ==> #[trigger] simple_eval(env, cur, args[k]) matches Some(Ok(_))
}

/// How a call whose callee and arguments are simple fails before its body
/// runs: too deep, out of steps, not callable, or with the wrong number of
/// arguments.
pub open spec fn call_effect(pre: &Interpreter, e: Expr, depth: u64, r: Result<Object, LoxResult>) -> bool {
    match e {
        Expr::Call(callee, paren, args) => match simple_eval(pre.environment@, pre.current as int, *callee) {
            Some(Ok(v)) => if args_simple(pre.environment@, pre.current as int, args@) {
                let fail = |k: RuntimeErrorKind| r == Err::<Object, LoxResult>(LoxResult::RunTimeError { line: paren.line, kind: k });
                if depth == 0 {
                    fail(RuntimeErrorKind::StackOverflow)
                } else if pre.steps_left == 0 {
                    fail(RuntimeErrorKind::StepLimitExceeded)
                } else {
                    match v {
                        Value::Function(fid) => if 0 <= fid < pre.functions.len() {
                            args.len() != pre.functions@[fid].decl.params.len() ==> fail(RuntimeErrorKind::ArityMismatch)
                        } else {
                            fail(RuntimeErrorKind::NotCallable)
                        },
                        Value::Class(cid) => if 0 <= cid < pre.classes.len() {
                            (method_of(pre.classes@, cid, seq!['i', 'n', 'i', 't']) is None && args.len() != 0)
                                ==> fail(RuntimeErrorKind::ArityMismatch)
                        } else {
                            fail(RuntimeErrorKind::NotCallable)
                        },
                        _ => fail(RuntimeErrorKind::NotCallable),
                    }
                }
            } else {
                true
            },
            _ => true,
        },
        _ => true,
    }
}

/// What an assignment expression does when its value is simple: the nearest
/// binding of the name is set, or the name is unbound.
pub open spec fn assign_effect(pre: &Interpreter, post: &Interpreter, e: Expr, r: Result<Object, LoxResult>) -> bool {
    match e {
        Expr::Assign(name, x) => match simple_eval(pre.environment@, pre.current as int, *x) {
            Some(Ok(v)) => match resolve(pre.environment@, pre.current as int, name.lexeme@) {
                Some((f, sl)) => (r matches Ok(o) && o@ == v) && post.environment@ == assigned(
                    pre.environment@,
                    f,
                    sl,
                    v,
                ) && post.output == pre.output && same_store(pre, post),
                None => r == Err::<Object, LoxResult>(
                    LoxResult::RunTimeError { line: name.line, kind: RuntimeErrorKind::UndefinedVariable },
                ) && post.environment@ == pre.environment@ && post.output == pre.output && same_store(pre, post),
            },
            Some(Err((line, kind))) => r == Err::<Object, LoxResult>(LoxResult::RunTimeError { line, kind })
                && post.environment@ == pre.environment@ && post.output == pre.output && same_store(pre, post),
            _ => true,
        },
        _ => true,
    }
}

/// The characters of each name.
pub open spec fn names_of(v: Seq<String>) -> Seq<Seq<char>> {
    v.map_values(|s: String| s@)
}

/// The first position at or after `i` where `name` stands, or -1.
pub open spec fn first_from(names: Seq<Seq<char>>, name: Seq<char>, i: int) -> int
    decreases names.len() - i,
{
    if i < 0 || i >= names.len() {
        -1
    } else if names[i] == name {
        i
    } else {
        first_from(names, name, i + 1)
    }
}

proof fn lemma_first_from(names: Seq<Seq<char>>, name: Seq<char>, i: int)
    requires
        0 <= i,
    ensures
        -1 <= first_from(names, name, i) < names.len(),
        first_from(names, name, i) >= 0 ==> first_from(names, name, i) >= i && names[first_from(names, name, i)] == name,
    decreases names.len() - i,
{
    if i < names.len() && names[i] != name {
        lemma_first_from(names, name, i + 1);
    }
}

proof fn lemma_first_absent(names: Seq<Seq<char>>, name: Seq<char>, i: int)
    requires
        0 <= i,
        first_from(names, name, i) == -1,
    ensures
        forall|j: int| i <= j < names.len() ==> names[j] != name,
    decreases names.len() - i,
{
    if i < names.len() {
        lemma_first_absent(names, name, i + 1);
    }
}

proof fn lemma_first_pushed(names: Seq<Seq<char>>, name: Seq<char>, i: int)
    requires
        0 <= i < names.len(),
        names.last() == name,
        forall|j: int| i <= j < names.len() - 1 ==> names[j] != name,
    ensures
        first_from(names, name, i) == names.len() - 1,
    decreases names.len() - i,
{
    if i < names.len() - 1 {
        lemma_first_pushed(names, name, i + 1);
    }
}

/// The method `name` of class `class`: its own, or else its superclass's.
pub open spec fn method_of(cs: Seq<LoxClass>, class: int, name: Seq<char>) -> Option<usize>
    decreases class,
{
    if !(0 <= class < cs.len()) {
        None
    } else {
        let k = first_from(names_of(cs[class].method_names@), name, 0);
        if 0 <= k < cs[class].method_ids@.len() {
            Some(cs[class].method_ids@[k])
        } else {
            match cs[class].superclass {
                Some(s) => if s < class {
                    method_of(cs, s as int, name)
                } else {
                    None
                },
                None => None,
            }
        }
    }
}

/// The value of field `name` of an instance, if it has one.
pub open spec fn field_of(inst: LoxInstance, name: Seq<char>) -> Option<Value> {
    let k = first_from(names_of(inst.field_names@), name, 0);
    if 0 <= k < inst.field_values@.len() {
        Some(inst.field_values@[k]@)
    } else {
        None
    }
}

/// The position of `name` among `names`, the first if several.
fn index_of(names: &Vec<String>, name: &String) -> (r: Option<usize>)
    ensures
        r matches Some(j) ==> first_from(names_of(names@), name@, 0) == j,
        r is None ==> first_from(names_of(names@), name@, 0) == -1,
{
    let mut i: usize = 0;
    while i < names.len()
        invariant
            0 <= i <= names.len(),
            first_from(names_of(names@), name@, 0) == first_from(names_of(names@), name@, i as int),
        decreases names.len() - i,
    {
        proof {
            assert(names_of(names@)[i as int] == names@[i as int]@);
        }
        if names[i] == *name {
            return Some(i);
        }
        i = i + 1;
    }
    None
}

/// The property `name` of instance `i`: its field if it has one (nothing
/// changes), else its class's method bound to it (a new function), else
/// `UndefinedProperty`; `NotAnInstance` for a handle that names no instance.
pub open spec fn got(pre: &Interpreter, post: &Interpreter, i: int, name: Token, r: Result<Object, LoxResult>) -> bool {
    &&& (i >= pre.instances.len() ==> r == Err::<Object, LoxResult>(
                LoxResult::RunTimeError { line: name.line, kind: RuntimeErrorKind::NotAnInstance },
            ))
    &&& (0 <= i < pre.instances.len() ==> ({
                let inst = pre.instances@[i];
                let method = if inst.class < pre.classes.len() {
                    method_of(pre.classes@, inst.class as int, name.lexeme@)
                } else {
                    None
                };
                match field_of(inst, name.lexeme@) {
                    Some(v) => (r matches Ok(o) && o@ == v) && *post == *pre,
                    None => match method {
                        Some(fid) => if fid < pre.functions.len() {
                            r == Ok::<Object, LoxResult>(Object::Function(pre.functions.len()))
                                || r == Err::<Object, LoxResult>(
                                LoxResult::RunTimeError { line: name.line, kind: RuntimeErrorKind::StepLimitExceeded },
                            )
                        } else {
                            r == Err::<Object, LoxResult>(
                                LoxResult::RunTimeError { line: name.line, kind: RuntimeErrorKind::UndefinedProperty },
                            )
                        },
                        None => r == Err::<Object, LoxResult>(
                            LoxResult::RunTimeError { line: name.line, kind: RuntimeErrorKind::UndefinedProperty },
                        ),
                    },
                }
            }))
}

/// What a property read or write does when its object (and, for a write, its
/// value) is simple: a read gives the property as `got` says; a write to an
/// instance sets its field and gives the value; on anything but an instance,
/// `NotAnInstance`.
pub open spec fn property_effect(pre: &Interpreter, post: &Interpreter, e: Expr, r: Result<Object, LoxResult>) -> bool {
    match e {
        Expr::Get(obj, name) => match simple_eval(pre.environment@, pre.current as int, *obj) {
            Some(Ok(v)) => match v {
                Value::Instance(i) => got(pre, post, i, name, r),
                _ => r == Err::<Object, LoxResult>(
                    LoxResult::RunTimeError { line: name.line, kind: RuntimeErrorKind::NotAnInstance },
                ),
            },
            _ => true,
        },
        Expr::SetProperty(obj, name, x) => match simple_eval(pre.environment@, pre.current as int, *obj) {
            Some(Ok(v)) => match v {
                Value::Instance(i) => match simple_eval(pre.environment@, pre.current as int, *x) {
                    Some(Ok(w)) => if 0 <= i < pre.instances.len() {
                        (r matches Ok(o) && o@ == w) && field_of(post.instances@[i], name.lexeme@) == Some(w)
                            && post.environment == pre.environment && post.output == pre.output
                    } else {
                        r == Err::<Object, LoxResult>(
                            LoxResult::RunTimeError { line: name.line, kind: RuntimeErrorKind::NotAnInstance },
                        )
                    },
                    _ => true,
                },
                _ => r == Err::<Object, LoxResult>(
                    LoxResult::RunTimeError { line: name.line, kind: RuntimeErrorKind::NotAnInstance },
                ),
            },
            _ => true,
        },
        _ => true,
    }
}

pub struct Interpreter {
    pub environment: Environment,
    /// The active scope.
    pub current: usize,
    pub functions: Vec<LoxFunction>,
    pub classes: Vec<LoxClass>,
    pub instances: Vec<LoxInstance>,
    /// What `print` produced, one entry per statement run.
    pub output: Vec<String>,
    /// Loop iterations and calls left to the current run.
    pub steps_left: u64,
    /// The budget each run of `interpret` starts with.
    pub step_limit: u64,
}

fn str_of(s: &str) -> (r: String)
    ensures
        r@ == s@,
{
    s.to_owned()
}

/// A name token made by the interpreter itself, for `this` and `super`.
fn name_token(text: &str, line: usize) -> (t: Token)
    ensures
        t.lexeme@ == text@,
        t.line == line,
{
    Token::new(TokenType::Identifier, str_of(text), None, line)
}

/// A source line for an expression, for errors that belong to no single token.
fn expr_line(e: &Expr) -> usize
    decreases e,
{
    match e {
        Expr::Binary(_, op, _) => op.line,
        Expr::Grouping(x) => expr_line(x),
        Expr::Literal(_) => 0,
        Expr::Unary(op, _) => op.line,
        Expr::Assign(n, _) => n.line,
        Expr::Call(_, paren, _) => paren.line,
        Expr::Get(_, n) => n.line,
        Expr::Logical(_, op, _) => op.line,
        Expr::SetProperty(_, n, _) => n.line,
        Expr::Super(k, _) => k.line,
        Expr::This(k) => k.line,
        Expr::Variable(n) => n.line,
    }
}

impl Interpreter {
    pub open spec fn wf(&self) -> bool {
        &&& self.environment.wf()
        &&& self.current < self.environment@.len()
        &&& forall|i: int| #![trigger self.functions@[i]] 0 <= i < self.functions.len()
            ==> self.functions@[i].closure < self.environment@.len()
        &&& forall|i: int| #![trigger self.classes@[i]] 0 <= i < self.classes.len() ==> {
            &&& (self.classes@[i].superclass matches Some(s) ==> s < i)
            &&& self.classes@[i].method_names.len() == self.classes@[i].method_ids.len()
        }
        &&& forall|i: int| #![trigger self.instances@[i]] 0 <= i < self.instances.len()
            ==> self.instances@[i].field_names.len() == self.instances@[i].field_values.len()
    }

    /// What the interpreter's state keeps across any evaluation.
    pub open spec fn kept(&self, old: &Interpreter) -> bool {
        &&& self.wf()
        &&& self.current == old.current
        &&& self.environment@.len() >= old.environment@.len()
        &&& self.functions.len() >= old.functions.len()
        &&& self.classes.len() >= old.classes.len()
        &&& self.steps_left <= old.steps_left
        &&& self.step_limit == old.step_limit
    }

    pub open spec fn heap(&self) -> Heap {
        Heap { functions: self.functions@, classes: self.classes@, instances: self.instances@ }
    }

    /// The display form `print` uses.
    pub open spec fn shown(&self, v: Value) -> Seq<char> {
        shown_in(self.heap(), v)
    }

    pub open spec fn printed(&self) -> Seq<Seq<char>> {
        self.output@.map_values(|s: String| s@)
    }

    pub fn new() -> (r: Interpreter)
        ensures
            r.wf(),
            r.current == 0,
            r.environment@.len() == 1,
            r.environment@[0].names.len() == 0,
            r.output@.len() == 0,
            r.steps_left == STEP_LIMIT,
            r.heap() == (Heap { functions: Seq::empty(), classes: Seq::empty(), instances: Seq::empty() }),
            r.environment@ == seq![FrameModel { enclosing: None, names: Seq::empty(), values: Seq::empty() }],
            r.printed() == Seq::<Seq<char>>::empty(),
    {
        let r = Interpreter {
            environment: Environment::new(),
            current: 0,
            functions: Vec::new(),
            classes: Vec::new(),
            instances: Vec::new(),
            output: Vec::new(),
            steps_left: STEP_LIMIT,
            step_limit: STEP_LIMIT,
        };
        proof {
            assert(r.heap() =~~= (Heap { functions: Seq::empty(), classes: Seq::empty(), instances: Seq::empty() }));
            assert(r.printed() =~= Seq::<Seq<char>>::empty());
        }
        r
    }

    /// The display form of a value.
    pub fn display(&self, v: &Object) -> (r: String)
        ensures
            r@ == self.shown(v@),
    {
        proof {
            reveal_strlit("<fn ");
            reveal_strlit(">");
            reveal_strlit(" instance");
        }
        match v {
            Object::Function(i) => {
                if *i < self.functions.len() {
                    let mut s = str_of("<fn ");
                    push_str(&mut s, &self.functions[*i].decl.name.lexeme);
                    push_str(&mut s, &str_of(">"));
                    proof {
                        assert("<fn "@ =~= seq!['<', 'f', 'n', ' ']);
                        assert(">"@ =~= seq!['>']);
                    }
                    return s;
                }
                v.stringify()
            },
            Object::Class(i) => {
                if *i < self.classes.len() {
                    return self.classes[*i].name.clone();
                }
                v.stringify()
            },
            Object::Instance(i) => {
                if *i < self.instances.len() && self.instances[*i].class < self.classes.len() {
                    let mut s = self.classes[self.instances[*i].class].name.clone();
                    push_str(&mut s, &str_of(" instance"));
                    proof {
                        assert(" instance"@ =~= seq![' ', 'i', 'n', 's', 't', 'a', 'n', 'c', 'e']);
                    }
                    return s;
                }
                v.stringify()
            },
            _ => v.stringify(),
        }
    }

    /// A new scope enclosed by `enclosing`.
    fn new_scope(&mut self, enclosing: usize, line: usize) -> (r: Result<usize, LoxResult>)
        requires
            old(self).wf(),
            enclosing < old(self).environment@.len(),
        ensures
            final(self).kept(old(self)),
            final(self).output == old(self).output,
            same_store(old(self), final(self)),
            r is Ok == (old(self).environment@.len() + 1 < usize::MAX),
            r is Err ==> final(self).environment == old(self).environment,
            r matches Err(e) ==> e == (LoxResult::RunTimeError { line, kind: RuntimeErrorKind::StepLimitExceeded }),
            r matches Ok(id) ==> id < final(self).environment@.len() && final(self).environment@ == old(self).environment@.push(
                crate::environment::FrameModel { enclosing: Some(enclosing as int), names: Seq::empty(), values: Seq::empty() },
            ) && id == old(self).environment@.len(),
            r matches Err(e) ==> e is RunTimeError,
    {
        if self.environment.frames.len() >= usize::MAX - 1 {
            return Err(LoxResult::run_time_error(line, RuntimeErrorKind::StepLimitExceeded));
        }
        Ok(self.environment.new_with_enclosing(enclosing))
    }

    /// The class's method named `name`, looked up through its superclasses.
    fn find_method(&self, class: usize, name: &String) -> (r: Option<usize>)
        requires
            self.wf(),
            class < self.classes.len(),
        ensures
            r == method_of(self.classes@, class as int, name@),
        decreases class,
    {
        let c = &self.classes[class];
        match index_of(&c.method_names, name) {
            Some(k) => {
                proof {
                    lemma_first_from(names_of(c.method_names@), name@, 0);
                }
                Some(c.method_ids[k])
            },
            None => match c.superclass {
                Some(s) => self.find_method(s, name),
                None => None,
            },
        }
    }

    /// The method `fid` bound to instance `instance`: a new function whose
    /// scope defines `this`.
    fn bind(&mut self, fid: usize, instance: usize, line: usize) -> (r: Result<usize, LoxResult>)
        requires
            old(self).wf(),
            fid < old(self).functions.len(),
        ensures
            final(self).kept(old(self)),
            final(self).output == old(self).output,
            r matches Ok(id) ==> id < final(self).functions.len(),
            r matches Ok(id) ==> ({
                let f = old(self).functions@[fid as int];
                &&& id == old(self).functions.len()
                &&& final(self).functions@.len() == id + 1
                &&& final(self).functions@.subrange(0, id as int) == old(self).functions@
                &&& final(self).functions@[id as int].closure == old(self).environment@.len()
                &&& final(self).functions@[id as int].is_initializer == f.is_initializer
                &&& final(self).functions@[id as int].decl.name == f.decl.name
                &&& final(self).functions@[id as int].decl.params@ == f.decl.params@
                &&& final(self).environment@ == defined(
                    old(self).environment@.push(
                        FrameModel { enclosing: Some(f.closure as int), names: Seq::empty(), values: Seq::empty() },
                    ),
                    old(self).environment@.len() as int,
                    seq!['t', 'h', 'i', 's'],
                    Value::Instance(instance as int),
                )
                &&& final(self).classes == old(self).classes
                &&& final(self).instances == old(self).instances
            }),
            r matches Err(e) ==> e == (LoxResult::RunTimeError { line, kind: RuntimeErrorKind::StepLimitExceeded }),
    {
        proof {
            reveal_strlit("this");
            assert("this"@ =~= seq!['t', 'h', 'i', 's']);
        }
        let closure = self.functions[fid].closure;
        let scope = match self.new_scope(closure, line) {
            Ok(s) => s,
            Err(e) => return Err(e),
        };
        self.environment.define(scope, &str_of("this"), Object::Instance(instance));
        let decl = self.functions[fid].decl.duplicate();
        let is_initializer = self.functions[fid].is_initializer;
        let id = self.functions.len();
        self.functions.push(LoxFunction { decl, closure: scope, is_initializer });
        proof {
            assert(self.functions@.subrange(0, id as int) =~= old(self).functions@);
        }
        Ok(id)
    }

    /// Sets up a call of function `fid`: checks the arity, and binds the
    /// parameters in a new scope enclosed by the function's closure.
    fn enter_call(&mut self, fid: usize, args: Vec<Object>, line: usize) -> (r: Result<(FunctionDecl, usize), LoxResult>)
        requires
            old(self).wf(),
            fid < old(self).functions.len(),
        ensures
            final(self).kept(old(self)),
            final(self).output == old(self).output,
            r matches Ok((_, scope)) ==> scope < final(self).environment@.len(),
            r matches Err(e) ==> e is RunTimeError,
            args.len() != old(self).functions@[fid as int].decl.params.len() ==> r == Err::<(FunctionDecl, usize), LoxResult>(
                LoxResult::RunTimeError { line, kind: RuntimeErrorKind::ArityMismatch },
            ) && final(self).environment == old(self).environment,
            r matches Ok((d, scope)) ==> ({
                let f = old(self).functions@[fid as int];
                &&& d.name == f.decl.name
                &&& d.params@ == f.decl.params@
                &&& d.body@.len() == f.decl.body@.len()
                &&& args.len() == f.decl.params.len()
                &&& scope == old(self).environment@.len()
                &&& final(self).environment@.len() == scope + 1
                &&& final(self).environment@.subrange(0, scope as int) == old(self).environment@
                &&& final(self).environment@[scope as int].enclosing == Some(f.closure as int)
                &&& same_store(old(self), final(self))
            }),
            (r is Err && args.len() == old(self).functions@[fid as int].decl.params.len()) ==> r == Err::<
                (FunctionDecl, usize),
                LoxResult,
            >(LoxResult::RunTimeError { line, kind: RuntimeErrorKind::StepLimitExceeded }),
    {
        let decl = self.functions[fid].decl.duplicate();
        if args.len() != decl.params.len() {
            return Err(LoxResult::run_time_error(line, RuntimeErrorKind::ArityMismatch));
        }
        let closure = self.functions[fid].closure;
        let scope = match self.new_scope(closure, line) {
            Ok(s) => s,
            Err(e) => return Err(e),
        };
        let mut args = args;
        let mut i: usize = 0;
        let n = args.len();
        while i < n
            invariant
                self.wf(),
                self.kept(old(self)),
                self.output == old(self).output,
                same_store(old(self), self),
                scope == old(self).environment@.len(),
                self.environment@.len() == scope + 1,
                self.environment@.subrange(0, scope as int) == old(self).environment@,
                self.environment@[scope as int].enclosing == Some(closure as int),
                n == decl.params.len(),
                args.len() == n,
            decreases n - i,
        {
            let v = args[i].duplicate();
            let ghost before = self.environment@;
            self.environment.define(scope, &decl.params[i].lexeme, v);
            proof {
                assert(self.environment@.subrange(0, scope as int) =~= before.subrange(0, scope as int));
            }
            i = i + 1;
        }
        Ok((decl, scope))
    }

    fn take_step(&mut self, line: usize) -> (r: Result<(), LoxResult>)
        requires
            old(self).wf(),
        ensures
            final(self).kept(old(self)),
            final(self).output == old(self).output,
            r is Ok ==> final(self).steps_left < old(self).steps_left,
            r is Ok == (old(self).steps_left > 0),
            r is Err ==> r == Err::<(), LoxResult>(LoxResult::RunTimeError { line, kind: RuntimeErrorKind::StepLimitExceeded }),
            same_store(old(self), final(self)),
    {
        if self.steps_left == 0 {
            return Err(LoxResult::run_time_error(line, RuntimeErrorKind::StepLimitExceeded));
        }
        self.steps_left = self.steps_left - 1;
        Ok(())
    }
}

impl Interpreter {
    /// The property `name` of instance `i`: a field, or else a method bound to it.
    fn get_property(&mut self, i: usize, name: &Token) -> (r: Result<Object, LoxResult>)
        requires
            old(self).wf(),
        ensures
            final(self).kept(old(self)),
            final(self).output == old(self).output,
            r matches Err(e) ==> e is RunTimeError,
            got(old(self), final(self), i as int, *name, r),
    {
        if i >= self.instances.len() {
            return Err(LoxResult::run_time_error(name.line, RuntimeErrorKind::NotAnInstance));
        }
        let inst = &self.instances[i];
        proof {
            lemma_first_from(names_of(inst.field_names@), name.lexeme@, 0);
        }
        match index_of(&inst.field_names, &name.lexeme) {
            Some(k) => {
                return Ok(inst.field_values[k].duplicate());
            },
            None => {},
        }
        let class = inst.class;
        if class >= self.classes.len() {
            return Err(LoxResult::run_time_error(name.line, RuntimeErrorKind::UndefinedProperty));
        }
        match self.find_method(class, &name.lexeme) {
            Some(fid) => {
                if fid < self.functions.len() {
                    match self.bind(fid, i, name.line) {
                        Ok(id) => Ok(Object::Function(id)),
                        Err(e) => Err(e),
                    }
                } else {
                    Err(LoxResult::run_time_error(name.line, RuntimeErrorKind::UndefinedProperty))
                }
            },
            None => Err(LoxResult::run_time_error(name.line, RuntimeErrorKind::UndefinedProperty)),
        }
    }

    /// Sets field `name` of instance `i`, creating it if needed.
    fn set_field(&mut self, i: usize, name: &String, value: Object)
        requires
            old(self).wf(),
            i < old(self).instances.len(),
        ensures
            final(self).kept(old(self)),
            final(self).output == old(self).output,
            final(self).environment == old(self).environment,
            final(self).functions == old(self).functions,
            final(self).classes == old(self).classes,
            final(self).instances@.len() == old(self).instances@.len(),
            forall|k: int| 0 <= k < old(self).instances@.len() && k != i ==> final(self).instances@[k] == old(
                self,
            ).instances@[k],
            final(self).instances@[i as int].class == old(self).instances@[i as int].class,
            field_of(final(self).instances@[i as int], name@) == Some(value@),
    {
        let ghost v = value@;
        let ghost names = names_of(self.instances@[i as int].field_names@);
        proof {
            lemma_first_from(names, name@, 0);
        }
        match index_of(&self.instances[i].field_names, name) {
            Some(k) => {
                self.instances[i].field_values.set(k, value);
                proof {
                    assert(names_of(self.instances@[i as int].field_names@) == names);
                }
            },
            None => {
                let ghost n = names.len();
                self.instances[i].field_names.push(name.clone());
                self.instances[i].field_values.push(value);
                proof {
                    let names2 = names_of(self.instances@[i as int].field_names@);
                    assert(names2 =~= names.push(name@));
                    lemma_first_absent(names, name@, 0);
                    assert forall|j: int| 0 <= j < n implies names2[j] != name@ by {
                        assert(names2[j] == names[j]);
                    }
                    lemma_first_pushed(names2, name@, 0);
                }
            },
        }
    }

    #[verifier::loop_isolation(false)]
    #[verifier::spinoff_prover]
    #[verifier::rlimit(100)]
    fn eval(&mut self, expr: &Expr, depth: u64) -> (r: Result<Object, LoxResult>)
        requires
            old(self).wf(),
        ensures
            final(self).kept(old(self)),
            r matches Err(e) ==> e is RunTimeError,
            simple_eval(old(self).environment@, old(self).current as int, *expr) matches Some(m) ==> evaluated(r, m)
                && *final(self) == *old(self),
            assign_effect(old(self), final(self), *expr, r),
            call_effect(old(self), *expr, depth, r),
            property_effect(old(self), final(self), *expr, r),
        decreases depth, 0int, expr,
    {
        match expr {
            Expr::Literal(v) => Ok(v.duplicate()),
            Expr::Grouping(e) => self.eval(e, depth),
            Expr::Unary(op, e) => {
                let v = match self.eval(e, depth) {
                    Ok(v) => v,
                    Err(err) => return Err(err),
                };
                if op.ttype == TokenType::Minus {
                    v.negate(op.line)
                } else if op.ttype == TokenType::Bang {
                    Ok(v.not())
                } else {
                    Err(LoxResult::run_time_error(op.line, RuntimeErrorKind::TypeMismatch))
                }
            },
            Expr::Binary(l, op, r) => {
                let a = match self.eval(l, depth) {
                    Ok(v) => v,
                    Err(err) => return Err(err),
                };
                let b = match self.eval(r, depth) {
                    Ok(v) => v,
                    Err(err) => return Err(err),
                };
                let line = op.line;
                match op.ttype {
                    TokenType::Minus => Object::subtract(a, b, line),
                    TokenType::Slash => Object::divide(a, b, line),
                    TokenType::Star => Object::multiply(a, b, line),
                    TokenType::Plus => Object::add(a, b, line),
                    TokenType::Greater => Object::greater(a, b, line),
                    TokenType::GreaterEqual => Object::greater_equal(a, b, line),
                    TokenType::Less => Object::less(a, b, line),
                    TokenType::LessEqual => Object::less_equal(a, b, line),
                    TokenType::BangEqual => Object::bang_equal(a, b, line),
                    TokenType::Equals => Object::equals(a, b, line),
                    _ => Err(LoxResult::run_time_error(line, RuntimeErrorKind::TypeMismatch)),
                }
            },
            Expr::Logical(l, op, r) => {
                let a = match self.eval(l, depth) {
                    Ok(v) => v,
                    Err(err) => return Err(err),
                };
                if op.ttype == TokenType::Or {
                    if a.is_truthy() {
                        return Ok(a);
                    }
                } else {
                    if !a.is_truthy() {
                        return Ok(a);
                    }
                }
                self.eval(r, depth)
            },
            Expr::Variable(name) => self.environment.get(self.current, name),
            Expr::Assign(name, e) => {
                let v = match self.eval(e, depth) {
                    Ok(v) => v,
                    Err(err) => return Err(err),
                };
                match self.environment.assign(self.current, name, v.duplicate()) {
                    Ok(()) => Ok(v),
                    Err(err) => Err(err),
                }
            },
            Expr::This(keyword) => self.environment.get(self.current, keyword),
            Expr::Super(keyword, method) => {
                let sv = match self.environment.get(self.current, keyword) {
                    Ok(v) => v,
                    Err(err) => return Err(err),
                };
                let this = name_token("this", keyword.line);
                let iv = match self.environment.get(self.current, &this) {
                    Ok(v) => v,
                    Err(err) => return Err(err),
                };
                match (sv, iv) {
                    (Object::Class(sid), Object::Instance(iid)) => {
                        if sid >= self.classes.len() {
                            return Err(LoxResult::run_time_error(method.line, RuntimeErrorKind::InvalidSuperclass));
                        }
                        match self.find_method(sid, &method.lexeme) {
                            Some(fid) => {
                                if fid < self.functions.len() {
                                    match self.bind(fid, iid, method.line) {
                                        Ok(id) => Ok(Object::Function(id)),
                                        Err(e) => Err(e),
                                    }
                                } else {
                                    Err(LoxResult::run_time_error(method.line, RuntimeErrorKind::UndefinedProperty))
                                }
                            },
                            None => Err(LoxResult::run_time_error(method.line, RuntimeErrorKind::UndefinedProperty)),
                        }
                    },
                    _ => Err(LoxResult::run_time_error(method.line, RuntimeErrorKind::InvalidSuperclass)),
                }
            },
            Expr::Get(object, name) => {
                let o = match self.eval(object, depth) {
                    Ok(v) => v,
                    Err(err) => return Err(err),
                };
                match o {
                    Object::Instance(i) => self.get_property(i, name),
                    _ => Err(LoxResult::run_time_error(name.line, RuntimeErrorKind::NotAnInstance)),
                }
            },
            Expr::SetProperty(object, name, value) => {
                let o = match self.eval(object, depth) {
                    Ok(v) => v,
                    Err(err) => return Err(err),
                };
                match o {
                    Object::Instance(i) => {
                        let v = match self.eval(value, depth) {
                            Ok(v) => v,
                            Err(err) => return Err(err),
                        };
                        if i < self.instances.len() {
                            self.set_field(i, &name.lexeme, v.duplicate());
                            Ok(v)
                        } else {
                            Err(LoxResult::run_time_error(name.line, RuntimeErrorKind::NotAnInstance))
                        }
                    },
                    _ => Err(LoxResult::run_time_error(name.line, RuntimeErrorKind::NotAnInstance)),
                }
            },
            Expr::Call(callee, paren, args) => {
                let line = paren.line;
                let c = match self.eval(callee, depth) {
                    Ok(v) => v,
                    Err(err) => return Err(err),
                };
                let ghost callee_ok = simple_eval(old(self).environment@, old(self).current as int, **callee) matches Some(Ok(_));
                let mut argv: Vec<Object> = Vec::new();
                let mut i: usize = 0;
                while i < args.len()
                    invariant
                        self.kept(old(self)),
                        0 <= i <= args.len(),
                        argv.len() == i,
                        callee_ok && args_simple(old(self).environment@, old(self).current as int, args@.subrange(0, i as int))
                            ==> *self == *old(self),
                    decreases args.len() - i,
                {
                    proof {
                        if callee_ok && args_simple(old(self).environment@, old(self).current as int, args@.subrange(0, i + 1)) {
                            assert(args@.subrange(0, i + 1)[i as int] == args@[i as int]);
                            assert forall|k: int| 0 <= k < i implies #[trigger] simple_eval(
                                old(self).environment@,
                                old(self).current as int,
                                args@.subrange(0, i as int)[k],
                            ) matches Some(Ok(_)) by {
                                assert(args@.subrange(0, i as int)[k] == args@.subrange(0, i + 1)[k]);
                            }
                        }
                    }
                    proof {
                        assert(decreases_to!(expr => args[i as int]));
                    }
                    let v = match self.eval(&args[i], depth) {
                        Ok(v) => v,
                        Err(err) => return Err(err),
                    };
                    argv.push(v);
                    proof {
                        if callee_ok && args_simple(old(self).environment@, old(self).current as int, args@.subrange(0, i + 1)) {
                            assert forall|k: int| 0 <= k < i implies #[trigger] simple_eval(
                                old(self).environment@,
                                old(self).current as int,
                                args@.subrange(0, i as int)[k],
                            ) matches Some(Ok(_)) by {
                                assert(args@.subrange(0, i as int)[k] == args@.subrange(0, i + 1)[k]);
                            }
                        }
                    }
                    i = i + 1;
                }
                proof {
                    assert(args@.subrange(0, args.len() as int) =~= args@);
                    reveal_strlit("init");
                    assert("init"@ =~= seq!['i', 'n', 'i', 't']);
                }
                if depth == 0 {
                    return Err(LoxResult::run_time_error(line, RuntimeErrorKind::StackOverflow));
                }
                match self.take_step(line) {
                    Ok(()) => {},
                    Err(err) => return Err(err),
                }
                let target: usize;
                let mut instance: Option<usize> = None;
                match c {
                    Object::Function(fid) => {
                        if fid >= self.functions.len() {
                            return Err(LoxResult::run_time_error(line, RuntimeErrorKind::NotCallable));
                        }
                        target = fid;
                    },
                    Object::Class(cid) => {
                        if cid >= self.classes.len() {
                            return Err(LoxResult::run_time_error(line, RuntimeErrorKind::NotCallable));
                        }
                        let iid = self.instances.len();
                        self.instances.push(LoxInstance { class: cid, field_names: Vec::new(), field_values: Vec::new() });
                        match self.find_method(cid, &str_of("init")) {
                            Some(fid) => {
                                if fid >= self.functions.len() {
                                    return Err(LoxResult::run_time_error(line, RuntimeErrorKind::NotCallable));
                                }
                                target = match self.bind(fid, iid, line) {
                                    Ok(id) => id,
                                    Err(err) => return Err(err),
                                };
                                instance = Some(iid);
                            },
                            None => {
                                if argv.len() != 0 {
                                    return Err(LoxResult::run_time_error(line, RuntimeErrorKind::ArityMismatch));
                                }
                                return Ok(Object::Instance(iid));
                            },
                        }
                    },
                    _ => {
                        return Err(LoxResult::run_time_error(line, RuntimeErrorKind::NotCallable));
                    },
                }
                let is_initializer = self.functions[target].is_initializer;
                let closure = self.functions[target].closure;
                let (decl, scope) = match self.enter_call(target, argv, line) {
                    Ok(x) => x,
                    Err(err) => return Err(err),
                };
                let saved = self.current;
                self.current = scope;
                let res = self.execute_block(&decl.body, depth - 1);
                self.current = saved;
                match res {
                    Err(err) => Err(err),
                    Ok(flow) => match instance {
                        Some(iid) => Ok(Object::Instance(iid)),
                        None => {
                            if is_initializer {
                                self.environment.get(closure, &name_token("this", line))
                            } else {
                                match flow {
                                    Flow::Return(v) => Ok(v),
                                    Flow::Normal => Ok(Object::Nil),
                                }
                            }
                        },
                    },
                }
            },
        }
    }

    /// Runs `stmts` in order in the active scope, stopping at a `return` or an error.
    #[verifier::loop_isolation(false)]
    fn execute_block(&mut self, stmts: &Vec<Stmt>, depth: u64) -> (r: Result<Flow, LoxResult>)
        requires
            old(self).wf(),
        ensures
            final(self).kept(old(self)),
            r matches Err(e) ==> e is RunTimeError,
            ran(
                old(self),
                final(self),
                stmts_run(old(self).heap(), old(self).environment@, old(self).current as int, old(self).printed(), stmts@),
                r,
            ),
        decreases depth, 1int, stmts,
    {
        let ghost all = stmts_run(old(self).heap(), old(self).environment@, old(self).current as int, old(self).printed(), stmts@);
        proof {
            assert(stmts@.subrange(0, stmts@.len() as int) =~= stmts@);
        }
        let mut i: usize = 0;
        while i < stmts.len()
            invariant
                0 <= i <= stmts.len(),
                self.kept(old(self)),
                all == stmts_run(old(self).heap(), old(self).environment@, old(self).current as int, old(self).printed(), stmts@),
                all is Some ==> same_store(old(self), self) && stmts_run(
                    old(self).heap(),
                    self.environment@,
                    old(self).current as int,
                    self.printed(),
                    stmts@.subrange(i as int, stmts@.len() as int),
                ) == all,
            decreases stmts.len() - i,
        {
            proof {
                let sub = stmts@.subrange(i as int, stmts@.len() as int);
                assert(sub[0] == stmts@[i as int]);
                assert(sub.drop_first() =~= stmts@.subrange(i + 1, stmts@.len() as int));
            }
            proof {
                assert(decreases_to!(stmts => stmts[i as int]));
            }
            match self.execute(&stmts[i], depth) {
                Ok(Flow::Normal) => {},
                Ok(flow) => return Ok(flow),
                Err(e) => return Err(e),
            }
            i = i + 1;
        }
        proof {
            assert(stmts@.subrange(i as int, stmts@.len() as int) =~= Seq::<Stmt>::empty());
        }
        Ok(Flow::Normal)
    }

    #[verifier::loop_isolation(false)]
    fn execute(&mut self, stmt: &Stmt, depth: u64) -> (r: Result<Flow, LoxResult>)
        requires
            old(self).wf(),
        ensures
            final(self).kept(old(self)),
            r matches Err(e) ==> e is RunTimeError,
            ran(
                old(self),
                final(self),
                stmt_run(old(self).heap(), old(self).environment@, old(self).current as int, old(self).printed(), *stmt),
                r,
            ),
        decreases depth, 1int, stmt,
    {
        match stmt {
            Stmt::Expression(e) => {
                match self.eval(e, depth) {
                    Ok(_) => Ok(Flow::Normal),
                    Err(err) => Err(err),
                }
            },
            Stmt::Print(e) => {
                let v = match self.eval(e, depth) {
                    Ok(v) => v,
                    Err(err) => return Err(err),
                };
                let text = self.display(&v);
                let ghost before = self.printed();
                self.output.push(text);
                proof {
                    assert(self.printed() =~= before.push(text@));
                }
                Ok(Flow::Normal)
            },
            Stmt::Variable(name, init) => {
                let v = match init {
                    Some(e) => match self.eval(e, depth) {
                        Ok(v) => v,
                        Err(err) => return Err(err),
                    },
                    None => Object::Nil,
                };
                self.environment.define(self.current, &name.lexeme, v);
                Ok(Flow::Normal)
            },
            Stmt::Block(stmts) => {
                let scope = match self.new_scope(self.current, 0) {
                    Ok(s) => s,
                    Err(err) => return Err(err),
                };
                let saved = self.current;
                self.current = scope;
                let res = self.execute_block(stmts, depth);
                self.current = saved;
                res
            },
            Stmt::If(condition, then_branch, else_branch) => {
                let c = match self.eval(condition, depth) {
                    Ok(v) => v,
                    Err(err) => return Err(err),
                };
                if c.is_truthy() {
                    self.execute(then_branch, depth)
                } else {
                    match else_branch {
                        Some(b) => self.execute(b, depth),
                        None => Ok(Flow::Normal),
                    }
                }
            },
            Stmt::While(condition, body) => {
                let line = expr_line(condition);
                loop
                    invariant
                        self.kept(old(self)),
                    decreases self.steps_left,
                {
                    let c = match self.eval(condition, depth) {
                        Ok(v) => v,
                        Err(err) => return Err(err),
                    };
                    if !c.is_truthy() {
                        return Ok(Flow::Normal);
                    }
                    match self.take_step(line) {
                        Ok(()) => {},
                        Err(err) => return Err(err),
                    }
                    match self.execute(body, depth) {
                        Ok(Flow::Normal) => {},
                        Ok(flow) => return Ok(flow),
                        Err(err) => return Err(err),
                    }
                }
            },
            Stmt::Function(decl) => {
                let id = self.functions.len();
                self.functions.push(LoxFunction { decl: decl.duplicate(), closure: self.current, is_initializer: false });
                self.environment.define(self.current, &decl.name.lexeme, Object::Function(id));
                Ok(Flow::Normal)
            },
            Stmt::Return(_, value) => {
                let v = match value {
                    Some(e) => match self.eval(e, depth) {
                        Ok(v) => v,
                        Err(err) => return Err(err),
                    },
                    None => Object::Nil,
                };
                Ok(Flow::Return(v))
            },
            Stmt::Class(name, superclass, methods) => self.declare_class(name, superclass, methods),
        }
    }

    /// Binds a new class: resolves its superclass, closes its methods over a scope
    /// that defines `super` when it inherits, and defines its name.
    fn declare_class(&mut self, name: &Token, superclass: &Option<Token>, methods: &Vec<FunctionDecl>) -> (r: Result<Flow, LoxResult>)
        requires
            old(self).wf(),
        ensures
            final(self).kept(old(self)),
            r matches Err(e) ==> e is RunTimeError,
            r matches Ok(f) ==> f is Normal,
            superclass matches Some(tok) ==> match lookup(old(self).environment@, old(self).current as int, tok.lexeme@) {
                None => r == Err::<Flow, LoxResult>(
                    LoxResult::RunTimeError { line: tok.line, kind: RuntimeErrorKind::UndefinedVariable },
                ),
                Some(Value::Class(sid)) => if 0 <= sid < old(self).classes.len() {
                    (old(self).environment@.len() + 1 < usize::MAX ==> r is Ok) && (r is Ok ==> final(self).classes@[old(
                        self,
                    ).classes.len() as int].superclass == Some(sid as usize))
                } else {
                    r == Err::<Flow, LoxResult>(
                        LoxResult::RunTimeError { line: tok.line, kind: RuntimeErrorKind::InvalidSuperclass },
                    )
                },
                Some(_) => r == Err::<Flow, LoxResult>(
                    LoxResult::RunTimeError { line: tok.line, kind: RuntimeErrorKind::InvalidSuperclass },
                ),
            },
            superclass is None ==> r is Ok,
            r is Err ==> final(self).environment@ == old(self).environment@ && final(self).classes == old(self).classes
                && final(self).functions == old(self).functions,
            r is Ok ==> ({
                let cid = old(self).classes.len();
                &&& final(self).classes.len() == cid + 1
                &&& final(self).classes@[cid as int].name@ == name.lexeme@
                &&& final(self).classes@[cid as int].method_names@.len() == methods.len()
                &&& (superclass is None ==> final(self).classes@[cid as int].superclass is None)
                &&& lookup(final(self).environment@, old(self).current as int, name.lexeme@) == Some(
                    Value::Class(cid as int),
                )
            }),
    {
        let mut sup: Option<usize> = None;
        let mut scope = self.current;
        match superclass {
            Some(tok) => {
                let v = match self.environment.get(self.current, tok) {
                    Ok(v) => v,
                    Err(err) => return Err(err),
                };
                match v {
                    Object::Class(sid) => {
                        if sid >= self.classes.len() {
                            return Err(LoxResult::run_time_error(tok.line, RuntimeErrorKind::InvalidSuperclass));
                        }
                        sup = Some(sid);
                        scope = match self.new_scope(self.current, tok.line) {
                            Ok(s) => s,
                            Err(err) => return Err(err),
                        };
                        self.environment.define(scope, &str_of("super"), Object::Class(sid));
                    },
                    _ => return Err(LoxResult::run_time_error(tok.line, RuntimeErrorKind::InvalidSuperclass)),
                }
            },
            None => {},
        }
        let init = str_of("init");
        let mut method_names: Vec<String> = Vec::new();
        let mut method_ids: Vec<usize> = Vec::new();
        let mut i: usize = 0;
        while i < methods.len()
            invariant
                self.kept(old(self)),
                scope < self.environment@.len(),
                sup matches Some(s) ==> s < self.classes.len(),
                method_names.len() == method_ids.len(),
                method_names.len() == i,
                i <= methods.len(),
                self.classes == old(self).classes,
            decreases methods.len() - i,
        {
            let m = &methods[i];
            let id = self.functions.len();
            let is_initializer = m.name.lexeme == init;
            self.functions.push(LoxFunction { decl: m.duplicate(), closure: scope, is_initializer });
            method_names.push(m.name.lexeme.clone());
            method_ids.push(id);
            i = i + 1;
        }
        self.classes.push(LoxClass { name: name.lexeme.clone(), superclass: sup, method_names, method_ids });
        let cid = self.classes.len() - 1;
        let ghost before = self.environment@;
        self.environment.define(self.current, &name.lexeme, Object::Class(cid));
        proof {
            lemma_lookup_defined(before, self.current as int, name.lexeme@, Value::Class(cid as int));
        }
        Ok(Flow::Normal)
    }

    /// Evaluates an expression in the active scope.
    pub fn evaluate(&mut self, expression: &Expr) -> (r: Result<Object, LoxResult>)
        requires
            old(self).wf(),
        ensures
            final(self).kept(old(self)),
            r matches Err(e) ==> e is RunTimeError,
            simple_eval(old(self).environment@, old(self).current as int, *expression) matches Some(m) ==> evaluated(
                r,
                m,
            ) && *final(self) == *old(self),
            call_effect(old(self), *expression, MAX_CALL_DEPTH, r),
            property_effect(old(self), final(self), *expression, r),
            literal_only(*expression) ==> (r matches Ok(o) && o@ == literal_of(*expression)),
    {
        proof {
            if literal_only(*expression) {
                lemma_literal_round_trip(old(self).environment@, old(self).current as int, *expression);
            }
        }
        self.eval(expression, MAX_CALL_DEPTH)
    }

    /// Runs the statements in order; the first runtime error stops the run and
    /// is returned. A `return` outside any function ends the run.
    pub fn interpret(&mut self, statements: &Vec<Stmt>) -> (r: Result<(), LoxResult>)
        requires
            old(self).wf(),
        ensures
            final(self).wf(),
            final(self).current == old(self).current,
            final(self).step_limit == old(self).step_limit,
            r matches Err(e) ==> e is RunTimeError,
            stmts_run(old(self).heap(), old(self).environment@, old(self).current as int, old(self).printed(), statements@)
                matches Some((env, out, err)) ==> (final(self).environment@ == env && final(self).printed() == out
                && match err {
                None => r is Ok,
                Some((line, kind)) => r == Err::<(), LoxResult>(LoxResult::RunTimeError { line, kind }),
            }),
    {
        self.steps_left = self.step_limit;
        let ghost all = stmts_run(old(self).heap(), old(self).environment@, old(self).current as int, old(self).printed(), statements@);
        proof {
            assert(statements@.subrange(0, statements@.len() as int) =~= statements@);
        }
        let mut i: usize = 0;
        while i < statements.len()
            invariant
                0 <= i <= statements.len(),
                self.wf(),
                self.current == old(self).current,
                self.step_limit == old(self).step_limit,
                all == stmts_run(old(self).heap(), old(self).environment@, old(self).current as int, old(self).printed(), statements@),
                all is Some ==> same_store(old(self), self) && stmts_run(
                    old(self).heap(),
                    self.environment@,
                    old(self).current as int,
                    self.printed(),
                    statements@.subrange(i as int, statements@.len() as int),
                ) == all,
            decreases statements.len() - i,
        {
            proof {
                let sub = statements@.subrange(i as int, statements@.len() as int);
                assert(sub[0] == statements@[i as int]);
                assert(sub.drop_first() =~= statements@.subrange(i + 1, statements@.len() as int));
            }
            match self.execute(&statements[i], MAX_CALL_DEPTH) {
                Ok(Flow::Normal) => {},
                Ok(Flow::Return(_)) => return Ok(()),
                Err(e) => return Err(e),
            }
            i = i + 1;
        }
        proof {
            assert(statements@.subrange(i as int, statements@.len() as int) =~= Seq::<Stmt>::empty());
        }
        Ok(())
    }
}

/// An expression that is a literal, possibly in parentheses.
pub open spec fn literal_only(e: Expr) -> bool
    decreases e,
{
    match e {
        Expr::Literal(_) => true,
        Expr::Grouping(x) => literal_only(*x),
        _ => false,
    }
}

/// The literal inside such an expression.
pub open spec fn literal_of(e: Expr) -> Value
    decreases e,
{
    match e {
        Expr::Literal(o) => o@,
        Expr::Grouping(x) => literal_of(*x),
        _ => Value::Nil,
    }
}

/// Evaluating a literal-only expression gives back the literal, in any scope,
/// so rendering the result in display form reproduces the literal's own
/// display text.
pub proof fn lemma_literal_round_trip(env: Seq<FrameModel>, cur: int, e: Expr)
    requires
        literal_only(e),
    ensures
        simple_eval(env, cur, e) == Some(Ok::<Value, (usize, RuntimeErrorKind)>(literal_of(e))),
        simple_eval(env, cur, e) matches Some(Ok(v)) && plain_text(v) == plain_text(literal_of(e)),
    decreases e,
{
    match e {
        Expr::Grouping(x) => lemma_literal_round_trip(env, cur, *x),
        _ => {},
    }
}

} // verus!
