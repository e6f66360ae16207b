use vstd::prelude::*;
use crate::error::{LoxResult, RuntimeErrorKind};
use crate::token::{Object, Token};
use crate::value::Value;

verus! {

/// One scope: its bindings and the scope that encloses it.
pub struct Frame {
    pub enclosing: Option<usize>,
    pub names: Vec<String>,
    pub values: Vec<Object>,
}

/// What a scope is, mathematically.
pub ghost struct FrameModel {
    pub enclosing: Option<int>,
    pub names: Seq<Seq<char>>,
    pub values: Seq<Value>,
}

impl View for Frame {
    type V = FrameModel;

    open spec fn view(&self) -> FrameModel {
        FrameModel {
            enclosing: match self.enclosing {
                Some(p) => Some(p as int),
                None => None,
            },
            names: self.names@.map_values(|s: String| s@),
            values: self.values@.map_values(|o: Object| o@),
        }
    }
}

/// All scopes ever made, each named by its index. A scope's enclosing scope was
/// made before it, so the chain of enclosing scopes only goes down and has no cycle;
/// scope 0 is the global one. A closure keeps the index of the scope it was made in,
/// which stays valid for as long as the environment lives.
pub struct Environment {
    pub frames: Vec<Frame>,
}

impl View for Environment {
    type V = Seq<FrameModel>;

    open spec fn view(&self) -> Seq<FrameModel> {
        self.frames@.map_values(|f: Frame| f@)
    }
}

/// Every scope's enclosing scope comes before it, each name has its value, and
/// no name is bound twice in one scope.
pub open spec fn frames_wf(fs: Seq<FrameModel>) -> bool {
    &&& fs.len() > 0
    &&& forall|i: int| #![trigger fs[i]] 0 <= i < fs.len() ==> {
        &&& (fs[i].enclosing matches Some(p) ==> 0 <= p < i)
        &&& fs[i].names.len() == fs[i].values.len()
        &&& distinct(fs[i].names)
    }
}

/// No name occurs twice.
pub open spec fn distinct(names: Seq<Seq<char>>) -> bool {
    forall|a: int, b: int| 0 <= a < b < names.len() ==> #[trigger] names[a] != #[trigger] names[b]
}

/// The position of `name` among `names` (the last one, were it there twice), or -1.
pub open spec fn slot(names: Seq<Seq<char>>, name: Seq<char>) -> int
    decreases names.len(),
{
    if names.len() == 0 {
        -1
    } else if names.last() == name {
        names.len() - 1
    } else {
        slot(names.drop_last(), name)
    }
}

/// The scope and position where `name` is bound, seen from scope `id`: the
/// nearest scope outward that binds it.
pub open spec fn resolve(fs: Seq<FrameModel>, id: int, name: Seq<char>) -> Option<(int, int)>
    decreases id,
{
    if id < 0 || id >= fs.len() {
        None
    } else if slot(fs[id].names, name) >= 0 {
        Some((id, slot(fs[id].names, name)))
    } else {
        match fs[id].enclosing {
            Some(p) => if 0 <= p < id {
                resolve(fs, p, name)
            } else {
                None
            },
            None => None,
        }
    }
}

/// The value of `name` seen from scope `id`.
pub open spec fn lookup(fs: Seq<FrameModel>, id: int, name: Seq<char>) -> Option<Value> {
    match resolve(fs, id, name) {
        Some((f, s)) => Some(fs[f].values[s]),
        None => None,
    }
}

/// How many scopes the chain from scope `id` outward holds.
pub open spec fn depth(fs: Seq<FrameModel>, id: int) -> int
    decreases id,
{
    if id < 0 || id >= fs.len() {
        0
    } else {
        match fs[id].enclosing {
            Some(p) => if 0 <= p < id {
                1 + depth(fs, p)
            } else {
                1
            },
            None => 1,
        }
    }
}

/// The scopes after `name`, in scope `id`, is bound to `v`.
pub open spec fn defined(fs: Seq<FrameModel>, id: int, name: Seq<char>, v: Value) -> Seq<FrameModel> {
    let f = fs[id];
    let s = slot(f.names, name);
    if s >= 0 {
        fs.update(id, FrameModel { values: f.values.update(s, v), ..f })
    } else {
        fs.update(id, FrameModel { names: f.names.push(name), values: f.values.push(v), ..f })
    }
}

/// The scopes after the binding at scope `f`, position `s`, is set to `v`.
pub open spec fn assigned(fs: Seq<FrameModel>, f: int, s: int, v: Value) -> Seq<FrameModel> {
    fs.update(f, FrameModel { values: fs[f].values.update(s, v), ..fs[f] })
}

proof fn lemma_slot_bounds(names: Seq<Seq<char>>, name: Seq<char>)
    ensures
        -1 <= slot(names, name) < names.len(),
        slot(names, name) >= 0 ==> names[slot(names, name)] == name,
        slot(names, name) < 0 ==> forall|i: int| 0 <= i < names.len() ==> names[i] != name,
    decreases names.len(),
{
    if names.len() > 0 {
        lemma_slot_bounds(names.drop_last(), name);
        if names.last() != name {
            assert forall|i: int| 0 <= i < names.len() - 1 implies names[i] == names.drop_last()[i] by {}
        }
    }
}

proof fn lemma_resolve_bounds(fs: Seq<FrameModel>, id: int, name: Seq<char>)
    requires
        frames_wf(fs),
    ensures
        resolve(fs, id, name) matches Some((f, s)) ==> 0 <= f < fs.len() && 0 <= s < fs[f].values.len()
            && fs[f].names[s] == name,
    decreases id,
{
    if 0 <= id < fs.len() {
        lemma_slot_bounds(fs[id].names, name);
        if slot(fs[id].names, name) < 0 {
            if let Some(p) = fs[id].enclosing {
                lemma_resolve_bounds(fs, p, name);
            }
        }
    }
}

/// Right after `name` is defined in scope `id`, it is seen there with its value.
pub proof fn lemma_lookup_defined(fs: Seq<FrameModel>, id: int, name: Seq<char>, v: Value)
    requires
        frames_wf(fs),
        0 <= id < fs.len(),
    ensures
        lookup(defined(fs, id, name, v), id, name) == Some(v),
{
    let f = fs[id];
    lemma_slot_bounds(f.names, name);
    let s = slot(f.names, name);
    if s < 0 {
        let names2 = f.names.push(name);
        assert(names2.drop_last() =~= f.names);
        assert(slot(names2, name) == f.names.len());
    }
}

/// Setting a variable to the value it already has changes nothing: no scope is
/// added or dropped, every chain keeps its depth, and every name seen from every
/// scope keeps its value.
pub proof fn lemma_reassign_same_value(fs: Seq<FrameModel>, id: int, name: Seq<char>, v: Value)
    requires
        frames_wf(fs),
        lookup(fs, id, name) == Some(v),
    ensures
        resolve(fs, id, name) matches Some((f, s)) && ({
            let after = assigned(fs, f, s, v);
            &&& after.len() == fs.len()
            &&& frames_wf(after)
            &&& forall|j: int| #![trigger depth(after, j)] depth(after, j) == depth(fs, j)
            &&& forall|j: int, n: Seq<char>| #![trigger lookup(after, j, n)] lookup(after, j, n) == lookup(fs, j, n)
        }),
{
    lemma_resolve_bounds(fs, id, name);
    let (f, s) = resolve(fs, id, name)->0;
    assert(fs[f].values[s] == v);
    let after = assigned(fs, f, s, v);
    assert(fs[f].values.update(s, v) =~= fs[f].values);
    assert(after =~= fs);
}

impl Environment {
    pub open spec fn wf(&self) -> bool {
        frames_wf(self@)
    }

    /// An environment holding only the global scope, with no bindings.
    pub fn new() -> (e: Environment)
        ensures
            e.wf(),
            e@.len() == 1,
            e@[0].enclosing is None,
            e@[0].names.len() == 0,
            e@ == seq![FrameModel { enclosing: None, names: Seq::empty(), values: Seq::empty() }],
    {
        let mut frames: Vec<Frame> = Vec::new();
        frames.push(Frame { enclosing: None, names: Vec::new(), values: Vec::new() });
        let e = Environment { frames };
        proof {
            assert(e@[0].names =~= Seq::<Seq<char>>::empty());
            assert(e@[0].values =~= Seq::<Value>::empty());
            assert(e@ =~= seq![FrameModel { enclosing: None, names: Seq::empty(), values: Seq::empty() }]);
        }
        e
    }

    /// Makes a new, empty scope enclosed by scope `enclosing`, and returns its index.
    pub fn new_with_enclosing(&mut self, enclosing: usize) -> (id: usize)
        requires
            old(self).wf(),
            enclosing < old(self)@.len(),
            old(self)@.len() < usize::MAX,
        ensures
            final(self).wf(),
            id == old(self)@.len(),
            final(self)@ == old(self)@.push(
                FrameModel { enclosing: Some(enclosing as int), names: Seq::empty(), values: Seq::empty() },
            ),
    {
        let id = self.frames.len();
        let ghost before = self@;
        self.frames.push(Frame { enclosing: Some(enclosing), names: Vec::new(), values: Vec::new() });
        proof {
            let fm = FrameModel { enclosing: Some(enclosing as int), names: Seq::empty(), values: Seq::empty() };
            assert(self@[id as int].names =~= fm.names);
            assert(self@[id as int].values =~= fm.values);
            assert(self@ =~= before.push(fm));
        }
        id
    }

    /// The position of `name` in scope `id`, or `None`.
    fn find(&self, id: usize, name: &String) -> (r: Option<usize>)
        requires
            self.wf(),
            id < self@.len(),
        ensures
            r is None <==> slot(self@[id as int].names, name@) < 0,
            r matches Some(s) ==> slot(self@[id as int].names, name@) == s as int,
    {
        let frame = &self.frames[id];
        let ghost names = self@[id as int].names;
        let mut i = frame.names.len();
        proof {
            assert(names =~= names.subrange(0, i as int));
        }
        while i > 0
            invariant
                0 <= i <= frame.names.len(),
                names == frame.names@.map_values(|s: String| s@),
                names == self@[id as int].names,
                slot(names, name@) == slot(names.subrange(0, i as int), name@),
            decreases i,
        {
            if frame.names[i - 1] == *name {
                proof {
                    assert(names[i - 1] == frame.names@[i - 1]@);
                    assert(names.subrange(0, i as int).last() == name@);
                }
                return Some(i - 1);
            }
            proof {
                assert(names.subrange(0, i as int).drop_last() =~= names.subrange(0, i - 1));
            }
            i = i - 1;
        }
        None
    }

    /// Binds `name` to `value` in scope `id`, replacing a binding of the same name
    /// in that scope only.
    pub fn define(&mut self, id: usize, name: &String, value: Object)
        requires
            old(self).wf(),
            id < old(self)@.len(),
        ensures
            final(self).wf(),
            final(self)@ == defined(old(self)@, id as int, name@, value@),
            final(self)@.len() == old(self)@.len(),
    {
        let ghost before = self@;
        let ghost v = value@;
        proof {
            lemma_slot_bounds(before[id as int].names, name@);
        }
        match self.find(id, name) {
            Some(s) => {
                let ghost fb = self.frames@[id as int]@;
                self.frames[id].values.set(s, value);
                proof {
                    assert(self.frames@[id as int]@.values =~= fb.values.update(s as int, v));
                    assert(self.frames@[id as int]@.names =~= fb.names);
                    assert(self.frames@[id as int]@ == defined(before, id as int, name@, v)[id as int]);
                }
            },
            None => {
                let ghost fb = self.frames@[id as int]@;
                self.frames[id].names.push(name.clone());
                self.frames[id].values.push(value);
                proof {
                    assert(self.frames@[id as int]@.values =~= fb.values.push(v));
                    assert(self.frames@[id as int]@.names =~= fb.names.push(name@));
                    let nn = fb.names.push(name@);
                    assert forall|a: int, b: int| 0 <= a < b < nn.len() implies #[trigger] nn[a] != #[trigger] nn[b] by {
                        if b == nn.len() - 1 {
                            assert(nn[a] == fb.names[a]);
                        } else {
                            assert(nn[a] == fb.names[a] && nn[b] == fb.names[b]);
                        }
                    }
                    assert(self.frames@[id as int]@ == defined(before, id as int, name@, v)[id as int]);
                }
            },
        }
        proof {
            let after = defined(before, id as int, name@, v);
            assert(self@.len() == after.len());
            assert forall|j: int| 0 <= j < self@.len() implies self@[j] == after[j] by {
                if j != id {
                    assert(self.frames@[j] == old(self).frames@[j]);
                }
            }
            assert(self@ =~= after);
        }
    }

    /// Where `name` is bound, seen from scope `id`.
    fn resolve_exec(&self, id: usize, name: &String) -> (r: Option<(usize, usize)>)
        requires
            self.wf(),
            id < self@.len(),
        ensures
            r matches Some((f, s)) ==> resolve(self@, id as int, name@) == Some((f as int, s as int)),
            r is None ==> resolve(self@, id as int, name@) is None,
            r matches Some((f, s)) ==> f < self@.len() && s < self@[f as int].values.len(),
    {
        let mut cur = id;
        proof {
            lemma_resolve_bounds(self@, id as int, name@);
        }
        loop
            invariant
                self.wf(),
                cur < self@.len(),
                resolve(self@, id as int, name@) == resolve(self@, cur as int, name@),
            decreases cur,
        {
            proof {
                lemma_slot_bounds(self@[cur as int].names, name@);
                assert(self@[cur as int] == self.frames@[cur as int]@);
            }
            match self.find(cur, name) {
                Some(s) => {
                    proof {
                        assert(slot(self@[cur as int].names, name@) == s as int);
                        assert(resolve(self@, cur as int, name@) == Some((cur as int, s as int)));
                    }
                    return Some((cur, s));
                },
                None => {},
            }
            match self.frames[cur].enclosing {
                Some(p) => {
                    cur = p;
                },
                None => {
                    return None;
                },
            }
        }
    }

    /// The value of `name` seen from scope `id`: the nearest binding outward.
    pub fn get(&self, id: usize, name: &Token) -> (r: Result<Object, LoxResult>)
        requires
            self.wf(),
            id < self@.len(),
        ensures
            lookup(self@, id as int, name.lexeme@) matches Some(v) ==> r matches Ok(o) && o@ == v,
            lookup(self@, id as int, name.lexeme@) is None ==> r == Err::<Object, LoxResult>(
                LoxResult::RunTimeError { line: name.line, kind: RuntimeErrorKind::UndefinedVariable },
            ),
    {
        match self.resolve_exec(id, &name.lexeme) {
            Some((f, s)) => {
                proof {
                    assert(self@[f as int].values[s as int] == self.frames@[f as int].values@[s as int]@);
                }
                Ok(self.frames[f].values[s].duplicate())
            },
            None => Err(LoxResult::run_time_error(name.line, RuntimeErrorKind::UndefinedVariable)),
        }
    }

    /// Sets the nearest binding of `name` outward from scope `id`; a name bound
    /// nowhere is an error, and nothing changes then.
    pub fn assign(&mut self, id: usize, name: &Token, value: Object) -> (r: Result<(), LoxResult>)
        requires
            old(self).wf(),
            id < old(self)@.len(),
        ensures
            final(self).wf(),
            final(self)@.len() == old(self)@.len(),
            resolve(old(self)@, id as int, name.lexeme@) matches Some((f, s)) ==> r is Ok
                && final(self)@ == assigned(old(self)@, f, s, value@),
            resolve(old(self)@, id as int, name.lexeme@) is None ==> final(self)@ == old(self)@
                && r == Err::<(), LoxResult>(
                LoxResult::RunTimeError { line: name.line, kind: RuntimeErrorKind::UndefinedVariable },
            ),
    {
        match self.resolve_exec(id, &name.lexeme) {
            Some((f, s)) => {
                let ghost before = self@;
                let ghost v = value@;
                let ghost fb = self.frames@[f as int]@;
                self.frames[f].values.set(s, value);
                proof {
                    let after = assigned(before, f as int, s as int, v);
                    assert(self.frames@[f as int]@.values =~= fb.values.update(s as int, v));
                    assert(self.frames@[f as int]@.names =~= fb.names);
                    assert(self.frames@[f as int]@ == after[f as int]);
                    assert forall|j: int| 0 <= j < self@.len() implies self@[j] == after[j] by {
                        if j != f {
                            assert(self.frames@[j] == old(self).frames@[j]);
                        }
                    }
                    assert(self@ =~= after);
                }
                Ok(())
            },
            None => Err(LoxResult::run_time_error(name.line, RuntimeErrorKind::UndefinedVariable)),
        }
    }
}

} // verus!
