use vstd::prelude::*;

use crate::value::{
    EvalError, EvalResult, SError, SResult, SValue, Value, lemma_value_views, result_view, value_views,
};

verus! {

/// One scope: its variables, the scope it was opened in, and the stack of
/// moduli of the `mod` blocks that are open in it.
#[derive(Debug)]
pub struct Env {
    vars: Vec<(String, Value)>,
    parent: Option<usize>,
    caller: Option<usize>,
    modulus: Vec<i64>,
}

/// A reference to a scope: its index in the [`Store`].
pub type EnvRef = usize;

/// The model of a scope.
pub struct SFrame {
    pub vars: Map<Seq<char>, SValue>,
    pub parent: Option<nat>,
    pub caller: Option<nat>,
    pub modulus: Seq<i64>,
}

/// The variables that a list of bindings defines; a later binding of a name
/// hides an earlier one.
pub open spec fn bindings_map(s: Seq<(String, Value)>) -> Map<Seq<char>, SValue>
    decreases s.len(),
{
    if s.len() == 0 {
        Map::empty()
    } else {
        bindings_map(s.drop_last()).insert(s.last().0@, s.last().1@)
    }
}

impl View for Env {
    type V = SFrame;

    closed spec fn view(&self) -> SFrame {
        SFrame {
            vars: bindings_map(self.vars@),
            parent: match self.parent {
                Some(p) => Some(p as nat),
                None => None,
            },
            caller: match self.caller {
                Some(c) => Some(c as nat),
                None => None,
            },
            modulus: self.modulus@,
        }
    }
}

/// The modulus that arithmetic in a scope is reduced by: the innermost open
/// `mod` block's, if any.
pub open spec fn top_modulus(m: Seq<i64>) -> Option<i64> {
    if m.len() == 0 {
        None
    } else {
        Some(m.last())
    }
}

proof fn lemma_bindings_tail(s: Seq<(String, Value)>, i: int, k: Seq<char>)
    requires
        0 <= i <= s.len(),
        forall|j: int| i <= j < s.len() ==> s[j].0@ != k,
    ensures
        bindings_map(s).contains_key(k) == bindings_map(s.take(i)).contains_key(k),
        bindings_map(s).contains_key(k) ==> bindings_map(s)[k] == bindings_map(s.take(i))[k],
    decreases s.len(),
{
    if s.len() == i {
        assert(s.take(i) =~= s);
    } else {
        assert(s.drop_last().take(i) =~= s.take(i));
        lemma_bindings_tail(s.drop_last(), i, k);
    }
}

proof fn lemma_bindings_update(s: Seq<(String, Value)>, i: int, b: (String, Value))
    requires
        0 <= i < s.len(),
        s[i].0@ == b.0@,
        forall|j: int| i < j < s.len() ==> s[j].0@ != b.0@,
    ensures
        bindings_map(s.update(i, b)) == bindings_map(s).insert(b.0@, b.1@),
    decreases s.len(),
{
    let t = s.update(i, b);
    if i == s.len() - 1 {
        assert(t.drop_last() =~= s.drop_last());
        assert(bindings_map(t) =~= bindings_map(s).insert(b.0@, b.1@));
    } else {
        assert(t.drop_last() =~= s.drop_last().update(i, b));
        lemma_bindings_update(s.drop_last(), i, b);
        assert(bindings_map(t) =~= bindings_map(s).insert(b.0@, b.1@));
    }
}

proof fn lemma_bindings_push(s: Seq<(String, Value)>, b: (String, Value))
    ensures
        bindings_map(s.push(b)) == bindings_map(s).insert(b.0@, b.1@),
{
    assert(s.push(b).drop_last() =~= s);
}

/// Where a name is bound in a list of bindings: its last binding.
fn find_binding(vars: &Vec<(String, Value)>, name: &String) -> (r: Option<usize>)
    ensures
        r matches Some(i) ==> {
            &&& i < vars@.len()
            &&& vars@[i as int].0@ == name@
            &&& forall|j: int| i < j < vars@.len() ==> vars@[j].0@ != name@
        },
        r is None ==> forall|j: int| 0 <= j < vars@.len() ==> vars@[j].0@ != name@,
        r is None <==> !bindings_map(vars@).contains_key(name@),
        r matches Some(i) ==> bindings_map(vars@)[name@] == vars@[i as int].1@,
{
    let mut i = vars.len();
    while i > 0
        invariant
            i <= vars@.len(),
            forall|j: int| i <= j < vars@.len() ==> vars@[j].0@ != name@,
        decreases i,
    {
        if vars[i - 1].0 == *name {
            proof {
                lemma_bindings_tail(vars@, i as int, name@);
                let t = vars@.take(i as int);
                assert(t.drop_last() =~= vars@.take(i - 1));
                assert(t.last() == vars@[i - 1]);
            }
            return Some(i - 1);
        }
        i -= 1;
    }
    proof {
        lemma_bindings_tail(vars@, 0, name@);
        assert(vars@.take(0) =~= Seq::<(String, Value)>::empty());
    }
    None
}

/// The value of a name seen from scope `id`: its own binding, else the one
/// seen from the scope it was opened in.
pub open spec fn chain_lookup(frames: Seq<SFrame>, id: nat, name: Seq<char>) -> Option<SValue>
    decreases id,
{
    if id >= frames.len() {
        None
    } else if frames[id as int].vars.contains_key(name) {
        Some(frames[id as int].vars[name])
    } else {
        match frames[id as int].parent {
            Some(p) => if p < id {
                chain_lookup(frames, p, name)
            } else {
                None
            },
            None => None,
        }
    }
}

/// The scope, seen from `id`, that holds the binding of a name.
pub open spec fn chain_owner(frames: Seq<SFrame>, id: nat, name: Seq<char>) -> Option<nat>
    decreases id,
{
    if id >= frames.len() {
        None
    } else if frames[id as int].vars.contains_key(name) {
        Some(id)
    } else {
        match frames[id as int].parent {
            Some(p) => if p < id {
                chain_owner(frames, p, name)
            } else {
                None
            },
            None => None,
        }
    }
}

/// The value of a name seen from scope `id`. Names are looked up along the
/// scopes `id` was opened in first (see [`chain_lookup`]); a name that none
/// of them binds is looked up from the scope that made the innermost call
/// around `id` (see [`dyn_lookup`]).
pub open spec fn name_lookup(frames: Seq<SFrame>, id: nat, name: Seq<char>) -> Option<SValue>
    decreases id, 1nat,
{
    match chain_lookup(frames, id, name) {
        Some(v) => Some(v),
        None => dyn_lookup(frames, id, name),
    }
}

/// The value of a name seen from the scope that made the innermost call
/// around scope `id`: the caller of the first scope, from `id` outwards, that
/// a call opened.
pub open spec fn dyn_lookup(frames: Seq<SFrame>, id: nat, name: Seq<char>) -> Option<SValue>
    decreases id, 0nat,
{
    if id >= frames.len() {
        None
    } else {
        match frames[id as int].caller {
            Some(c) => if c < id {
                name_lookup(frames, c, name)
            } else {
                None
            },
            None => match frames[id as int].parent {
                Some(p) => if p < id {
                    dyn_lookup(frames, p, name)
                } else {
                    None
                },
                None => None,
            },
        }
    }
}

/// The scope that holds the binding that [`name_lookup`] finds.
pub open spec fn name_owner(frames: Seq<SFrame>, id: nat, name: Seq<char>) -> Option<nat>
    decreases id, 1nat,
{
    match chain_owner(frames, id, name) {
        Some(o) => Some(o),
        None => dyn_owner(frames, id, name),
    }
}

/// The scope that holds the binding that [`dyn_lookup`] finds.
pub open spec fn dyn_owner(frames: Seq<SFrame>, id: nat, name: Seq<char>) -> Option<nat>
    decreases id, 0nat,
{
    if id >= frames.len() {
        None
    } else {
        match frames[id as int].caller {
            Some(c) => if c < id {
                name_owner(frames, c, name)
            } else {
                None
            },
            None => match frames[id as int].parent {
                Some(p) => if p < id {
                    dyn_owner(frames, p, name)
                } else {
                    None
                },
                None => None,
            },
        }
    }
}

/// The scope that holds a binding is one of the scopes.
pub proof fn lemma_chain_owner_bound(frames: Seq<SFrame>, id: nat, name: Seq<char>)
    ensures
        chain_owner(frames, id, name) matches Some(o) ==> o < frames.len() && o <= id
            && frames[o as int].vars.contains_key(name),
    decreases id,
{
    if id < frames.len() && !frames[id as int].vars.contains_key(name) {
        if let Some(p) = frames[id as int].parent {
            if p < id {
                lemma_chain_owner_bound(frames, p, name);
            }
        }
    }
}

/// The scope that [`name_owner`] gives is one of the scopes, and binds the name.
pub proof fn lemma_name_owner_bound(frames: Seq<SFrame>, id: nat, name: Seq<char>)
    ensures
        name_owner(frames, id, name) matches Some(o) ==> o < frames.len() && o <= id
            && frames[o as int].vars.contains_key(name),
        dyn_owner(frames, id, name) matches Some(o) ==> o < frames.len() && o <= id
            && frames[o as int].vars.contains_key(name),
    decreases id,
{
    lemma_chain_owner_bound(frames, id, name);
    if id < frames.len() {
        match frames[id as int].caller {
            Some(c) => if c < id {
                lemma_name_owner_bound(frames, c, name);
            },
            None => match frames[id as int].parent {
                Some(p) => if p < id {
                    lemma_name_owner_bound(frames, p, name);
                },
                None => {},
            },
        }
    }
}

/// [`name_lookup`] gives the binding in the scope that [`name_owner`] gives.
pub proof fn lemma_name_lookup_is_owner(frames: Seq<SFrame>, id: nat, name: Seq<char>)
    ensures
        name_lookup(frames, id, name) == (match name_owner(frames, id, name) {
            Some(o) => Some(frames[o as int].vars[name]),
            None => None,
        }),
        dyn_lookup(frames, id, name) == (match dyn_owner(frames, id, name) {
            Some(o) => Some(frames[o as int].vars[name]),
            None => None,
        }),
    decreases id,
{
    lemma_chain_lookup_is_owner(frames, id, name);
    if id < frames.len() {
        match frames[id as int].caller {
            Some(c) => if c < id {
                lemma_name_lookup_is_owner(frames, c, name);
            },
            None => match frames[id as int].parent {
                Some(p) => if p < id {
                    lemma_name_lookup_is_owner(frames, p, name);
                },
                None => {},
            },
        }
    }
}

/// [`chain_lookup`] gives the binding in the scope that [`chain_owner`] gives.
pub proof fn lemma_chain_lookup_is_owner(frames: Seq<SFrame>, id: nat, name: Seq<char>)
    ensures
        chain_lookup(frames, id, name) == (match chain_owner(frames, id, name) {
            Some(o) => Some(frames[o as int].vars[name]),
            None => None,
        }),
    decreases id,
{
    if id < frames.len() && !frames[id as int].vars.contains_key(name) {
        if let Some(p) = frames[id as int].parent {
            if p < id {
                lemma_chain_lookup_is_owner(frames, p, name);
            }
        }
    }
}

/// Scopes `a` and `b` agree on `name`: the same enclosing and calling
/// scopes, and the same binding of `name`, if any.
pub open spec fn same_for_name(a: SFrame, b: SFrame, name: Seq<char>) -> bool {
    &&& a.parent == b.parent
    &&& a.caller == b.caller
    &&& a.vars.contains_key(name) == b.vars.contains_key(name)
    &&& a.vars.contains_key(name) ==> a.vars[name] == b.vars[name]
}

/// Scopes `a` and `b` agree on where `name` is bound: the same enclosing and
/// calling scopes, and both bind `name` or neither does.
pub open spec fn same_place_for_name(a: SFrame, b: SFrame, name: Seq<char>) -> bool {
    &&& a.parent == b.parent
    &&& a.caller == b.caller
    &&& a.vars.contains_key(name) == b.vars.contains_key(name)
}

/// Two lists of scopes whose first `n` scopes agree on `name` give the same
/// value of `name` seen from any of those scopes.
pub proof fn lemma_lookup_agrees(f1: Seq<SFrame>, f2: Seq<SFrame>, n: nat, id: nat, name: Seq<char>)
    requires
        n <= f1.len(),
        n <= f2.len(),
        id < n,
        forall|k: int| 0 <= k < n ==> #[trigger] same_for_name(f1[k], f2[k], name),
    ensures
        chain_lookup(f1, id, name) == chain_lookup(f2, id, name),
        name_lookup(f1, id, name) == name_lookup(f2, id, name),
        dyn_lookup(f1, id, name) == dyn_lookup(f2, id, name),
    decreases id,
{
    assert(same_for_name(f1[id as int], f2[id as int], name));
    if let Some(p) = f1[id as int].parent {
        if p < id {
            lemma_lookup_agrees(f1, f2, n, p, name);
        }
    }
    if let Some(c) = f1[id as int].caller {
        if c < id {
            lemma_lookup_agrees(f1, f2, n, c, name);
        }
    }
}

/// Two lists of scopes whose first `n` scopes agree on where `name` is bound
/// give the same scope holding it, seen from any of those scopes.
pub proof fn lemma_owner_agrees(f1: Seq<SFrame>, f2: Seq<SFrame>, n: nat, id: nat, name: Seq<char>)
    requires
        n <= f1.len(),
        n <= f2.len(),
        id < n,
        forall|k: int| 0 <= k < n ==> #[trigger] same_place_for_name(f1[k], f2[k], name),
    ensures
        chain_owner(f1, id, name) == chain_owner(f2, id, name),
        name_owner(f1, id, name) == name_owner(f2, id, name),
        dyn_owner(f1, id, name) == dyn_owner(f2, id, name),
    decreases id,
{
    assert(same_place_for_name(f1[id as int], f2[id as int], name));
    if let Some(p) = f1[id as int].parent {
        if p < id {
            lemma_owner_agrees(f1, f2, n, p, name);
        }
    }
    if let Some(c) = f1[id as int].caller {
        if c < id {
            lemma_owner_agrees(f1, f2, n, c, name);
        }
    }
}

/// Replaces the element that `path` leads to inside `v` by `new`.
/// Each step must be a number that indexes an array.
pub open spec fn set_path(v: SValue, path: Seq<SValue>, new: SValue) -> Result<SValue, SError>
    decreases path.len(),
{
    if path.len() == 0 {
        Ok(new)
    } else {
        match path[0] {
            SValue::Number(k) => match v {
                SValue::Array(a) => if 0 <= k < a.len() {
                    match set_path(a[k as int], path.drop_first(), new) {
                        Ok(x) => Ok(SValue::Array(a.update(k as int, x))),
                        Err(e) => Err(e),
                    }
                } else {
                    Err(SError::IndexError)
                },
                _ => Err(SError::TypeError("cannot index into non-array"@)),
            },
            _ => Err(SError::TypeError("index has to be a number"@)),
        }
    }
}

/// Replaces the element `path[k..]` leads to inside `v`; on error `v` is unchanged.
fn set_at(v: &mut Value, path: &Vec<Value>, k: usize, new: Value) -> (r: Result<(), EvalError>)
    requires
        k <= path@.len(),
    ensures
        match set_path(old(v)@, value_views(path@).skip(k as int), new@) {
            Ok(x) => r is Ok && final(v)@ == x,
            Err(e) => r matches Err(e2) && e2@ == e && final(v)@ == old(v)@,
        },
    decreases path@.len() - k,
{
    proof {
        lemma_value_views(path@);
    }
    let ghost pv = value_views(path@).skip(k as int);
    if k == path.len() {
        *v = new;
        return Ok(());
    }
    assert(pv[0] == path@[k as int]@);
    assert(pv.drop_first() =~= value_views(path@).skip(k + 1));
    let idx = match &path[k] {
        Value::Number(x) => *x,
        _ => {
            return Err(EvalError::TypeError("index has to be a number"));
        },
    };
    match v {
        Value::Array(a) => {
            let ghost a0 = a@;
            proof {
                lemma_value_views(a@);
            }
            if idx < 0 || idx as u64 >= a.len() as u64 {
                return Err(EvalError::IndexError);
            }
            let i = idx as usize;
            let mut elem = Value::Nil;
            a.set_and_swap(i, &mut elem);
            let r = set_at(&mut elem, path, k + 1, new);
            let ghost e1 = elem;
            a.set_and_swap(i, &mut elem);
            proof {
                lemma_value_views(a@);
                lemma_value_views(a0);
                assert(a@ =~= a0.update(i as int, e1));
                assert(value_views(a@) =~= value_views(a0).update(i as int, e1@));
            }
            match r {
                Ok(()) => Ok(()),
                Err(e) => {
                    proof {
                        assert(value_views(a@) =~= value_views(a0));
                    }
                    Err(e)
                },
            }
        },
        _ => Err(EvalError::TypeError("cannot index into non-array")),
    }
}

/// The models of an optional value.
pub open spec fn opt_view(o: Option<Value>) -> Option<SValue> {
    match o {
        Some(v) => Some(v@),
        None => None,
    }
}

impl Env {
    /// A scope with no variables, no enclosing scope and no open `mod` block.
    pub fn new() -> (r: Env)
        ensures
            r@.vars == Map::<Seq<char>, SValue>::empty(),
            r@.parent is None,
            r@.caller is None,
            r@.modulus == Seq::<i64>::empty(),
    {
        Env { vars: Vec::new(), parent: None, caller: None, modulus: Vec::new() }
    }

    /// A new scope opened inside `parent` (whose contents are `parent_env`): no
    /// variables of its own, and the moduli that are open in the parent.
    pub fn child(parent: EnvRef, parent_env: &Env) -> (r: Env)
        ensures
            r@.vars == Map::<Seq<char>, SValue>::empty(),
            r@.parent == Some(parent as nat),
            r@.caller is None,
            r@.modulus == parent_env@.modulus,
    {
        Env {
            vars: Vec::new(),
            parent: Some(parent),
            caller: None,
            modulus: copy_moduli(&parent_env.modulus),
        }
    }

    /// The scope of a call, made from scope `caller`, of a lambda whose
    /// scope is unknown: no variables, no enclosing scope and no open `mod`
    /// block.
    pub fn called_from(caller: EnvRef) -> (r: Env)
        ensures
            r@.vars == Map::<Seq<char>, SValue>::empty(),
            r@.parent is None,
            r@.caller == Some(caller as nat),
            r@.modulus == Seq::<i64>::empty(),
    {
        Env { vars: Vec::new(), parent: None, caller: Some(caller), modulus: Vec::new() }
    }

    /// The scope of a call, made from scope `caller`, of a lambda created in
    /// `parent` (whose contents are `parent_env`): like [`Env::child`], and it
    /// remembers the scope the call was made from.
    pub fn call_scope(parent: EnvRef, caller: EnvRef, parent_env: &Env) -> (r: Env)
        ensures
            r@.vars == Map::<Seq<char>, SValue>::empty(),
            r@.parent == Some(parent as nat),
            r@.caller == Some(caller as nat),
            r@.modulus == parent_env@.modulus,
    {
        Env {
            vars: Vec::new(),
            parent: Some(parent),
            caller: Some(caller),
            modulus: copy_moduli(&parent_env.modulus),
        }
    }

    /// The innermost open modulus.
    pub fn current_modulus(&self) -> (r: Option<i64>)
        ensures
            r == top_modulus(self@.modulus),
    {
        if self.modulus.len() == 0 {
            None
        } else {
            Some(self.modulus[self.modulus.len() - 1])
        }
    }

    /// The value of `name` bound in this scope itself.
    pub fn get_local(&self, name: &String) -> (r: Option<Value>)
        ensures
            opt_view(r) == (if self@.vars.contains_key(name@) {
                Some(self@.vars[name@])
            } else {
                None
            }),
    {
        match find_binding(&self.vars, name) {
            Some(i) => Some(self.vars[i].1.deep_clone()),
            None => None,
        }
    }

    /// The value of `name` seen from this scope, as if it were the next scope
    /// of `store`: its own binding, else one along the scopes it was opened
    /// in, else the one seen from the scope it was called from; see
    /// [`name_lookup`].
    pub fn get(&self, name: &str, store: &Store) -> (r: Option<Value>)
        requires
            store.wf(),
        ensures
            opt_view(r) == name_lookup(store@.frames.push(self@), store@.frames.len(), name@),
    {
        let ghost frames = store@.frames;
        let ghost more = frames.push(self@);
        let ghost n = frames.len();
        assert(more[n as int] == self@);
        let name = name.to_string();
        match find_binding(&self.vars, &name) {
            Some(i) => Some(self.vars[i].1.deep_clone()),
            None => {
                let lexical = match self.parent {
                    Some(p) => {
                        proof {
                            if p < n {
                                lemma_lookup_agrees(frames, more, n, p as nat, name@);
                            }
                        }
                        store.lookup_chain(p, &name)
                    },
                    None => None,
                };
                match lexical {
                    Some(v) => Some(v),
                    None => match self.caller {
                        Some(c) => {
                            proof {
                                if c < n {
                                    lemma_lookup_agrees(frames, more, n, c as nat, name@);
                                }
                            }
                            store.lookup(c, &name)
                        },
                        None => match self.parent {
                            Some(p) => {
                                proof {
                                    if p < n {
                                        lemma_lookup_agrees(frames, more, n, p as nat, name@);
                                    }
                                }
                                store.lookup_caller(p, &name)
                            },
                            None => None,
                        },
                    },
                }
            },
        }
    }

    /// Binds `name` in this scope, replacing any earlier binding of it here.
    pub fn set(&mut self, name: String, val: Value)
        ensures
            final(self)@.vars == old(self)@.vars.insert(name@, val@),
            final(self)@.parent == old(self)@.parent,
            final(self)@.caller == old(self)@.caller,
            final(self)@.modulus == old(self)@.modulus,
    {
        let ghost k = name@;
        let ghost v = val@;
        match find_binding(&self.vars, &name) {
            Some(i) => {
                proof {
                    lemma_bindings_update(self.vars@, i as int, (name, val));
                }
                self.vars.set(i, (name, val));
            },
            None => {
                proof {
                    lemma_bindings_push(self.vars@, (name, val));
                }
                self.vars.push((name, val));
            },
        }
    }

    /// Replaces, in the binding of `name` in this scope, the element that
    /// `indices` lead to. On error nothing changes.
    fn modify_local(&mut self, name: &String, indices: &Vec<Value>, to_set: Value) -> (r: Result<
        (),
        EvalError,
    >)
        requires
            old(self)@.vars.contains_key(name@),
        ensures
            final(self)@.parent == old(self)@.parent,
            final(self)@.caller == old(self)@.caller,
            final(self)@.modulus == old(self)@.modulus,
            match set_path(old(self)@.vars[name@], value_views(indices@), to_set@) {
                Ok(x) => r is Ok && final(self)@.vars == old(self)@.vars.insert(name@, x),
                Err(e) => r matches Err(e2) && e2@ == e && final(self)@ == old(self)@,
            },
    {
        let i = find_binding(&self.vars, name).unwrap();
        let ghost vs = self.vars@;
        let mut b = (String::new(), Value::Nil);
        self.vars.set_and_swap(i, &mut b);
        assert(value_views(indices@).skip(0) =~= value_views(indices@));
        let r = set_at(&mut b.1, indices, 0, to_set);
        proof {
            lemma_bindings_update(vs, i as int, b);
        }
        self.vars.set_and_swap(i, &mut b);
        proof {
            assert(self.vars@ == vs.update(i as int, self.vars@[i as int]));
            if r is Err {
                assert(bindings_map(self.vars@) =~= bindings_map(vs));
            }
        }
        r
    }

    /// Replaces, in the binding of `name` seen from this scope, the element
    /// that `indices` lead to by `to_set`, and returns `to_set`. The binding
    /// may live in an enclosing scope in `store`. On error nothing changes.
    pub fn modify(&mut self, name: String, indices: Vec<Value>, to_set: Value, store: &mut Store) -> (r:
        EvalResult)
        requires
            old(store).wf(),
        ensures
            final(store).wf(),
            if old(self)@.vars.contains_key(name@) {
                &&& final(store)@ == old(store)@
                &&& final(self)@.parent == old(self)@.parent
                &&& final(self)@.caller == old(self)@.caller
                &&& final(self)@.modulus == old(self)@.modulus
                &&& match set_path(old(self)@.vars[name@], value_views(indices@), to_set@) {
                    Ok(x) => result_view(r) == Ok::<SValue, SError>(to_set@) && final(self)@.vars
                        == old(self)@.vars.insert(name@, x),
                    Err(e) => result_view(r) == Err::<SValue, SError>(e) && final(self)@ == old(
                        self,
                    )@,
                }
            } else {
                &&& final(self)@ == old(self)@
                &&& match old(self)@.parent {
                    Some(p) => result_view(r) == store_modify(
                        old(store)@,
                        p,
                        name@,
                        value_views(indices@),
                        to_set@,
                    ).0 && final(store)@ == store_modify(
                        old(store)@,
                        p,
                        name@,
                        value_views(indices@),
                        to_set@,
                    ).1,
                    None => final(store)@ == old(store)@ && result_view(r) == Err::<SValue, SError>(
                        SError::UndefinedVariable(name@),
                    ),
                }
            },
    {
        match find_binding(&self.vars, &name) {
            Some(_) => {
                let copy = to_set.deep_clone();
                match self.modify_local(&name, &indices, to_set) {
                    Ok(()) => Ok(copy),
                    Err(e) => Err(e),
                }
            },
            None => match self.parent {
                Some(p) => store.assign(p, &name, &indices, to_set),
                None => Err(EvalError::UndefinedVariable(name)),
            },
        }
    }

    /// Opens a `mod` block: arithmetic here is reduced modulo `m` until it is
    /// closed (and is an error while `m` is 0).
    pub fn set_modulus(&mut self, modulus: i64)
        ensures
            final(self)@.vars == old(self)@.vars,
            final(self)@.parent == old(self)@.parent,
            final(self)@.caller == old(self)@.caller,
            final(self)@.modulus == old(self)@.modulus.push(modulus),
    {
        self.modulus.push(modulus);
    }

    /// Closes the innermost `mod` block.
    pub fn reset_modulus(&mut self)
        ensures
            final(self)@.vars == old(self)@.vars,
            final(self)@.parent == old(self)@.parent,
            final(self)@.caller == old(self)@.caller,
            final(self)@.modulus == pop_moduli(old(self)@.modulus),
    {
        self.modulus.pop();
    }
}

fn copy_moduli(m: &Vec<i64>) -> (r: Vec<i64>)
    ensures
        r@ == m@,
{
    let mut r: Vec<i64> = Vec::new();
    let mut i: usize = 0;
    while i < m.len()
        invariant
            i <= m.len(),
            r@ == m@.take(i as int),
        decreases m.len() - i,
    {
        r.push(m[i]);
        i += 1;
        assert(r@ =~= m@.take(i as int));
    }
    assert(m@.take(m.len() as int) =~= m@);
    r
}

/// All scopes of a run, indexed by [`EnvRef`], and the program's standard
/// input and output.
#[derive(Debug)]
pub struct Store {
    frames: Vec<Env>,
    input: Vec<u8>,
    input_pos: usize,
    output: Vec<char>,
}

/// The model of a store.
pub struct SStore {
    pub frames: Seq<SFrame>,
    pub input: Seq<u8>,
    pub pos: nat,
    pub output: Seq<char>,
}

impl View for Store {
    type V = SStore;

    closed spec fn view(&self) -> SStore {
        SStore {
            frames: self.frames@.map_values(|e: Env| e@),
            input: self.input@,
            pos: self.input_pos as nat,
            output: self.output@,
        }
    }
}

/// Every scope was opened inside an older one and called from an older one.
pub open spec fn frames_wf(frames: Seq<SFrame>) -> bool {
    forall|i: int|
        0 <= i < frames.len() ==> (#[trigger] frames[i].parent matches Some(p) ==> p < i)
            && (frames[i].caller matches Some(c) ==> c < i)
}

/// `s` with scope `id` replaced by `f`.
pub open spec fn with_frame(s: SStore, id: int, f: SFrame) -> SStore {
    SStore { frames: s.frames.update(id, f), ..s }
}

/// `s` with one more scope, `f`.
pub open spec fn with_new_frame(s: SStore, f: SFrame) -> SStore {
    SStore { frames: s.frames.push(f), ..s }
}

/// `f` with `name` bound to `v`.
pub open spec fn frame_with_var(f: SFrame, name: Seq<char>, v: SValue) -> SFrame {
    SFrame { vars: f.vars.insert(name, v), ..f }
}

/// `f` with the stack of moduli `m`.
pub open spec fn frame_with_moduli(f: SFrame, m: Seq<i64>) -> SFrame {
    SFrame { modulus: m, ..f }
}

/// The stack `m` after closing its innermost modulus, if any.
pub open spec fn pop_moduli(m: Seq<i64>) -> Seq<i64> {
    if m.len() == 0 {
        m
    } else {
        m.drop_last()
    }
}

/// `store_modify(s, id, name, path, v)`: the outcome and the new store of
/// replacing, in the binding of `name` seen from scope `id`, the element that
/// `path` leads to by `v`.
pub open spec fn store_modify(s: SStore, id: nat, name: Seq<char>, path: Seq<SValue>, v: SValue) -> (
    SResult,
    SStore,
) {
    match name_owner(s.frames, id, name) {
        Some(o) => match set_path(s.frames[o as int].vars[name], path, v) {
            Ok(x) => (Ok(v), with_frame(s, o as int, frame_with_var(s.frames[o as int], name, x))),
            Err(e) => (Err(e), s),
        },
        None => (Err(SError::UndefinedVariable(name)), s),
    }
}

impl Store {
    pub open spec fn wf(&self) -> bool {
        frames_wf(self@.frames)
    }

    /// A store holding one empty scope, the global one, with reference 0, and
    /// no input.
    pub fn new() -> (r: Store)
        ensures
            r.wf(),
            r@.frames.len() == 1,
            r@.frames[0].vars == Map::<Seq<char>, SValue>::empty(),
            r@.frames[0].parent is None,
            r@.frames[0].modulus == Seq::<i64>::empty(),
            r@.input == Seq::<u8>::empty(),
            r@.pos == 0,
            r@.output == Seq::<char>::empty(),
    {
        let mut frames = Vec::new();
        frames.push(Env::new());
        let r = Store { frames, input: Vec::new(), input_pos: 0, output: Vec::new() };
        assert(r@.frames =~= seq![r.frames@[0]@]);
        r
    }

    /// Number of scopes.
    pub fn len(&self) -> (r: usize)
        ensures
            r == self@.frames.len(),
    {
        self.frames.len()
    }

    /// The scope `id`.
    pub fn frame(&self, id: EnvRef) -> (r: &Env)
        requires
            id < self@.frames.len(),
        ensures
            r@ == self@.frames[id as int],
    {
        assert(self.wf() ==> (self@.frames[id as int].parent matches Some(p) ==> p < id));
        &self.frames[id]
    }

    /// Adds a scope; returns its reference.
    pub fn push_frame(&mut self, e: Env) -> (r: EnvRef)
        requires
            old(self).wf(),
            e@.parent matches Some(p) ==> p < old(self)@.frames.len(),
            e@.caller matches Some(c) ==> c < old(self)@.frames.len(),
        ensures
            final(self).wf(),
            r == old(self)@.frames.len(),
            final(self)@ == with_new_frame(old(self)@, e@),
    {
        let r = self.frames.len();
        self.frames.push(e);
        assert(self@.frames =~= old(self)@.frames.push(e@));
        r
    }

    /// The value of `name` seen from scope `id`; see [`name_lookup`].
    pub fn lookup(&self, id: EnvRef, name: &String) -> (r: Option<Value>)
        requires
            self.wf(),
        ensures
            opt_view(r) == name_lookup(self@.frames, id as nat, name@),
        decreases id, 1nat,
    {
        match self.lookup_chain(id, name) {
            Some(v) => Some(v),
            None => self.lookup_caller(id, name),
        }
    }

    /// The value of `name` seen along the scopes that `id` was opened in.
    pub fn lookup_chain(&self, id: EnvRef, name: &String) -> (r: Option<Value>)
        requires
            self.wf(),
        ensures
            opt_view(r) == chain_lookup(self@.frames, id as nat, name@),
        decreases id,
    {
        if id >= self.frames.len() {
            return None;
        }
        let f = &self.frames[id];
        assert(self@.frames[id as int] == f@);
        match f.get_local(name) {
            Some(v) => Some(v),
            None => match f.parent {
                Some(p) => {
                    assert(f@.parent == Some(p as nat));
                    if p < id {
                        self.lookup_chain(p, name)
                    } else {
                        None
                    }
                },
                None => None,
            },
        }
    }

    /// The value of `name` seen from the scope that made the innermost call
    /// around `id`; see [`dyn_lookup`].
    pub fn lookup_caller(&self, id: EnvRef, name: &String) -> (r: Option<Value>)
        requires
            self.wf(),
        ensures
            opt_view(r) == dyn_lookup(self@.frames, id as nat, name@),
        decreases id, 0nat,
    {
        if id >= self.frames.len() {
            return None;
        }
        let f = &self.frames[id];
        assert(self@.frames[id as int] == f@);
        match f.caller {
            Some(c) => {
                assert(f@.caller == Some(c as nat));
                if c < id {
                    self.lookup(c, name)
                } else {
                    None
                }
            },
            None => match f.parent {
                Some(p) => {
                    assert(f@.parent == Some(p as nat));
                    if p < id {
                        self.lookup_caller(p, name)
                    } else {
                        None
                    }
                },
                None => None,
            },
        }
    }

    /// The scope that holds the binding of `name` seen from scope `id`; see
    /// [`name_owner`].
    pub fn owner(&self, id: EnvRef, name: &String) -> (r: Option<EnvRef>)
        requires
            self.wf(),
        ensures
            (match r {
                Some(o) => Some(o as nat),
                None => None,
            }) == name_owner(self@.frames, id as nat, name@),
        decreases id, 1nat,
    {
        match self.owner_chain(id, name) {
            Some(o) => Some(o),
            None => self.owner_caller(id, name),
        }
    }

    fn owner_chain(&self, id: EnvRef, name: &String) -> (r: Option<EnvRef>)
        requires
            self.wf(),
        ensures
            (match r {
                Some(o) => Some(o as nat),
                None => None,
            }) == chain_owner(self@.frames, id as nat, name@),
        decreases id,
    {
        if id >= self.frames.len() {
            return None;
        }
        let f = &self.frames[id];
        assert(self@.frames[id as int] == f@);
        match find_binding(&f.vars, name) {
            Some(_) => Some(id),
            None => match f.parent {
                Some(p) => {
                    assert(f@.parent == Some(p as nat));
                    if p < id {
                        self.owner_chain(p, name)
                    } else {
                        None
                    }
                },
                None => None,
            },
        }
    }

    fn owner_caller(&self, id: EnvRef, name: &String) -> (r: Option<EnvRef>)
        requires
            self.wf(),
        ensures
            (match r {
                Some(o) => Some(o as nat),
                None => None,
            }) == dyn_owner(self@.frames, id as nat, name@),
        decreases id, 0nat,
    {
        if id >= self.frames.len() {
            return None;
        }
        let f = &self.frames[id];
        assert(self@.frames[id as int] == f@);
        match f.caller {
            Some(c) => {
                assert(f@.caller == Some(c as nat));
                if c < id {
                    self.owner(c, name)
                } else {
                    None
                }
            },
            None => match f.parent {
                Some(p) => {
                    assert(f@.parent == Some(p as nat));
                    if p < id {
                        self.owner_caller(p, name)
                    } else {
                        None
                    }
                },
                None => None,
            },
        }
    }

    /// Binds `name` in scope `id`.
    pub fn declare(&mut self, id: EnvRef, name: String, val: Value)
        requires
            old(self).wf(),
            id < old(self)@.frames.len(),
        ensures
            final(self).wf(),
            final(self)@ == with_frame(
                old(self)@,
                id as int,
                frame_with_var(old(self)@.frames[id as int], name@, val@),
            ),
    {
        let mut f = Env::new();
        self.frames.set_and_swap(id, &mut f);
        f.set(name, val);
        self.frames.set_and_swap(id, &mut f);
        assert(self@.frames =~= with_frame(
            old(self)@,
            id as int,
            frame_with_var(old(self)@.frames[id as int], name@, val@),
        ).frames);
    }

    /// Replaces, in the binding of `name` seen from scope `id`, the element
    /// that `path` leads to by `val`; see [`store_modify`].
    pub fn assign(&mut self, id: EnvRef, name: &String, path: &Vec<Value>, val: Value) -> (r:
        EvalResult)
        requires
            old(self).wf(),
        ensures
            final(self).wf(),
            result_view(r) == store_modify(
                old(self)@,
                id as nat,
                name@,
                value_views(path@),
                val@,
            ).0,
            final(self)@ == store_modify(old(self)@, id as nat, name@, value_views(path@), val@).1,
            final(self)@.frames.len() == old(self)@.frames.len(),
    {
        let cur = match self.owner(id, name) {
            Some(o) => o,
            None => {
                return Err(EvalError::UndefinedVariable(name.clone()));
            },
        };
        proof {
            lemma_name_owner_bound(self@.frames, id as nat, name@);
        }
        let copy = val.deep_clone();
        let mut f = Env::new();
        self.frames.set_and_swap(cur, &mut f);
        let r = f.modify_local(name, path, val);
        self.frames.set_and_swap(cur, &mut f);
        match r {
            Ok(()) => {
                assert(self@.frames =~= store_modify(
                    old(self)@,
                    id as nat,
                    name@,
                    value_views(path@),
                    copy@,
                ).1.frames);
                Ok(copy)
            },
            Err(e) => {
                assert(self@.frames =~= old(self)@.frames);
                Err(e)
            },
        }
    }

    /// Opens a `mod` block in scope `id`.
    pub fn push_modulus(&mut self, id: EnvRef, modulus: i64)
        requires
            old(self).wf(),
            id < old(self)@.frames.len(),
        ensures
            final(self).wf(),
            final(self)@ == with_frame(
                old(self)@,
                id as int,
                frame_with_moduli(
                    old(self)@.frames[id as int],
                    old(self)@.frames[id as int].modulus.push(modulus),
                ),
            ),
    {
        let mut f = Env::new();
        self.frames.set_and_swap(id, &mut f);
        f.set_modulus(modulus);
        self.frames.set_and_swap(id, &mut f);
        assert(self@.frames =~= with_frame(
            old(self)@,
            id as int,
            frame_with_moduli(
                old(self)@.frames[id as int],
                old(self)@.frames[id as int].modulus.push(modulus),
            ),
        ).frames);
    }

    /// Closes the innermost `mod` block of scope `id`.
    pub fn pop_modulus(&mut self, id: EnvRef)
        requires
            old(self).wf(),
            id < old(self)@.frames.len(),
        ensures
            final(self).wf(),
            final(self)@ == with_frame(
                old(self)@,
                id as int,
                frame_with_moduli(
                    old(self)@.frames[id as int],
                    pop_moduli(old(self)@.frames[id as int].modulus),
                ),
            ),
    {
        let mut f = Env::new();
        self.frames.set_and_swap(id, &mut f);
        f.reset_modulus();
        self.frames.set_and_swap(id, &mut f);
        assert(self@.frames =~= with_frame(
            old(self)@,
            id as int,
            frame_with_moduli(
                old(self)@.frames[id as int],
                pop_moduli(old(self)@.frames[id as int].modulus),
            ),
        ).frames);
    }
}

/// Whether a byte is ASCII white space (space, tab, line feed, form feed,
/// carriage return).
pub open spec fn is_ascii_space(b: u8) -> bool {
    b == 0x20 || b == 0x09 || b == 0x0A || b == 0x0C || b == 0x0D
}

/// Reads a word of input from position `pos`: white space before the word is
/// skipped; the word ends at the next white space, which is consumed too, or
/// at the end of the input. Each byte becomes the character with its code.
/// Gives the word and the position after it.
pub open spec fn read_word(input: Seq<u8>, pos: nat, word: Seq<char>) -> (Seq<char>, nat)
    decreases input.len() - pos,
{
    if pos >= input.len() {
        (word, pos)
    } else if is_ascii_space(input[pos as int]) {
        if word.len() > 0 {
            (word, pos + 1)
        } else {
            read_word(input, pos + 1, word)
        }
    } else {
        read_word(input, pos + 1, word.push(input[pos as int] as char))
    }
}

/// `s` after reading a word of input.
pub open spec fn after_read(s: SStore) -> SStore {
    SStore { pos: read_word(s.input, s.pos, Seq::empty()).1, ..s }
}

/// `s` after writing `t` to the output.
pub open spec fn after_write(s: SStore, t: Seq<char>) -> SStore {
    SStore { output: s.output + t, ..s }
}

impl Store {
    /// Gives the program `bytes` as its standard input, to be read from the start.
    pub fn set_input(&mut self, bytes: Vec<u8>)
        requires
            old(self).wf(),
        ensures
            final(self).wf(),
            final(self)@ == (SStore { input: bytes@, pos: 0, ..old(self)@ }),
    {
        self.input = bytes;
        self.input_pos = 0;
    }

    /// What the program has written so far.
    pub fn output(&self) -> (r: &Vec<char>)
        ensures
            r@ == self@.output,
    {
        &self.output
    }

    /// Hands out what the program has written so far and clears it.
    pub fn take_output(&mut self) -> (r: Vec<char>)
        requires
            old(self).wf(),
        ensures
            final(self).wf(),
            r@ == old(self)@.output,
            final(self)@ == (SStore { output: Seq::empty(), ..old(self)@ }),
    {
        let mut out = Vec::new();
        std::mem::swap(&mut out, &mut self.output);
        out
    }

    /// Writes `t` to the output.
    pub fn write(&mut self, t: &Vec<char>)
        requires
            old(self).wf(),
        ensures
            final(self).wf(),
            final(self)@ == after_write(old(self)@, t@),
    {
        let mut i: usize = 0;
        while i < t.len()
            invariant
                i <= t.len(),
                self.frames == old(self).frames,
                self.input == old(self).input,
                self.input_pos == old(self).input_pos,
                self.output@ == old(self).output@ + t@.take(i as int),
            decreases t.len() - i,
        {
            self.output.push(t[i]);
            i += 1;
            assert(self.output@ =~= old(self).output@ + t@.take(i as int));
        }
        assert(t@.take(t.len() as int) =~= t@);
    }

    /// Reads a word of input, see [`read_word`].
    pub fn read_word(&mut self) -> (r: Vec<char>)
        requires
            old(self).wf(),
        ensures
            final(self).wf(),
            r@ == read_word(old(self)@.input, old(self)@.pos, Seq::empty()).0,
            final(self)@ == after_read(old(self)@),
    {
        let mut word: Vec<char> = Vec::new();
        let mut pos = self.input_pos;
        while pos < self.input.len()
            invariant
                self.wf(),
                self.frames == old(self).frames,
                self.input == old(self).input,
                self.output == old(self).output,
                self.input_pos == old(self).input_pos,
                read_word(self.input@, pos as nat, word@) == read_word(
                    self.input@,
                    old(self).input_pos as nat,
                    Seq::empty(),
                ),
            decreases self.input.len() - pos,
        {
            let b = self.input[pos];
            if b == 0x20 || b == 0x09 || b == 0x0A || b == 0x0C || b == 0x0D {
                if word.len() > 0 {
                    pos = pos + 1;
                    self.input_pos = pos;
                    assert(self@.frames == old(self)@.frames);
                    return word;
                }
            } else {
                word.push(b as char);
            }
            pos = pos + 1;
        }
        self.input_pos = pos;
        word
    }
}

} // verus!
