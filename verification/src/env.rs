//! The environment chain and the mutable-cell store.
//!
//! A [`Scope`] owns every scope node and every mutable cell of one
//! interpreter instance.  Scope nodes form a parent-linked chain: each node
//! holds its local bindings and the identifier of its outer node, which is
//! always an older node (smaller identifier), so lookups that walk outward
//! terminate.  Mutable cells are shared by identifier: every value holding
//! the same cell identifier observes the same content.
use vstd::prelude::*;

use crate::ast::{
    lemma_wf_val_grow, wf_val, Builtin, FnVal, LispValue, SpecFn, SpecVal,
};

verus! {

/// One scope node: local bindings and the optional outer scope.
#[derive(Debug)]
pub struct Env {
    pub data: Vec<(String, LispValue)>,
    pub outer: Option<usize>,
}

/// Mathematical image of one scope node.
#[verifier::ext_equal]
pub struct SpecEnv {
    pub data: Seq<(Seq<char>, SpecVal)>,
    pub outer: Option<int>,
}

impl View for Env {
    type V = SpecEnv;

    open spec fn view(&self) -> SpecEnv {
        SpecEnv {
            data: Seq::new(self.data@.len(), |i: int| (self.data@[i].0@, self.data@[i].1@)),
            outer: match self.outer {
                Some(o) => Some(o as int),
                None => None,
            },
        }
    }
}

/// One host file-read outcome: the file's text, or the host's failure
/// message.  Both are plain values handed across the library boundary.
#[derive(Debug)]
pub enum FileRead {
    Content(String),
    Failure(String),
}

/// Mathematical image of a file-read outcome.
#[verifier::ext_equal]
pub enum SpecFileRead {
    Content(Seq<char>),
    Failure(Seq<char>),
}

impl View for FileRead {
    type V = SpecFileRead;

    open spec fn view(&self) -> SpecFileRead {
        match self {
            FileRead::Content(c) => SpecFileRead::Content(c@),
            FileRead::Failure(m) => SpecFileRead::Failure(m@),
        }
    }
}

/// Mathematical image of the whole store: the scope nodes, the mutable
/// cells, the host file-read outcomes supplied so far, and the paths whose
/// reads the evaluator has requested from the host.
#[verifier::ext_equal]
pub struct SpecScope {
    pub envs: Seq<SpecEnv>,
    pub atoms: Seq<SpecVal>,
    pub files: Seq<(Seq<char>, SpecFileRead)>,
    pub pending: Seq<Seq<char>>,
}

/// The outcome recorded for `path`, latest entry first.
pub open spec fn file_lookup(files: Seq<(Seq<char>, SpecFileRead)>, path: Seq<char>) -> Option<
    SpecFileRead,
>
    decreases files.len(),
{
    if files.len() == 0 {
        None
    } else if files.last().0 == path {
        Some(files.last().1)
    } else {
        file_lookup(files.drop_last(), path)
    }
}

/// The binding found for `key` among `data`, latest binding first.
pub open spec fn lookup_entries(data: Seq<(Seq<char>, SpecVal)>, key: Seq<char>) -> Option<SpecVal>
    decreases data.len(),
{
    if data.len() == 0 {
        None
    } else if data.last().0 == key {
        Some(data.last().1)
    } else {
        lookup_entries(data.drop_last(), key)
    }
}

/// The nearest scope, walking outward from `env`, whose local bindings
/// contain `key`.
pub open spec fn chain_find(s: SpecScope, env: int, key: Seq<char>) -> Option<int>
    decreases env,
{
    if !(0 <= env < s.envs.len()) {
        None
    } else if lookup_entries(s.envs[env].data, key) is Some {
        Some(env)
    } else {
        match s.envs[env].outer {
            None => None,
            Some(o) => if 0 <= o < env {
                chain_find(s, o, key)
            } else {
                None
            },
        }
    }
}

/// The value bound to `key` in the nearest scope that binds it.
pub open spec fn chain_get(s: SpecScope, env: int, key: Seq<char>) -> Option<SpecVal> {
    match chain_find(s, env, key) {
        None => None,
        Some(e) => lookup_entries(s.envs[e].data, key),
    }
}

/// The outermost scope reachable from `env`.
pub open spec fn root_of(s: SpecScope, env: int) -> Option<int>
    decreases env,
{
    if !(0 <= env < s.envs.len()) {
        None
    } else {
        match s.envs[env].outer {
            None => Some(env),
            Some(o) => if 0 <= o < env {
                root_of(s, o)
            } else {
                None
            },
        }
    }
}

/// One scope node is well-formed at position `i`: its outer link points to
/// an older node and every bound value is in bounds for the store.
pub open spec fn wf_env(e: SpecEnv, i: int, ne: int, na: int) -> bool {
    &&& match e.outer {
        Some(o) => 0 <= o < i,
        None => true,
    }
    &&& forall|j: int| 0 <= j < e.data.len() ==> wf_val((#[trigger] e.data[j]).1, ne, na)
}

/// The whole store is well-formed.  Every scope but the root has an outer
/// link, so every lookup chain ends at the root scope.
pub open spec fn wf_scope(s: SpecScope) -> bool {
    &&& s.envs.len() >= 1
    &&& forall|i: int| 1 <= i < s.envs.len() ==> (#[trigger] s.envs[i]).outer is Some
    &&& forall|i: int|
        0 <= i < s.envs.len() ==> wf_env(
            #[trigger] s.envs[i],
            i,
            s.envs.len() as int,
            s.atoms.len() as int,
        )
    &&& forall|k: int|
        0 <= k < s.atoms.len() ==> wf_val(
            #[trigger] s.atoms[k],
            s.envs.len() as int,
            s.atoms.len() as int,
        )
}

pub proof fn lemma_wf_env_grow(e: SpecEnv, i: int, ne: int, na: int, ne2: int, na2: int)
    requires
        wf_env(e, i, ne, na),
        ne <= ne2,
        na <= na2,
    ensures
        wf_env(e, i, ne2, na2),
{
    assert forall|j: int| 0 <= j < e.data.len() implies wf_val((#[trigger] e.data[j]).1, ne2, na2) by {
        lemma_wf_val_grow(e.data[j].1, ne, na, ne2, na2);
    }
}

/// In a well-formed store, a lookup that finds a scope yields a value
/// that is itself well-formed.
pub proof fn lemma_chain_get_wf(s: SpecScope, env: int, key: Seq<char>)
    requires
        wf_scope(s),
    ensures
        match chain_get(s, env, key) {
            Some(v) => wf_val(v, s.envs.len() as int, s.atoms.len() as int),
            None => true,
        },
{
    match chain_find(s, env, key) {
        Some(e) => {
            lemma_chain_find_in_range(s, env, key);
            lemma_lookup_entries_wf(
                s.envs[e].data,
                key,
                s.envs.len() as int,
                s.atoms.len() as int,
            );
        },
        None => {},
    }
}

pub proof fn lemma_chain_find_in_range(s: SpecScope, env: int, key: Seq<char>)
    ensures
        match chain_find(s, env, key) {
            Some(e) => 0 <= e < s.envs.len() && lookup_entries(s.envs[e].data, key) is Some,
            None => true,
        },
    decreases env,
{
    if 0 <= env < s.envs.len() && !(lookup_entries(s.envs[env].data, key) is Some) {
        match s.envs[env].outer {
            Some(o) => {
                if 0 <= o < env {
                    lemma_chain_find_in_range(s, o, key);
                }
            },
            None => {},
        }
    }
}

pub proof fn lemma_lookup_entries_wf(
    data: Seq<(Seq<char>, SpecVal)>,
    key: Seq<char>,
    ne: int,
    na: int,
)
    requires
        forall|j: int| 0 <= j < data.len() ==> wf_val((#[trigger] data[j]).1, ne, na),
    ensures
        match lookup_entries(data, key) {
            Some(v) => wf_val(v, ne, na),
            None => true,
        },
    decreases data.len(),
{
    if data.len() > 0 && data.last().0 != key {
        lemma_lookup_entries_wf(data.drop_last(), key, ne, na);
    }
}

/// A built-in operation as a bindable value.
pub open spec fn builtin_val(b: Builtin) -> SpecVal {
    SpecVal::Function(SpecFn::Builtin(b))
}

/// The bindings of the root scope, in insertion order.  Built-in operators
/// and special-form handlers live at the base scope level, which also means
/// they can be freely redefined.
pub open spec fn root_bindings() -> Seq<(Seq<char>, SpecVal)> {
    seq![
        ("+"@, builtin_val(Builtin::Add)),
        ("-"@, builtin_val(Builtin::Sub)),
        ("/"@, builtin_val(Builtin::Div)),
        ("*"@, builtin_val(Builtin::Mul)),
        ("do"@, builtin_val(Builtin::Do)),
        ("let*"@, builtin_val(Builtin::Let)),
        ("if"@, builtin_val(Builtin::If)),
        ("lambda"@, builtin_val(Builtin::Lambda)),
        ("def!"@, builtin_val(Builtin::Def)),
        ("="@, builtin_val(Builtin::Equals)),
        (">"@, builtin_val(Builtin::Greater)),
        ("<"@, builtin_val(Builtin::Less)),
        ("<="@, builtin_val(Builtin::LessEquals)),
        (">="@, builtin_val(Builtin::GreaterEquals)),
        ("slurp"@, builtin_val(Builtin::Slurp)),
        ("list"@, builtin_val(Builtin::MakeList)),
        ("eval"@, builtin_val(Builtin::Eval)),
        ("str"@, builtin_val(Builtin::StrJoin)),
        ("read-string"@, builtin_val(Builtin::ReadString)),
        ("prn"@, builtin_val(Builtin::Prn)),
        ("quote"@, builtin_val(Builtin::Quote)),
        ("atom"@, builtin_val(Builtin::AtomNew)),
        ("atom?"@, builtin_val(Builtin::AtomCheck)),
        ("deref"@, builtin_val(Builtin::Deref)),
        ("reset!"@, builtin_val(Builtin::Reset)),
        ("swap!"@, builtin_val(Builtin::Swap)),
        ("macro!"@, builtin_val(Builtin::MacroBind)),
    ]
}

/// The store of a freshly started interpreter: one root scope holding the
/// built-in bindings, and no cells.
pub open spec fn initial_scope() -> SpecScope {
    SpecScope {
        envs: seq![SpecEnv { data: root_bindings(), outer: None }],
        atoms: Seq::empty(),
        files: Seq::empty(),
        pending: Seq::empty(),
    }
}

fn push_builtin(data: &mut Vec<(String, LispValue)>, name: &str, b: Builtin)
    ensures
        final(data)@.len() == old(data)@.len() + 1,
        forall|i: int| 0 <= i < old(data)@.len() ==> final(data)@[i] == old(data)@[i],
        final(data)@.last().0@ == name@,
        final(data)@.last().1@ == builtin_val(b),
{
    data.push((name.to_owned(), LispValue::Function(FnVal::Builtin(b))));
}

impl Env {
    /// The value bound to `key` in this node's local bindings alone.
    pub fn get(&self, key: &String) -> (r: Option<LispValue>)
        ensures
            match r {
                Some(v) => lookup_entries(self@.data, key@) == Some(v@),
                None => lookup_entries(self@.data, key@) is None,
            },
    {
        let mut i: usize = self.data.len();
        proof {
            assert(self@.data.subrange(0, self.data@.len() as int) =~= self@.data);
        }
        while i > 0
            invariant
                i <= self.data@.len(),
                lookup_entries(self@.data, key@) == lookup_entries(
                    self@.data.subrange(0, i as int),
                    key@,
                ),
            decreases i,
        {
            i = i - 1;
            proof {
                assert(self@.data.subrange(0, i + 1).last() == self@.data[i as int]);
                assert(self@.data.subrange(0, i + 1).drop_last() =~= self@.data.subrange(
                    0,
                    i as int,
                ));
            }
            if self.data[i].0 == *key {
                proof {
                    assert(lookup_entries(self@.data.subrange(0, i + 1), key@) == Some(
                        self@.data[i as int].1,
                    ));
                }
                return Some(self.data[i].1.duplicate());
            }
        }
        proof {
            assert(self@.data.subrange(0, 0) =~= Seq::<(Seq<char>, SpecVal)>::empty());
        }
        None
    }

    /// Bind `key` to `entry` in this node; the new binding shadows any
    /// earlier one for the same key.
    pub fn insert(&mut self, key: String, entry: LispValue)
        ensures
            final(self)@.data == old(self)@.data.push((key@, entry@)),
            final(self)@.outer == old(self)@.outer,
    {
        self.data.push((key, entry));
        proof {
            assert(final(self)@.data =~= old(self)@.data.push((key@, entry@)));
        }
    }
}

/// The store: every scope node, every mutable cell, and the file-read
/// exchange of one interpreter.  The host supplies read outcomes with
/// [`Scope::supply_file`]; the evaluator requests missing ones, to be found
/// with [`Scope::take_requests`] and answered before the next attempt.
#[derive(Debug)]
pub struct Scope {
    envs: Vec<Env>,
    atoms: Vec<LispValue>,
    files: Vec<(String, FileRead)>,
    pending: Vec<String>,
}

impl View for Scope {
    type V = SpecScope;

    closed spec fn view(&self) -> SpecScope {
        SpecScope {
            envs: Seq::new(self.envs@.len(), |i: int| self.envs@[i]@),
            atoms: Seq::new(self.atoms@.len(), |i: int| self.atoms@[i]@),
            files: Seq::new(
                self.files@.len(),
                |i: int| (self.files@[i].0@, self.files@[i].1@),
            ),
            pending: Seq::new(self.pending@.len(), |i: int| self.pending@[i]@),
        }
    }
}

impl Scope {
    /// A freshly started interpreter store: one root scope with the
    /// built-in bindings, and no cells.
    pub fn new() -> (r: Scope)
        ensures
            r@ == initial_scope(),
            wf_scope(r@),
    {
        let mut data: Vec<(String, LispValue)> = Vec::new();
        push_builtin(&mut data, "+", Builtin::Add);
        push_builtin(&mut data, "-", Builtin::Sub);
        push_builtin(&mut data, "/", Builtin::Div);
        push_builtin(&mut data, "*", Builtin::Mul);
        push_builtin(&mut data, "do", Builtin::Do);
        push_builtin(&mut data, "let*", Builtin::Let);
        push_builtin(&mut data, "if", Builtin::If);
        push_builtin(&mut data, "lambda", Builtin::Lambda);
        push_builtin(&mut data, "def!", Builtin::Def);
        push_builtin(&mut data, "=", Builtin::Equals);
        push_builtin(&mut data, ">", Builtin::Greater);
        push_builtin(&mut data, "<", Builtin::Less);
        push_builtin(&mut data, "<=", Builtin::LessEquals);
        push_builtin(&mut data, ">=", Builtin::GreaterEquals);
        push_builtin(&mut data, "slurp", Builtin::Slurp);
        push_builtin(&mut data, "list", Builtin::MakeList);
        push_builtin(&mut data, "eval", Builtin::Eval);
        push_builtin(&mut data, "str", Builtin::StrJoin);
        push_builtin(&mut data, "read-string", Builtin::ReadString);
        push_builtin(&mut data, "prn", Builtin::Prn);
        push_builtin(&mut data, "quote", Builtin::Quote);
        push_builtin(&mut data, "atom", Builtin::AtomNew);
        push_builtin(&mut data, "atom?", Builtin::AtomCheck);
        push_builtin(&mut data, "deref", Builtin::Deref);
        push_builtin(&mut data, "reset!", Builtin::Reset);
        push_builtin(&mut data, "swap!", Builtin::Swap);
        push_builtin(&mut data, "macro!", Builtin::MacroBind);
        let mut envs: Vec<Env> = Vec::new();
        envs.push(Env { data, outer: None });
        let r = Scope { envs, atoms: Vec::new(), files: Vec::new(), pending: Vec::new() };
        proof {
            assert(r@.envs[0].data =~~= root_bindings());
            assert(r@ =~~= initial_scope());
            assert forall|i: int| 0 <= i < r@.envs.len() implies wf_env(
                #[trigger] r@.envs[i],
                i,
                r@.envs.len() as int,
                r@.atoms.len() as int,
            ) by {
                assert(forall|j: int|
                    0 <= j < r@.envs[0].data.len() ==> wf_val(
                        (#[trigger] r@.envs[0].data[j]).1,
                        r@.envs.len() as int,
                        r@.atoms.len() as int,
                    ));
            }
        }
        r
    }

    /// The number of scope nodes.
    pub fn env_count(&self) -> (r: usize)
        ensures
            r == self@.envs.len(),
    {
        self.envs.len()
    }

    /// The number of mutable cells.
    pub fn atom_count(&self) -> (r: usize)
        ensures
            r == self@.atoms.len(),
    {
        self.atoms.len()
    }

    /// A fresh child scope whose outer link is `outer`; returns its identifier.
    pub fn new_scope(&mut self, outer: usize) -> (r: usize)
        requires
            wf_scope(old(self)@),
            outer < old(self)@.envs.len(),
        ensures
            wf_scope(final(self)@),
            r == old(self)@.envs.len(),
            final(self)@.envs == old(self)@.envs.push(
                SpecEnv { data: Seq::empty(), outer: Some(outer as int) },
            ),
            final(self)@.atoms == old(self)@.atoms,
            final(self)@.files == old(self)@.files,
            final(self)@.pending == old(self)@.pending,
    {
        let id = self.envs.len();
        self.envs.push(Env { data: Vec::new(), outer: Some(outer) });
        proof {
            let old_s = old(self)@;
            let new_s = final(self)@;
            assert(new_s.envs =~~= old_s.envs.push(
                SpecEnv { data: Seq::empty(), outer: Some(outer as int) },
            ));
            assert(new_s.atoms =~= old_s.atoms);
            assert forall|i: int| 0 <= i < new_s.envs.len() implies wf_env(
                #[trigger] new_s.envs[i],
                i,
                new_s.envs.len() as int,
                new_s.atoms.len() as int,
            ) by {
                if i < old_s.envs.len() {
                    lemma_wf_env_grow(
                        old_s.envs[i],
                        i,
                        old_s.envs.len() as int,
                        old_s.atoms.len() as int,
                        new_s.envs.len() as int,
                        new_s.atoms.len() as int,
                    );
                }
            }
            assert forall|k: int| 0 <= k < new_s.atoms.len() implies wf_val(
                #[trigger] new_s.atoms[k],
                new_s.envs.len() as int,
                new_s.atoms.len() as int,
            ) by {
                lemma_wf_val_grow(
                    old_s.atoms[k],
                    old_s.envs.len() as int,
                    old_s.atoms.len() as int,
                    new_s.envs.len() as int,
                    new_s.atoms.len() as int,
                );
            }
        }
        id
    }

    /// Bind `key` to `entry` in the scope node `env` alone.
    pub fn set(&mut self, env: usize, key: String, entry: LispValue)
        requires
            wf_scope(old(self)@),
            env < old(self)@.envs.len(),
            wf_val(entry@, old(self)@.envs.len() as int, old(self)@.atoms.len() as int),
        ensures
            wf_scope(final(self)@),
            final(self)@.envs == old(self)@.envs.update(
                env as int,
                SpecEnv {
                    data: old(self)@.envs[env as int].data.push((key@, entry@)),
                    outer: old(self)@.envs[env as int].outer,
                },
            ),
            final(self)@.atoms == old(self)@.atoms,
            final(self)@.files == old(self)@.files,
            final(self)@.pending == old(self)@.pending,
    {
        let target: &mut Env = &mut self.envs[env];
        target.insert(key, entry);
        proof {
            let old_s = old(self)@;
            let new_s = final(self)@;
            let ghost updated = SpecEnv {
                data: old_s.envs[env as int].data.push((key@, entry@)),
                outer: old_s.envs[env as int].outer,
            };
            assert(new_s.envs =~~= old_s.envs.update(env as int, updated));
            assert(new_s.atoms =~= old_s.atoms);
            assert forall|i: int| 0 <= i < new_s.envs.len() implies wf_env(
                #[trigger] new_s.envs[i],
                i,
                new_s.envs.len() as int,
                new_s.atoms.len() as int,
            ) by {
                if i == env as int {
                    assert forall|j: int| 0 <= j < new_s.envs[i].data.len() implies wf_val(
                        (#[trigger] new_s.envs[i].data[j]).1,
                        new_s.envs.len() as int,
                        new_s.atoms.len() as int,
                    ) by {
                        if j < old_s.envs[i].data.len() {
                            assert(wf_env(
                                old_s.envs[i],
                                i,
                                old_s.envs.len() as int,
                                old_s.atoms.len() as int,
                            ));
                        }
                    }
                }
            }
        }
    }

    /// The identifier of the nearest scope, from `env` outward, that binds `key`.
    pub fn find(&self, env: usize, key: &String) -> (r: Option<usize>)
        requires
            wf_scope(self@),
            env < self@.envs.len(),
        ensures
            match r {
                Some(e) => chain_find(self@, env as int, key@) == Some(e as int),
                None => chain_find(self@, env as int, key@) is None,
            },
    {
        let mut cur: usize = env;
        loop
            invariant
                wf_scope(self@),
                cur < self@.envs.len(),
                chain_find(self@, env as int, key@) == chain_find(self@, cur as int, key@),
            decreases cur,
        {
            let node = &self.envs[cur];
            if node.get(key).is_some() {
                return Some(cur);
            }
            match node.outer {
                None => {
                    return None;
                },
                Some(o) => {
                    cur = o;
                },
            }
        }
    }

    /// The value bound to `key` in the nearest scope that binds it.
    pub fn get(&self, env: usize, key: &String) -> (r: Option<LispValue>)
        requires
            wf_scope(self@),
            env < self@.envs.len(),
        ensures
            match r {
                Some(v) => chain_get(self@, env as int, key@) == Some(v@),
                None => chain_get(self@, env as int, key@) is None,
            },
    {
        proof {
            lemma_chain_find_in_range(self@, env as int, key@);
        }
        match self.find(env, key) {
            None => None,
            Some(e) => self.envs[e].get(key),
        }
    }

    /// The identifier of the outermost scope reachable from `env`.
    pub fn root(&self, env: usize) -> (r: usize)
        requires
            wf_scope(self@),
            env < self@.envs.len(),
        ensures
            root_of(self@, env as int) == Some(r as int),
            r < self@.envs.len(),
    {
        let mut cur: usize = env;
        loop
            invariant
                wf_scope(self@),
                cur < self@.envs.len(),
                root_of(self@, env as int) == root_of(self@, cur as int),
            decreases cur,
        {
            match self.envs[cur].outer {
                None => {
                    return cur;
                },
                Some(o) => {
                    cur = o;
                },
            }
        }
    }

    /// A fresh mutable cell holding `v`; returns its identifier.
    pub fn alloc_atom(&mut self, v: LispValue) -> (r: usize)
        requires
            wf_scope(old(self)@),
            wf_val(v@, old(self)@.envs.len() as int, old(self)@.atoms.len() as int),
        ensures
            wf_scope(final(self)@),
            r == old(self)@.atoms.len(),
            final(self)@.atoms == old(self)@.atoms.push(v@),
            final(self)@.envs == old(self)@.envs,
            final(self)@.files == old(self)@.files,
            final(self)@.pending == old(self)@.pending,
    {
        let id = self.atoms.len();
        self.atoms.push(v);
        proof {
            let old_s = old(self)@;
            let new_s = final(self)@;
            assert(new_s.atoms =~= old_s.atoms.push(v@));
            assert(new_s.envs =~= old_s.envs);
            assert forall|i: int| 0 <= i < new_s.envs.len() implies wf_env(
                #[trigger] new_s.envs[i],
                i,
                new_s.envs.len() as int,
                new_s.atoms.len() as int,
            ) by {
                lemma_wf_env_grow(
                    old_s.envs[i],
                    i,
                    old_s.envs.len() as int,
                    old_s.atoms.len() as int,
                    new_s.envs.len() as int,
                    new_s.atoms.len() as int,
                );
            }
            assert forall|k: int| 0 <= k < new_s.atoms.len() implies wf_val(
                #[trigger] new_s.atoms[k],
                new_s.envs.len() as int,
                new_s.atoms.len() as int,
            ) by {
                if k < old_s.atoms.len() {
                    lemma_wf_val_grow(
                        old_s.atoms[k],
                        old_s.envs.len() as int,
                        old_s.atoms.len() as int,
                        new_s.envs.len() as int,
                        new_s.atoms.len() as int,
                    );
                } else {
                    lemma_wf_val_grow(
                        v@,
                        old_s.envs.len() as int,
                        old_s.atoms.len() as int,
                        new_s.envs.len() as int,
                        new_s.atoms.len() as int,
                    );
                }
            }
        }
        id
    }

    /// A copy of the current content of cell `id`.
    pub fn atom_read(&self, id: usize) -> (r: LispValue)
        requires
            id < self@.atoms.len(),
        ensures
            r@ == self@.atoms[id as int],
    {
        self.atoms[id].duplicate()
    }

    /// Replace the content of cell `id`; every holder of the cell observes it.
    pub fn atom_write(&mut self, id: usize, v: LispValue)
        requires
            wf_scope(old(self)@),
            id < old(self)@.atoms.len(),
            wf_val(v@, old(self)@.envs.len() as int, old(self)@.atoms.len() as int),
        ensures
            wf_scope(final(self)@),
            final(self)@.atoms == old(self)@.atoms.update(id as int, v@),
            final(self)@.envs == old(self)@.envs,
            final(self)@.files == old(self)@.files,
            final(self)@.pending == old(self)@.pending,
    {
        self.atoms[id] = v;
        proof {
            let old_s = old(self)@;
            let new_s = final(self)@;
            assert(new_s.atoms =~= old_s.atoms.update(id as int, v@));
            assert(new_s.envs =~= old_s.envs);
        }
    }

    /// The recorded host outcome for reading the file named `path`.
    pub fn file_get(&self, path: &String) -> (r: Option<FileRead>)
        ensures
            match r {
                Some(o) => file_lookup(self@.files, path@) == Some(o@),
                None => file_lookup(self@.files, path@) is None,
            },
    {
        let mut i: usize = self.files.len();
        proof {
            assert(self@.files.subrange(0, self.files@.len() as int) =~= self@.files);
        }
        while i > 0
            invariant
                i <= self.files@.len(),
                file_lookup(self@.files, path@) == file_lookup(
                    self@.files.subrange(0, i as int),
                    path@,
                ),
            decreases i,
        {
            i = i - 1;
            proof {
                assert(self@.files.subrange(0, i + 1).last() == self@.files[i as int]);
                assert(self@.files.subrange(0, i + 1).drop_last() =~= self@.files.subrange(
                    0,
                    i as int,
                ));
            }
            if self.files[i].0 == *path {
                proof {
                    assert(file_lookup(self@.files.subrange(0, i + 1), path@) == Some(
                        self@.files[i as int].1,
                    ));
                }
                let outcome = match &self.files[i].1 {
                    FileRead::Content(c) => FileRead::Content(c.clone()),
                    FileRead::Failure(m) => FileRead::Failure(m.clone()),
                };
                return Some(outcome);
            }
        }
        proof {
            assert(self@.files.subrange(0, 0) =~= Seq::<(Seq<char>, SpecFileRead)>::empty());
        }
        None
    }

    /// Record the host's outcome for reading the file named `path`.  The
    /// host calls this between evaluation attempts; later entries for the
    /// same path win.
    pub fn supply_file(&mut self, path: String, outcome: FileRead)
        requires
            wf_scope(old(self)@),
        ensures
            wf_scope(final(self)@),
            final(self)@.files == old(self)@.files.push((path@, outcome@)),
            final(self)@.envs == old(self)@.envs,
            final(self)@.atoms == old(self)@.atoms,
            final(self)@.pending == old(self)@.pending,
    {
        self.files.push((path, outcome));
        proof {
            let old_s = old(self)@;
            let new_s = final(self)@;
            assert(new_s.files =~~= old_s.files.push((path@, outcome@)));
            assert(new_s.envs =~= old_s.envs);
            assert(new_s.atoms =~= old_s.atoms);
            assert(new_s.pending =~= old_s.pending);
        }
    }

    /// Note that the evaluator needs the file named `path` read; the host
    /// answers with `supply_file` before the next evaluation attempt.
    pub fn request_file(&mut self, path: String)
        requires
            wf_scope(old(self)@),
        ensures
            wf_scope(final(self)@),
            final(self)@.pending == old(self)@.pending.push(path@),
            final(self)@.envs == old(self)@.envs,
            final(self)@.atoms == old(self)@.atoms,
            final(self)@.files == old(self)@.files,
    {
        self.pending.push(path);
        proof {
            let old_s = old(self)@;
            let new_s = final(self)@;
            assert(new_s.pending =~= old_s.pending.push(path@));
            assert(new_s.envs =~= old_s.envs);
            assert(new_s.atoms =~= old_s.atoms);
            assert(new_s.files =~~= old_s.files);
        }
    }

    /// Hand out and clear the paths whose reads the evaluator requested.
    pub fn take_requests(&mut self) -> (r: Vec<String>)
        ensures
            r@.len() == old(self)@.pending.len(),
            forall|i: int| 0 <= i < r@.len() ==> (#[trigger] r@[i])@ == old(self)@.pending[i],
            final(self)@.pending == Seq::<Seq<char>>::empty(),
            final(self)@.envs == old(self)@.envs,
            final(self)@.atoms == old(self)@.atoms,
            final(self)@.files == old(self)@.files,
    {
        let mut taken: Vec<String> = Vec::new();
        let n = self.pending.len();
        let mut i: usize = 0;
        while i < n
            invariant
                self@ == old(self)@,
                n == self.pending@.len(),
                i <= n,
                taken@.len() == i,
                forall|j: int| 0 <= j < i ==> (#[trigger] taken@[j])@ == self@.pending[j],
            decreases n - i,
        {
            taken.push(self.pending[i].clone());
            i += 1;
        }
        self.pending = Vec::new();
        proof {
            assert(final(self)@.pending =~= Seq::<Seq<char>>::empty());
            assert(final(self)@.envs =~= old(self)@.envs);
            assert(final(self)@.atoms =~= old(self)@.atoms);
            assert(final(self)@.files =~~= old(self)@.files);
        }
        taken
    }
}

/// A fresh copy of one scope node with the same mathematical image.
fn dup_env(e: &Env) -> (r: Env)
    ensures
        r@ == e@,
{
    let mut data: Vec<(String, LispValue)> = Vec::new();
    let n = e.data.len();
    let mut i: usize = 0;
    while i < n
        invariant
            n == e.data@.len(),
            i <= n,
            data@.len() == i,
            forall|j: int|
                0 <= j < i ==> (#[trigger] data@[j]).0@ == e.data@[j].0@ && data@[j].1@
                    == e.data@[j].1@,
        decreases n - i,
    {
        data.push((e.data[i].0.clone(), e.data[i].1.duplicate()));
        i += 1;
    }
    let r = Env { data, outer: e.outer };
    proof {
        assert(r@ =~~= e@);
    }
    r
}

/// A fresh copy of one file-read outcome with the same mathematical image.
fn dup_file_read(o: &FileRead) -> (r: FileRead)
    ensures
        r@ == o@,
{
    match o {
        FileRead::Content(c) => FileRead::Content(c.clone()),
        FileRead::Failure(m) => FileRead::Failure(m.clone()),
    }
}

impl Scope {
    /// A fresh store with the same mathematical image: the same scope
    /// chain, cell contents, file outcomes and pending requests.  An
    /// evaluation attempt can run against the copy and be discarded.
    pub fn duplicate(&self) -> (r: Scope)
        ensures
            r@ == self@,
    {
        let mut envs: Vec<Env> = Vec::new();
        let ne = self.envs.len();
        let mut i: usize = 0;
        while i < ne
            invariant
                ne == self.envs@.len(),
                i <= ne,
                envs@.len() == i,
                forall|j: int| 0 <= j < i ==> (#[trigger] envs@[j])@ == self.envs@[j]@,
            decreases ne - i,
        {
            envs.push(dup_env(&self.envs[i]));
            i += 1;
        }
        let mut atoms: Vec<LispValue> = Vec::new();
        let na = self.atoms.len();
        let mut k: usize = 0;
        while k < na
            invariant
                na == self.atoms@.len(),
                k <= na,
                atoms@.len() == k,
                forall|j: int| 0 <= j < k ==> (#[trigger] atoms@[j])@ == self.atoms@[j]@,
            decreases na - k,
        {
            atoms.push(self.atoms[k].duplicate());
            k += 1;
        }
        let mut files: Vec<(String, FileRead)> = Vec::new();
        let nf = self.files.len();
        let mut m: usize = 0;
        while m < nf
            invariant
                nf == self.files@.len(),
                m <= nf,
                files@.len() == m,
                forall|j: int|
                    0 <= j < m ==> (#[trigger] files@[j]).0@ == self.files@[j].0@ && files@[j].1@
                        == self.files@[j].1@,
            decreases nf - m,
        {
            files.push((self.files[m].0.clone(), dup_file_read(&self.files[m].1)));
            m += 1;
        }
        let mut pending: Vec<String> = Vec::new();
        let np = self.pending.len();
        let mut p: usize = 0;
        while p < np
            invariant
                np == self.pending@.len(),
                p <= np,
                pending@.len() == p,
                forall|j: int| 0 <= j < p ==> (#[trigger] pending@[j])@ == self.pending@[j]@,
            decreases np - p,
        {
            pending.push(self.pending[p].clone());
            p += 1;
        }
        let r = Scope { envs, atoms, files, pending };
        proof {
            assert(r@ =~~= self@);
        }
        r
    }
}

} // verus!
