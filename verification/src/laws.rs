//! The laws of the evaluator: how evaluation changes the store, lexical
//! scoping and closure capture, shadowing, error totality of arithmetic,
//! and the quote/eval round trip.
use vstd::prelude::*;

use crate::ast::{
    lemma_wf_val_grow, lemma_wf_vals, lemma_wf_vals_grow, wf_fn, wf_val, wf_vals, Builtin,
    SpecClosure, SpecFn, SpecVal,
};
use crate::env::{
    builtin_val, chain_get, lemma_chain_get_wf, lemma_wf_env_grow, lookup_entries, root_of,
    wf_env, wf_scope, SpecScope,
};
use crate::semantics::{
    scope_push_atom, scope_push_env, scope_set, scope_write_atom, spec_apply, spec_apply_atom,
    spec_apply_concat, spec_apply_cons, spec_apply_def, spec_apply_deref, spec_apply_do,
    spec_apply_eval, spec_apply_if, spec_apply_let, spec_apply_macro, spec_apply_op,
    spec_apply_reset, spec_apply_slurp, spec_apply_swap, spec_apply_closure, spec_bind_args, spec_binop,
    spec_concat_walk, spec_create_func, spec_do_walk, spec_eval, spec_eval_args, spec_eval_list,
    spec_eval_symbol, spec_fold, spec_let_walk, spec_math, spec_str_walk,
};
use crate::text::{int_lit_val, is_int_literal};
use crate::tokenizer::{SpecTok, TokenType};

verus! {

/// What one evaluation step may do to the store: scopes and cells only
/// grow, no outer link ever changes, and no scope's bindings change except
/// the root scope, the scope evaluated in, and freshly created scopes.
pub open spec fn effects_ok(s: SpecScope, s2: SpecScope, env: int) -> bool {
    &&& s.envs.len() <= s2.envs.len()
    &&& s.atoms.len() <= s2.atoms.len()
    &&& forall|i: int| 0 <= i < s.envs.len() ==> (#[trigger] s2.envs[i]).outer == s.envs[i].outer
    &&& forall|i: int|
        1 <= i < s.envs.len() && i != env ==> (#[trigger] s2.envs[i]).data == s.envs[i].data
}

pub proof fn lemma_effects_trans(s0: SpecScope, s1: SpecScope, s2: SpecScope, env: int)
    requires
        effects_ok(s0, s1, env),
        effects_ok(s1, s2, env),
    ensures
        effects_ok(s0, s2, env),
{
}

/// Binding in a valid scope preserves well-formedness; no other scope's
/// bindings change.
pub proof fn lemma_wf_set(s: SpecScope, env: int, key: Seq<char>, v: SpecVal)
    requires
        wf_scope(s),
        0 <= env < s.envs.len(),
        wf_val(v, s.envs.len() as int, s.atoms.len() as int),
    ensures
        wf_scope(scope_set(s, env, key, v)),
        scope_set(s, env, key, v).envs.len() == s.envs.len(),
        scope_set(s, env, key, v).atoms == s.atoms,
        forall|i: int|
            0 <= i < s.envs.len() && i != env ==> scope_set(s, env, key, v).envs[i] == s.envs[i],
        scope_set(s, env, key, v).envs[env].outer == s.envs[env].outer,
        effects_ok(s, scope_set(s, env, key, v), env),
{
    let s2 = scope_set(s, env, key, v);
    assert forall|i: int| 0 <= i < s2.envs.len() implies wf_env(
        #[trigger] s2.envs[i],
        i,
        s2.envs.len() as int,
        s2.atoms.len() as int,
    ) by {
        if i == env {
            assert forall|j: int| 0 <= j < s2.envs[i].data.len() implies wf_val(
                (#[trigger] s2.envs[i].data[j]).1,
                s2.envs.len() as int,
                s2.atoms.len() as int,
            ) by {
                if j < s.envs[i].data.len() {
                    assert(wf_env(s.envs[i], i, s.envs.len() as int, s.atoms.len() as int));
                }
            }
        }
    }
}

/// Creating a fresh scope preserves well-formedness; nothing already
/// present changes.
pub proof fn lemma_wf_push_env(s: SpecScope, outer: int)
    requires
        wf_scope(s),
        0 <= outer < s.envs.len(),
    ensures
        wf_scope(scope_push_env(s, outer)),
        scope_push_env(s, outer).envs.len() == s.envs.len() + 1,
        scope_push_env(s, outer).atoms == s.atoms,
        forall|i: int|
            0 <= i < s.envs.len() ==> scope_push_env(s, outer).envs[i] == s.envs[i],
        forall|env: int| effects_ok(s, scope_push_env(s, outer), env),
{
    let s2 = scope_push_env(s, outer);
    assert forall|i: int| 0 <= i < s2.envs.len() implies wf_env(
        #[trigger] s2.envs[i],
        i,
        s2.envs.len() as int,
        s2.atoms.len() as int,
    ) by {
        if i < s.envs.len() {
            lemma_wf_env_grow(
                s.envs[i],
                i,
                s.envs.len() as int,
                s.atoms.len() as int,
                s2.envs.len() as int,
                s2.atoms.len() as int,
            );
        }
    }
    assert forall|k: int| 0 <= k < s2.atoms.len() implies wf_val(
        #[trigger] s2.atoms[k],
        s2.envs.len() as int,
        s2.atoms.len() as int,
    ) by {
        lemma_wf_val_grow(
            s.atoms[k],
            s.envs.len() as int,
            s.atoms.len() as int,
            s2.envs.len() as int,
            s2.atoms.len() as int,
        );
    }
}

/// Allocating a cell preserves well-formedness; no scope changes.
pub proof fn lemma_wf_push_atom(s: SpecScope, v: SpecVal)
    requires
        wf_scope(s),
        wf_val(v, s.envs.len() as int, s.atoms.len() as int),
    ensures
        wf_scope(scope_push_atom(s, v)),
        scope_push_atom(s, v).envs == s.envs,
        scope_push_atom(s, v).atoms.len() == s.atoms.len() + 1,
        forall|env: int| effects_ok(s, scope_push_atom(s, v), env),
{
    let s2 = scope_push_atom(s, v);
    assert forall|i: int| 0 <= i < s2.envs.len() implies wf_env(
        #[trigger] s2.envs[i],
        i,
        s2.envs.len() as int,
        s2.atoms.len() as int,
    ) by {
        lemma_wf_env_grow(
            s.envs[i],
            i,
            s.envs.len() as int,
            s.atoms.len() as int,
            s2.envs.len() as int,
            s2.atoms.len() as int,
        );
    }
    assert forall|k: int| 0 <= k < s2.atoms.len() implies wf_val(
        #[trigger] s2.atoms[k],
        s2.envs.len() as int,
        s2.atoms.len() as int,
    ) by {
        if k < s.atoms.len() {
            lemma_wf_val_grow(
                s.atoms[k],
                s.envs.len() as int,
                s.atoms.len() as int,
                s2.envs.len() as int,
                s2.atoms.len() as int,
            );
        } else {
            lemma_wf_val_grow(
                v,
                s.envs.len() as int,
                s.atoms.len() as int,
                s2.envs.len() as int,
                s2.atoms.len() as int,
            );
        }
    }
}

/// Replacing a cell's content preserves well-formedness; no scope changes.
pub proof fn lemma_wf_write_atom(s: SpecScope, i: int, v: SpecVal)
    requires
        wf_scope(s),
        0 <= i < s.atoms.len(),
        wf_val(v, s.envs.len() as int, s.atoms.len() as int),
    ensures
        wf_scope(scope_write_atom(s, i, v)),
        scope_write_atom(s, i, v).envs == s.envs,
        scope_write_atom(s, i, v).atoms.len() == s.atoms.len(),
        forall|env: int| effects_ok(s, scope_write_atom(s, i, v), env),
{
}

/// In a well-formed store, every chain of outer links ends at the root
/// scope, which is scope zero.
pub proof fn lemma_root_of_zero(s: SpecScope, env: int)
    requires
        wf_scope(s),
        0 <= env < s.envs.len(),
    ensures
        root_of(s, env) == Some(0int),
    decreases env,
{
    assert(wf_env(s.envs[env], env, s.envs.len() as int, s.atoms.len() as int));
    if env == 0 {
        match s.envs[0].outer {
            Some(o) => {
                assert(0 <= o < 0);
            },
            None => {},
        }
    } else {
        match s.envs[env].outer {
            Some(o) => {
                lemma_root_of_zero(s, o);
            },
            None => {
                assert(s.envs[env].outer is Some);
            },
        }
    }
}

/// A resolved symbol is well-formed for the store it was resolved in.
pub proof fn lemma_eval_symbol_wf(s: SpecScope, tok: SpecTok, env: int)
    requires
        wf_scope(s),
    ensures
        wf_val(spec_eval_symbol(s, tok, env), s.envs.len() as int, s.atoms.len() as int),
{
    lemma_chain_get_wf(s, env, tok.text);
}

/// Evaluation preserves well-formedness, grows the store monotonically,
/// never changes an outer link, writes no scope's bindings except the root,
/// the current scope and fresh scopes, and yields a well-formed value.
pub proof fn lemma_eval_effects(s: SpecScope, v: SpecVal, env: int, fuel: nat)
    requires
        wf_scope(s),
        wf_val(v, s.envs.len() as int, s.atoms.len() as int),
        0 <= env < s.envs.len(),
    ensures
        ({
            let (s2, r) = spec_eval(s, v, env, fuel);
            wf_scope(s2) && effects_ok(s, s2, env) && wf_val(
                r,
                s2.envs.len() as int,
                s2.atoms.len() as int,
            )
        }),
    decreases fuel, 4int, 0int,
{
    if fuel != 0 {
        match v {
            SpecVal::List(items) => {
                lemma_eval_list_effects(s, items, env, fuel);
            },
            SpecVal::Unit(tok) => {
                lemma_eval_symbol_wf(s, tok, env);
            },
            _ => {},
        }
    }
}

pub proof fn lemma_eval_list_effects(s: SpecScope, items: Seq<SpecVal>, env: int, fuel: nat)
    requires
        wf_scope(s),
        wf_vals(items, s.envs.len() as int, s.atoms.len() as int),
        0 <= env < s.envs.len(),
    ensures
        ({
            let (s2, r) = spec_eval_list(s, items, env, fuel);
            wf_scope(s2) && effects_ok(s, s2, env) && wf_val(
                r,
                s2.envs.len() as int,
                s2.atoms.len() as int,
            )
        }),
    decreases fuel, 3int, 0int,
{
    if fuel != 0 && items.len() > 0 {
        lemma_wf_vals(items, s.envs.len() as int, s.atoms.len() as int);
        lemma_eval_effects(s, items[0], env, (fuel - 1) as nat);
        let (s1, op) = spec_eval(s, items[0], env, (fuel - 1) as nat);
        match op {
            SpecVal::Function(f) => {
                lemma_wf_vals_grow(
                    items,
                    s.envs.len() as int,
                    s.atoms.len() as int,
                    s1.envs.len() as int,
                    s1.atoms.len() as int,
                );
                lemma_apply_effects(s1, f, items, env, fuel);
                let (s2, r) = spec_apply(s1, f, items, env, fuel);
                lemma_effects_trans(s, s1, s2, env);
            },
            _ => {},
        }
    }
}

pub proof fn lemma_apply_effects(s: SpecScope, f: SpecFn, items: Seq<SpecVal>, env: int, fuel: nat)
    requires
        wf_scope(s),
        wf_fn(f, s.envs.len() as int, s.atoms.len() as int),
        wf_vals(items, s.envs.len() as int, s.atoms.len() as int),
        0 <= env < s.envs.len(),
    ensures
        ({
            let (s2, r) = spec_apply(s, f, items, env, fuel);
            wf_scope(s2) && effects_ok(s, s2, env) && wf_val(
                r,
                s2.envs.len() as int,
                s2.atoms.len() as int,
            )
        }),
    decreases fuel, 2int, 0int,
{
    if fuel != 0 {
        lemma_wf_vals(items, s.envs.len() as int, s.atoms.len() as int);
        match f {
            SpecFn::Closure(c) => {
                lemma_apply_closure_effects(s, c, items, env, fuel);
            },
            SpecFn::Builtin(b) => {
                if b == Builtin::Add || b == Builtin::Sub || b == Builtin::Mul || b
                    == Builtin::Div {
                    lemma_apply_op_effects(s, b, items, env, fuel);
                } else if b == Builtin::Do {
                    lemma_do_walk_effects(s, items, 1, SpecVal::Nil, env, fuel);
                } else if b == Builtin::Let {
                    lemma_apply_let_effects(s, items, env, fuel);
                } else if b == Builtin::If {
                    lemma_apply_if_effects(s, items, env, fuel);
                } else if b == Builtin::Lambda {
                    lemma_create_func_effects(s, items, env, fuel);
                } else if b == Builtin::Def {
                    lemma_apply_def_effects(s, items, env, fuel);
                } else if b == Builtin::Equals {
                    lemma_two_arg_effects(s, items, env, fuel);
                } else if b == Builtin::Greater || b == Builtin::Less || b
                    == Builtin::GreaterEquals || b == Builtin::LessEquals {
                    lemma_two_arg_effects(s, items, env, fuel);
                } else if b == Builtin::Slurp {
                    if items.len() == 2 {
                        lemma_eval_effects(s, items[1], env, (fuel - 1) as nat);
                    }
                } else if b == Builtin::MakeList {
                    let vs = if items.len() >= 1 { items.skip(1) } else { Seq::empty() };
                    assert forall|k: int| 0 <= k < vs.len() implies wf_val(
                        #[trigger] vs[k],
                        s.envs.len() as int,
                        s.atoms.len() as int,
                    ) by {}
                    lemma_wf_vals(vs, s.envs.len() as int, s.atoms.len() as int);
                } else if b == Builtin::Eval {
                    lemma_apply_eval_effects(s, items, env, fuel);
                } else if b == Builtin::StrJoin {
                    lemma_str_walk_effects(s, items, 1, Seq::empty(), env, fuel);
                } else if b == Builtin::ReadString {
                    if items.len() == 2 {
                        lemma_eval_effects(s, items[1], env, (fuel - 1) as nat);
                        let (s1, v1) = spec_eval(s, items[1], env, (fuel - 1) as nat);
                        match v1 {
                            SpecVal::Str(text) => {
                                crate::parser::lemma_spec_read_wf(
                                    text,
                                    s1.envs.len() as int,
                                    s1.atoms.len() as int,
                                );
                            },
                            _ => {},
                        }
                    }
                } else if b == Builtin::Prn {
                    if items.len() == 2 {
                        lemma_eval_effects(s, items[1], env, (fuel - 1) as nat);
                    }
                } else if b == Builtin::Quote {
                } else if b == Builtin::AtomNew {
                    lemma_apply_atom_effects(s, items, env, fuel);
                } else if b == Builtin::AtomCheck {
                    if items.len() == 2 {
                        lemma_eval_effects(s, items[1], env, (fuel - 1) as nat);
                    }
                } else if b == Builtin::Deref {
                    if items.len() == 2 {
                        lemma_eval_effects(s, items[1], env, (fuel - 1) as nat);
                    }
                } else if b == Builtin::Reset {
                    lemma_apply_reset_effects(s, items, env, fuel);
                } else if b == Builtin::Swap {
                    lemma_apply_swap_effects(s, items, env, fuel);
                } else if b == Builtin::MacroBind {
                    lemma_apply_macro_effects(s, items, env, fuel);
                } else if b == Builtin::Cons {
                    lemma_apply_cons_effects(s, items, env, fuel);
                } else {
                    lemma_concat_walk_effects(s, items, 1, Seq::empty(), env, fuel);
                }
            },
        }
    }
}

proof fn lemma_apply_closure_effects(
    s: SpecScope,
    c: SpecClosure,
    items: Seq<SpecVal>,
    env: int,
    fuel: nat,
)
    requires
        wf_scope(s),
        wf_fn(SpecFn::Closure(c), s.envs.len() as int, s.atoms.len() as int),
        wf_vals(items, s.envs.len() as int, s.atoms.len() as int),
        0 <= env < s.envs.len(),
    ensures
        ({
            let (s2, r) = spec_apply_closure(s, c, items, env, fuel);
            wf_scope(s2) && effects_ok(s, s2, env) && wf_val(
                r,
                s2.envs.len() as int,
                s2.atoms.len() as int,
            )
        }),
    decreases fuel, 1int, 0int,
{
    if fuel != 0 && !(items.len() - 1 > c.params.len()) {
        let child = s.envs.len() as int;
        lemma_wf_push_env(s, c.env);
        let s_p = scope_push_env(s, c.env);
        lemma_wf_val_grow(
            *c.body,
            s.envs.len() as int,
            s.atoms.len() as int,
            s_p.envs.len() as int,
            s_p.atoms.len() as int,
        );
        lemma_wf_vals_grow(
            items,
            s.envs.len() as int,
            s.atoms.len() as int,
            s_p.envs.len() as int,
            s_p.atoms.len() as int,
        );
        lemma_bind_args_effects(s_p, c, items, 1, child, env, fuel);
    }
}

proof fn lemma_bind_args_effects(
    s: SpecScope,
    c: SpecClosure,
    items: Seq<SpecVal>,
    i: int,
    child: int,
    env: int,
    fuel: nat,
)
    requires
        wf_scope(s),
        wf_val(*c.body, s.envs.len() as int, s.atoms.len() as int),
        wf_vals(items, s.envs.len() as int, s.atoms.len() as int),
        0 <= env < s.envs.len(),
        0 <= child < s.envs.len(),
    ensures
        ({
            let (s2, r) = spec_bind_args(s, c, items, i, child, env, fuel);
            &&& wf_scope(s2)
            &&& s.envs.len() <= s2.envs.len()
            &&& s.atoms.len() <= s2.atoms.len()
            &&& forall|k: int|
                0 <= k < s.envs.len() ==> (#[trigger] s2.envs[k]).outer == s.envs[k].outer
            &&& forall|k: int|
                1 <= k < s.envs.len() && k != env && k != child ==> (#[trigger] s2.envs[k]).data
                    == s.envs[k].data
            &&& wf_val(r, s2.envs.len() as int, s2.atoms.len() as int)
        }),
    decreases fuel, 0int, items.len() - i,
{
    if fuel != 0 {
        if i < 1 || i >= items.len() {
            lemma_eval_effects(s, *c.body, child, (fuel - 1) as nat);
        } else {
            lemma_wf_vals(items, s.envs.len() as int, s.atoms.len() as int);
            lemma_eval_effects(s, items[i], env, (fuel - 1) as nat);
            let (s1, v) = spec_eval(s, items[i], env, (fuel - 1) as nat);
            lemma_wf_set(s1, child, c.params[i - 1].text, v);
            let s_set = scope_set(s1, child, c.params[i - 1].text, v);
            lemma_wf_vals_grow(
                items,
                s.envs.len() as int,
                s.atoms.len() as int,
                s_set.envs.len() as int,
                s_set.atoms.len() as int,
            );
            lemma_wf_val_grow(
                *c.body,
                s.envs.len() as int,
                s.atoms.len() as int,
                s_set.envs.len() as int,
                s_set.atoms.len() as int,
            );
            lemma_bind_args_effects(s_set, c, items, i + 1, child, env, fuel);
        }
    }
}

proof fn lemma_apply_def_effects(s: SpecScope, items: Seq<SpecVal>, env: int, fuel: nat)
    requires
        wf_scope(s),
        wf_vals(items, s.envs.len() as int, s.atoms.len() as int),
        0 <= env < s.envs.len(),
    ensures
        ({
            let (s2, r) = spec_apply_def(s, items, env, fuel);
            wf_scope(s2) && effects_ok(s, s2, env) && wf_val(
                r,
                s2.envs.len() as int,
                s2.atoms.len() as int,
            )
        }),
    decreases fuel, 1int, 0int,
{
    if fuel != 0 && items.len() == 3 {
        lemma_wf_vals(items, s.envs.len() as int, s.atoms.len() as int);
        match items[1] {
            SpecVal::Unit(tok) => {
                lemma_eval_effects(s, items[2], env, (fuel - 1) as nat);
                let (s1, v) = spec_eval(s, items[2], env, (fuel - 1) as nat);
                lemma_wf_set(s1, env, tok.text, v);
                lemma_effects_trans(s, s1, scope_set(s1, env, tok.text, v), env);
                lemma_wf_val_grow(
                    v,
                    s1.envs.len() as int,
                    s1.atoms.len() as int,
                    scope_set(s1, env, tok.text, v).envs.len() as int,
                    scope_set(s1, env, tok.text, v).atoms.len() as int,
                );
            },
            _ => {},
        }
    }
}

/// The local-binding form writes no pre-existing scope's bindings at all:
/// its bindings live in the fresh scope alone and are discarded with it.
pub proof fn lemma_apply_let_effects(s: SpecScope, items: Seq<SpecVal>, env: int, fuel: nat)
    requires
        wf_scope(s),
        wf_vals(items, s.envs.len() as int, s.atoms.len() as int),
        0 <= env < s.envs.len(),
    ensures
        ({
            let (s2, r) = spec_apply_let(s, items, env, fuel);
            &&& wf_scope(s2)
            &&& effects_ok(s, s2, env)
            &&& wf_val(r, s2.envs.len() as int, s2.atoms.len() as int)
            &&& forall|k: int|
                1 <= k < s.envs.len() ==> (#[trigger] s2.envs[k]).data == s.envs[k].data
        }),
    decreases fuel, 1int, 0int,
{
    if fuel != 0 && items.len() == 3 {
        lemma_wf_vals(items, s.envs.len() as int, s.atoms.len() as int);
        match items[1] {
            SpecVal::List(bindings) => {
                let child = s.envs.len() as int;
                lemma_wf_push_env(s, env);
                let s_p = scope_push_env(s, env);
                lemma_wf_vals_grow(
                    items,
                    s.envs.len() as int,
                    s.atoms.len() as int,
                    s_p.envs.len() as int,
                    s_p.atoms.len() as int,
                );
                lemma_wf_vals(items, s_p.envs.len() as int, s_p.atoms.len() as int);
                lemma_let_walk_effects(s_p, bindings, 0, Seq::empty(), child, items[2], fuel);
            },
            _ => {},
        }
    }
}

proof fn lemma_let_walk_effects(
    s: SpecScope,
    bindings: Seq<SpecVal>,
    i: int,
    key: Seq<char>,
    child: int,
    body: SpecVal,
    fuel: nat,
)
    requires
        wf_scope(s),
        wf_vals(bindings, s.envs.len() as int, s.atoms.len() as int),
        wf_val(body, s.envs.len() as int, s.atoms.len() as int),
        0 <= child < s.envs.len(),
    ensures
        ({
            let (s2, r) = spec_let_walk(s, bindings, i, key, child, body, fuel);
            wf_scope(s2) && effects_ok(s, s2, child) && wf_val(
                r,
                s2.envs.len() as int,
                s2.atoms.len() as int,
            )
        }),
    decreases fuel, 0int, bindings.len() - i,
{
    if fuel != 0 {
        if i < 0 || i >= bindings.len() {
            lemma_eval_effects(s, body, child, (fuel - 1) as nat);
        } else if i % 2 == 0 {
            match bindings[i] {
                SpecVal::Unit(tok) => {
                    lemma_let_walk_effects(s, bindings, i + 1, tok.text, child, body, fuel);
                },
                _ => {},
            }
        } else {
            lemma_wf_vals(bindings, s.envs.len() as int, s.atoms.len() as int);
            lemma_eval_effects(s, bindings[i], child, (fuel - 1) as nat);
            let (s1, v) = spec_eval(s, bindings[i], child, (fuel - 1) as nat);
            match v {
                SpecVal::Error(_) => {},
                _ => {
                    lemma_wf_set(s1, child, key, v);
                    let s_set = scope_set(s1, child, key, v);
                    lemma_wf_vals_grow(
                        bindings,
                        s.envs.len() as int,
                        s.atoms.len() as int,
                        s_set.envs.len() as int,
                        s_set.atoms.len() as int,
                    );
                    lemma_wf_val_grow(
                        body,
                        s.envs.len() as int,
                        s.atoms.len() as int,
                        s_set.envs.len() as int,
                        s_set.atoms.len() as int,
                    );
                    lemma_let_walk_effects(s_set, bindings, i + 1, key, child, body, fuel);
                    lemma_effects_trans(s, s1, s_set, child);
                    let (s2, r) = spec_let_walk(s_set, bindings, i + 1, key, child, body, fuel);
                    lemma_effects_trans(s, s_set, s2, child);
                },
            }
        }
    }
}

proof fn lemma_do_walk_effects(
    s: SpecScope,
    items: Seq<SpecVal>,
    i: int,
    acc: SpecVal,
    env: int,
    fuel: nat,
)
    requires
        wf_scope(s),
        wf_vals(items, s.envs.len() as int, s.atoms.len() as int),
        wf_val(acc, s.envs.len() as int, s.atoms.len() as int),
        0 <= env < s.envs.len(),
    ensures
        ({
            let (s2, r) = spec_do_walk(s, items, i, acc, env, fuel);
            wf_scope(s2) && effects_ok(s, s2, env) && wf_val(
                r,
                s2.envs.len() as int,
                s2.atoms.len() as int,
            )
        }),
    decreases fuel, 0int, items.len() - i,
{
    if fuel != 0 && 1 <= i < items.len() {
        lemma_wf_vals(items, s.envs.len() as int, s.atoms.len() as int);
        lemma_eval_effects(s, items[i], env, (fuel - 1) as nat);
        let (s1, v) = spec_eval(s, items[i], env, (fuel - 1) as nat);
        lemma_wf_vals_grow(
            items,
            s.envs.len() as int,
            s.atoms.len() as int,
            s1.envs.len() as int,
            s1.atoms.len() as int,
        );
        lemma_do_walk_effects(s1, items, i + 1, v, env, fuel);
        let (s2, r) = spec_do_walk(s1, items, i + 1, v, env, fuel);
        lemma_effects_trans(s, s1, s2, env);
    }
}

proof fn lemma_apply_if_effects(s: SpecScope, items: Seq<SpecVal>, env: int, fuel: nat)
    requires
        wf_scope(s),
        wf_vals(items, s.envs.len() as int, s.atoms.len() as int),
        0 <= env < s.envs.len(),
    ensures
        ({
            let (s2, r) = spec_apply_if(s, items, env, fuel);
            wf_scope(s2) && effects_ok(s, s2, env) && wf_val(
                r,
                s2.envs.len() as int,
                s2.atoms.len() as int,
            )
        }),
    decreases fuel, 1int, 0int,
{
    if fuel != 0 && 3 <= items.len() <= 4 {
        lemma_wf_vals(items, s.envs.len() as int, s.atoms.len() as int);
        lemma_eval_effects(s, items[1], env, (fuel - 1) as nat);
        let (s1, cond) = spec_eval(s, items[1], env, (fuel - 1) as nat);
        lemma_wf_vals_grow(
            items,
            s.envs.len() as int,
            s.atoms.len() as int,
            s1.envs.len() as int,
            s1.atoms.len() as int,
        );
        lemma_wf_vals(items, s1.envs.len() as int, s1.atoms.len() as int);
        if 2 < items.len() {
            lemma_eval_effects(s1, items[2], env, (fuel - 1) as nat);
            lemma_effects_trans(s, s1, spec_eval(s1, items[2], env, (fuel - 1) as nat).0, env);
        }
        if 3 < items.len() {
            lemma_eval_effects(s1, items[3], env, (fuel - 1) as nat);
            lemma_effects_trans(s, s1, spec_eval(s1, items[3], env, (fuel - 1) as nat).0, env);
        }
    }
}

proof fn lemma_create_func_effects(s: SpecScope, items: Seq<SpecVal>, env: int, fuel: nat)
    requires
        wf_scope(s),
        wf_vals(items, s.envs.len() as int, s.atoms.len() as int),
        0 <= env < s.envs.len(),
    ensures
        ({
            let (s2, r) = spec_create_func(s, items, env, fuel);
            wf_scope(s2) && effects_ok(s, s2, env) && wf_val(
                r,
                s2.envs.len() as int,
                s2.atoms.len() as int,
            )
        }),
    decreases fuel, 1int, 0int,
{
    if fuel != 0 && items.len() == 3 {
        lemma_wf_vals(items, s.envs.len() as int, s.atoms.len() as int);
    }
}

/// Equality, comparisons: evaluate two arguments in order.
proof fn lemma_two_arg_effects(s: SpecScope, items: Seq<SpecVal>, env: int, fuel: nat)
    requires
        wf_scope(s),
        wf_vals(items, s.envs.len() as int, s.atoms.len() as int),
        0 <= env < s.envs.len(),
        fuel >= 1,
    ensures
        ({
            let (s1, l) = spec_eval(s, items[1], env, (fuel - 1) as nat);
            let (s2, r) = spec_eval(s1, items[2], env, (fuel - 1) as nat);
            items.len() == 3 ==> wf_scope(s2) && effects_ok(s, s2, env)
        }),
    decreases fuel, 1int, 0int,
{
    if items.len() == 3 {
        lemma_wf_vals(items, s.envs.len() as int, s.atoms.len() as int);
        lemma_eval_effects(s, items[1], env, (fuel - 1) as nat);
        let (s1, l) = spec_eval(s, items[1], env, (fuel - 1) as nat);
        lemma_wf_vals_grow(
            items,
            s.envs.len() as int,
            s.atoms.len() as int,
            s1.envs.len() as int,
            s1.atoms.len() as int,
        );
        lemma_wf_vals(items, s1.envs.len() as int, s1.atoms.len() as int);
        lemma_eval_effects(s1, items[2], env, (fuel - 1) as nat);
        let (s2, r) = spec_eval(s1, items[2], env, (fuel - 1) as nat);
        lemma_effects_trans(s, s1, s2, env);
    }
}

proof fn lemma_eval_args_effects(
    s: SpecScope,
    items: Seq<SpecVal>,
    i: int,
    acc: Seq<SpecVal>,
    env: int,
    fuel: nat,
)
    requires
        wf_scope(s),
        wf_vals(items, s.envs.len() as int, s.atoms.len() as int),
        wf_vals(acc, s.envs.len() as int, s.atoms.len() as int),
        0 <= env < s.envs.len(),
    ensures
        ({
            let (s2, args) = spec_eval_args(s, items, i, acc, env, fuel);
            wf_scope(s2) && effects_ok(s, s2, env) && wf_vals(
                args,
                s2.envs.len() as int,
                s2.atoms.len() as int,
            )
        }),
    decreases fuel, 0int, items.len() - i,
{
    if fuel != 0 && 1 <= i < items.len() {
        lemma_wf_vals(items, s.envs.len() as int, s.atoms.len() as int);
        lemma_wf_vals(acc, s.envs.len() as int, s.atoms.len() as int);
        lemma_eval_effects(s, items[i], env, (fuel - 1) as nat);
        let (s1, v) = spec_eval(s, items[i], env, (fuel - 1) as nat);
        lemma_wf_vals_grow(
            items,
            s.envs.len() as int,
            s.atoms.len() as int,
            s1.envs.len() as int,
            s1.atoms.len() as int,
        );
        lemma_wf_vals_grow(
            acc,
            s.envs.len() as int,
            s.atoms.len() as int,
            s1.envs.len() as int,
            s1.atoms.len() as int,
        );
        lemma_wf_vals(acc, s1.envs.len() as int, s1.atoms.len() as int);
        lemma_wf_vals(acc.push(v), s1.envs.len() as int, s1.atoms.len() as int);
        lemma_eval_args_effects(s1, items, i + 1, acc.push(v), env, fuel);
        let (s2, args) = spec_eval_args(s1, items, i + 1, acc.push(v), env, fuel);
        lemma_effects_trans(s, s1, s2, env);
    } else {
        lemma_wf_vals(acc, s.envs.len() as int, s.atoms.len() as int);
    }
}

/// The fold of an arithmetic operator yields a number or an error value
/// when it folds at all, and otherwise returns its well-formed accumulator.
proof fn lemma_fold_wf(op: Builtin, acc: SpecVal, args: Seq<SpecVal>, i: int, ne: int, na: int)
    requires
        wf_val(acc, ne, na),
    ensures
        wf_val(spec_fold(op, acc, args, i), ne, na),
    decreases args.len() - i,
{
    if 0 <= i < args.len() {
        lemma_fold_wf(op, spec_binop(op, acc, args[i]), args, i + 1, ne, na);
    }
}

proof fn lemma_apply_op_effects(s: SpecScope, op: Builtin, items: Seq<SpecVal>, env: int, fuel: nat)
    requires
        wf_scope(s),
        wf_vals(items, s.envs.len() as int, s.atoms.len() as int),
        0 <= env < s.envs.len(),
    ensures
        ({
            let (s2, r) = spec_apply_op(s, op, items, env, fuel);
            wf_scope(s2) && effects_ok(s, s2, env) && wf_val(
                r,
                s2.envs.len() as int,
                s2.atoms.len() as int,
            )
        }),
    decreases fuel, 1int, 0int,
{
    if fuel != 0 {
        lemma_eval_args_effects(s, items, 1, Seq::empty(), env, fuel);
        let (s1, args) = spec_eval_args(s, items, 1, Seq::empty(), env, fuel);
        if args.len() > 0 {
            lemma_wf_vals(args, s1.envs.len() as int, s1.atoms.len() as int);
            lemma_fold_wf(op, args[0], args, 1, s1.envs.len() as int, s1.atoms.len() as int);
        }
    }
}

proof fn lemma_apply_eval_effects(s: SpecScope, items: Seq<SpecVal>, env: int, fuel: nat)
    requires
        wf_scope(s),
        wf_vals(items, s.envs.len() as int, s.atoms.len() as int),
        0 <= env < s.envs.len(),
    ensures
        ({
            let (s2, r) = spec_apply_eval(s, items, env, fuel);
            wf_scope(s2) && effects_ok(s, s2, env) && wf_val(
                r,
                s2.envs.len() as int,
                s2.atoms.len() as int,
            )
        }),
    decreases fuel, 1int, 0int,
{
    if fuel != 0 && items.len() == 2 {
        lemma_wf_vals(items, s.envs.len() as int, s.atoms.len() as int);
        lemma_eval_effects(s, items[1], env, (fuel - 1) as nat);
        let (s1, v) = spec_eval(s, items[1], env, (fuel - 1) as nat);
        lemma_root_of_zero(s1, env);
        lemma_eval_effects(s1, v, 0, (fuel - 1) as nat);
        let (s2, r) = spec_eval(s1, v, 0, (fuel - 1) as nat);
        assert(effects_ok(s1, s2, env));
        lemma_effects_trans(s, s1, s2, env);
    }
}

proof fn lemma_str_walk_effects(
    s: SpecScope,
    items: Seq<SpecVal>,
    i: int,
    acc: Seq<char>,
    env: int,
    fuel: nat,
)
    requires
        wf_scope(s),
        wf_vals(items, s.envs.len() as int, s.atoms.len() as int),
        0 <= env < s.envs.len(),
    ensures
        ({
            let (s2, t) = spec_str_walk(s, items, i, acc, env, fuel);
            wf_scope(s2) && effects_ok(s, s2, env)
        }),
    decreases fuel, 0int, items.len() - i,
{
    if fuel != 0 && 1 <= i < items.len() {
        lemma_wf_vals(items, s.envs.len() as int, s.atoms.len() as int);
        lemma_eval_effects(s, items[i], env, (fuel - 1) as nat);
        let (s1, v) = spec_eval(s, items[i], env, (fuel - 1) as nat);
        lemma_wf_vals_grow(
            items,
            s.envs.len() as int,
            s.atoms.len() as int,
            s1.envs.len() as int,
            s1.atoms.len() as int,
        );
        lemma_str_walk_effects(
            s1,
            items,
            i + 1,
            acc + crate::semantics::render_val(s1, v, fuel) + seq![' '],
            env,
            fuel,
        );
        let (s2, t) = spec_str_walk(
            s1,
            items,
            i + 1,
            acc + crate::semantics::render_val(s1, v, fuel) + seq![' '],
            env,
            fuel,
        );
        lemma_effects_trans(s, s1, s2, env);
    }
}

proof fn lemma_apply_atom_effects(s: SpecScope, items: Seq<SpecVal>, env: int, fuel: nat)
    requires
        wf_scope(s),
        wf_vals(items, s.envs.len() as int, s.atoms.len() as int),
        0 <= env < s.envs.len(),
    ensures
        ({
            let (s2, r) = spec_apply_atom(s, items, env, fuel);
            wf_scope(s2) && effects_ok(s, s2, env) && wf_val(
                r,
                s2.envs.len() as int,
                s2.atoms.len() as int,
            )
        }),
    decreases fuel, 1int, 0int,
{
    if fuel != 0 && items.len() == 2 {
        lemma_wf_vals(items, s.envs.len() as int, s.atoms.len() as int);
        lemma_eval_effects(s, items[1], env, (fuel - 1) as nat);
        let (s1, v) = spec_eval(s, items[1], env, (fuel - 1) as nat);
        match v {
            SpecVal::Error(_) => {},
            _ => {
                lemma_wf_push_atom(s1, v);
                lemma_effects_trans(s, s1, scope_push_atom(s1, v), env);
            },
        }
    }
}

proof fn lemma_apply_reset_effects(s: SpecScope, items: Seq<SpecVal>, env: int, fuel: nat)
    requires
        wf_scope(s),
        wf_vals(items, s.envs.len() as int, s.atoms.len() as int),
        0 <= env < s.envs.len(),
    ensures
        ({
            let (s2, r) = spec_apply_reset(s, items, env, fuel);
            wf_scope(s2) && effects_ok(s, s2, env) && wf_val(
                r,
                s2.envs.len() as int,
                s2.atoms.len() as int,
            )
        }),
    decreases fuel, 1int, 0int,
{
    if fuel != 0 && items.len() == 3 {
        lemma_wf_vals(items, s.envs.len() as int, s.atoms.len() as int);
        lemma_eval_effects(s, items[1], env, (fuel - 1) as nat);
        let (s1, a) = spec_eval(s, items[1], env, (fuel - 1) as nat);
        lemma_wf_vals_grow(
            items,
            s.envs.len() as int,
            s.atoms.len() as int,
            s1.envs.len() as int,
            s1.atoms.len() as int,
        );
        lemma_wf_vals(items, s1.envs.len() as int, s1.atoms.len() as int);
        lemma_eval_effects(s1, items[2], env, (fuel - 1) as nat);
        let (s2, v) = spec_eval(s1, items[2], env, (fuel - 1) as nat);
        lemma_effects_trans(s, s1, s2, env);
        match a {
            SpecVal::Atom(i) => {
                match v {
                    SpecVal::Error(_) => {},
                    _ => {
                        lemma_wf_write_atom(s2, i, v);
                        lemma_effects_trans(s, s2, scope_write_atom(s2, i, v), env);
                        lemma_wf_val_grow(
                            v,
                            s2.envs.len() as int,
                            s2.atoms.len() as int,
                            scope_write_atom(s2, i, v).envs.len() as int,
                            scope_write_atom(s2, i, v).atoms.len() as int,
                        );
                    },
                }
            },
            _ => {},
        }
    }
}

proof fn lemma_apply_swap_effects(s: SpecScope, items: Seq<SpecVal>, env: int, fuel: nat)
    requires
        wf_scope(s),
        wf_vals(items, s.envs.len() as int, s.atoms.len() as int),
        0 <= env < s.envs.len(),
    ensures
        ({
            let (s2, r) = spec_apply_swap(s, items, env, fuel);
            wf_scope(s2) && effects_ok(s, s2, env) && wf_val(
                r,
                s2.envs.len() as int,
                s2.atoms.len() as int,
            )
        }),
    decreases fuel, 1int, 0int,
{
    if fuel != 0 && items.len() == 3 {
        lemma_wf_vals(items, s.envs.len() as int, s.atoms.len() as int);
        lemma_eval_effects(s, items[1], env, (fuel - 1) as nat);
        let (s1, a) = spec_eval(s, items[1], env, (fuel - 1) as nat);
        lemma_wf_vals_grow(
            items,
            s.envs.len() as int,
            s.atoms.len() as int,
            s1.envs.len() as int,
            s1.atoms.len() as int,
        );
        lemma_wf_vals(items, s1.envs.len() as int, s1.atoms.len() as int);
        lemma_eval_effects(s1, items[2], env, (fuel - 1) as nat);
        let (s2, fv) = spec_eval(s1, items[2], env, (fuel - 1) as nat);
        lemma_effects_trans(s, s1, s2, env);
        match a {
            SpecVal::Atom(i) => {
                match fv {
                    SpecVal::Function(f) => {
                        let cur = if 0 <= i < s2.atoms.len() {
                            s2.atoms[i]
                        } else {
                            SpecVal::Nil
                        };
                        let synth = seq![SpecVal::Nil, cur];
                        lemma_wf_vals(synth, s2.envs.len() as int, s2.atoms.len() as int);
                        lemma_apply_effects(s2, f, synth, env, (fuel - 1) as nat);
                        let (s3, nv) = spec_apply(s2, f, synth, env, (fuel - 1) as nat);
                        lemma_effects_trans(s, s2, s3, env);
                        match nv {
                            SpecVal::Error(_) => {},
                            _ => {
                                lemma_wf_write_atom(s3, i, nv);
                                lemma_effects_trans(s, s3, scope_write_atom(s3, i, nv), env);
                                lemma_wf_val_grow(
                                    nv,
                                    s3.envs.len() as int,
                                    s3.atoms.len() as int,
                                    scope_write_atom(s3, i, nv).envs.len() as int,
                                    scope_write_atom(s3, i, nv).atoms.len() as int,
                                );
                            },
                        }
                    },
                    _ => {},
                }
            },
            _ => {},
        }
    }
}

proof fn lemma_apply_macro_effects(s: SpecScope, items: Seq<SpecVal>, env: int, fuel: nat)
    requires
        wf_scope(s),
        wf_vals(items, s.envs.len() as int, s.atoms.len() as int),
        0 <= env < s.envs.len(),
    ensures
        ({
            let (s2, r) = spec_apply_macro(s, items, env, fuel);
            wf_scope(s2) && effects_ok(s, s2, env) && wf_val(
                r,
                s2.envs.len() as int,
                s2.atoms.len() as int,
            )
        }),
    decreases fuel, 1int, 0int,
{
    if fuel != 0 && items.len() == 3 {
        lemma_wf_vals(items, s.envs.len() as int, s.atoms.len() as int);
        match items[1] {
            SpecVal::Unit(tok) => {
                lemma_eval_effects(s, items[2], env, (fuel - 1) as nat);
                let (s1, v) = spec_eval(s, items[2], env, (fuel - 1) as nat);
                match v {
                    SpecVal::Function(f) => {
                        lemma_wf_set(s1, env, tok.text, SpecVal::Macro(f));
                        let s_set = scope_set(s1, env, tok.text, SpecVal::Macro(f));
                        lemma_effects_trans(s, s1, s_set, env);
                        lemma_wf_val_grow(
                            SpecVal::Macro(f),
                            s1.envs.len() as int,
                            s1.atoms.len() as int,
                            s_set.envs.len() as int,
                            s_set.atoms.len() as int,
                        );
                    },
                    _ => {},
                }
            },
            _ => {},
        }
    }
}

proof fn lemma_apply_cons_effects(s: SpecScope, items: Seq<SpecVal>, env: int, fuel: nat)
    requires
        wf_scope(s),
        wf_vals(items, s.envs.len() as int, s.atoms.len() as int),
        0 <= env < s.envs.len(),
    ensures
        ({
            let (s2, r) = spec_apply_cons(s, items, env, fuel);
            wf_scope(s2) && effects_ok(s, s2, env) && wf_val(
                r,
                s2.envs.len() as int,
                s2.atoms.len() as int,
            )
        }),
    decreases fuel, 1int, 0int,
{
    if fuel != 0 && items.len() == 3 {
        lemma_wf_vals(items, s.envs.len() as int, s.atoms.len() as int);
        lemma_eval_effects(s, items[2], env, (fuel - 1) as nat);
        let (s1, tail) = spec_eval(s, items[2], env, (fuel - 1) as nat);
        match tail {
            SpecVal::List(l) => {
                lemma_wf_vals_grow(
                    items,
                    s.envs.len() as int,
                    s.atoms.len() as int,
                    s1.envs.len() as int,
                    s1.atoms.len() as int,
                );
                lemma_wf_vals(items, s1.envs.len() as int, s1.atoms.len() as int);
                lemma_eval_effects(s1, items[1], env, (fuel - 1) as nat);
                let (s2, head) = spec_eval(s1, items[1], env, (fuel - 1) as nat);
                lemma_effects_trans(s, s1, s2, env);
                lemma_wf_vals(l, s1.envs.len() as int, s1.atoms.len() as int);
                lemma_wf_vals_grow(
                    l,
                    s1.envs.len() as int,
                    s1.atoms.len() as int,
                    s2.envs.len() as int,
                    s2.atoms.len() as int,
                );
                lemma_wf_vals(l, s2.envs.len() as int, s2.atoms.len() as int);
                lemma_wf_vals(seq![head] + l, s2.envs.len() as int, s2.atoms.len() as int);
            },
            _ => {},
        }
    }
}

proof fn lemma_concat_walk_effects(
    s: SpecScope,
    items: Seq<SpecVal>,
    i: int,
    acc: Seq<SpecVal>,
    env: int,
    fuel: nat,
)
    requires
        wf_scope(s),
        wf_vals(items, s.envs.len() as int, s.atoms.len() as int),
        wf_vals(acc, s.envs.len() as int, s.atoms.len() as int),
        0 <= env < s.envs.len(),
    ensures
        ({
            let (s2, r) = spec_concat_walk(s, items, i, acc, env, fuel);
            wf_scope(s2) && effects_ok(s, s2, env) && wf_val(
                r,
                s2.envs.len() as int,
                s2.atoms.len() as int,
            )
        }),
    decreases fuel, 0int, items.len() - i,
{
    if fuel != 0 && 1 <= i < items.len() {
        lemma_wf_vals(items, s.envs.len() as int, s.atoms.len() as int);
        lemma_eval_effects(s, items[i], env, (fuel - 1) as nat);
        let (s1, v) = spec_eval(s, items[i], env, (fuel - 1) as nat);
        match v {
            SpecVal::List(l) => {
                lemma_wf_vals_grow(
                    items,
                    s.envs.len() as int,
                    s.atoms.len() as int,
                    s1.envs.len() as int,
                    s1.atoms.len() as int,
                );
                lemma_wf_vals_grow(
                    acc,
                    s.envs.len() as int,
                    s.atoms.len() as int,
                    s1.envs.len() as int,
                    s1.atoms.len() as int,
                );
                lemma_wf_vals(acc, s1.envs.len() as int, s1.atoms.len() as int);
                lemma_wf_vals(l, s1.envs.len() as int, s1.atoms.len() as int);
                lemma_wf_vals(acc + l, s1.envs.len() as int, s1.atoms.len() as int);
                lemma_concat_walk_effects(s1, items, i + 1, acc + l, env, fuel);
                let (s2, r) = spec_concat_walk(s1, items, i + 1, acc + l, env, fuel);
                lemma_effects_trans(s, s1, s2, env);
            },
            _ => {},
        }
    } else {
        lemma_wf_vals(acc, s.envs.len() as int, s.atoms.len() as int);
    }
}

/// Evaluating a symbol whose text is an unbound, well-formed integer
/// literal in range yields exactly that integer; the reserved words are
/// never integer literals.
pub proof fn lemma_int_literal_value(s: SpecScope, tok: SpecTok, env: int, fuel: nat)
    requires
        tok.kind == TokenType::Symbol,
        chain_get(s, env, tok.text) is None,
        is_int_literal(tok.text),
        i64::MIN <= int_lit_val(tok.text) <= i64::MAX,
        fuel >= 1,
    ensures
        spec_eval(s, SpecVal::Unit(tok), env, fuel) == (s, SpecVal::Int(int_lit_val(tok.text))),
{
    let t = tok.text;
    reveal_strlit("nil");
    reveal_strlit("true");
    reveal_strlit("false");
    assert(crate::text::int_body(t).len() > 0);
    if t == "nil"@ || t == "true"@ || t == "false"@ {
        assert(t[0] == 'n' || t[0] == 't' || t[0] == 'f');
        assert(crate::text::int_body(t) == t);
        assert(crate::text::is_digit(crate::text::int_body(t)[0]));
        assert(false);
    }
}

/// Defining a symbol binds it in the current scope: evaluating the symbol
/// right afterwards yields the defined value.  Applied to a scope where the
/// symbol is already bound, this says redefinition shadows rather than
/// errors: the later value is the one that resolves.
pub proof fn lemma_define_then_resolve(
    s: SpecScope,
    op: SpecVal,
    key: SpecTok,
    expr: SpecVal,
    env: int,
    fuel: nat,
)
    requires
        wf_scope(s),
        0 <= env < s.envs.len(),
        key.kind == TokenType::Symbol,
        wf_val(expr, s.envs.len() as int, s.atoms.len() as int),
        fuel >= 1,
    ensures
        ({
            let (s1, v) = spec_apply_def(s, seq![op, SpecVal::Unit(key), expr], env, fuel);
            spec_eval_symbol(s1, key, env) == v
        }),
{
    let items = seq![op, SpecVal::Unit(key), expr];
    lemma_eval_effects(s, expr, env, (fuel - 1) as nat);
    let (s_e, v) = spec_eval(s, expr, env, (fuel - 1) as nat);
    let s1 = scope_set(s_e, env, key.text, v);
    assert(s1.envs[env].data.last() == (key.text, v));
    assert(lookup_entries(s1.envs[env].data, key.text) == Some(v));
    assert(crate::env::chain_find(s1, env, key.text) == Some(env));
    assert(chain_get(s1, env, key.text) == Some(v));
}

/// Redefinition shadows rather than errors: defining the same symbol twice
/// in sequence leaves the later value as the one that resolves.
pub proof fn lemma_redefine_shadows(
    s: SpecScope,
    op: SpecVal,
    key: SpecTok,
    e1: SpecVal,
    e2: SpecVal,
    env: int,
    fuel: nat,
)
    requires
        wf_scope(s),
        0 <= env < s.envs.len(),
        key.kind == TokenType::Symbol,
        wf_val(op, s.envs.len() as int, s.atoms.len() as int),
        wf_val(e1, s.envs.len() as int, s.atoms.len() as int),
        wf_val(e2, s.envs.len() as int, s.atoms.len() as int),
        fuel >= 1,
    ensures
        ({
            let (s1, v1) = spec_apply_def(s, seq![op, SpecVal::Unit(key), e1], env, fuel);
            let (s2, v2) = spec_apply_def(s1, seq![op, SpecVal::Unit(key), e2], env, fuel);
            spec_eval_symbol(s2, key, env) == v2
        }),
{
    lemma_define_then_resolve(s, op, key, e1, env, fuel);
    lemma_wf_vals(
        seq![op, SpecVal::Unit(key), e1],
        s.envs.len() as int,
        s.atoms.len() as int,
    );
    lemma_apply_def_effects(s, seq![op, SpecVal::Unit(key), e1], env, fuel);
    let (s1, v1) = spec_apply_def(s, seq![op, SpecVal::Unit(key), e1], env, fuel);
    lemma_wf_val_grow(
        e2,
        s.envs.len() as int,
        s.atoms.len() as int,
        s1.envs.len() as int,
        s1.atoms.len() as int,
    );
    lemma_define_then_resolve(s1, op, key, e2, env, fuel);
}

/// Only false and nil are falsy: a conditional whose condition evaluates to
/// any other non-error value takes the then branch.
pub proof fn lemma_if_truthy(s: SpecScope, items: Seq<SpecVal>, env: int, fuel: nat)
    requires
        3 <= items.len() <= 4,
        fuel >= 1,
        ({
            let (s1, c) = spec_eval(s, items[1], env, (fuel - 1) as nat);
            c != SpecVal::Boolean(false) && !(c is Nil) && !(c is Error)
        }),
    ensures
        ({
            let (s1, c) = spec_eval(s, items[1], env, (fuel - 1) as nat);
            spec_apply_if(s, items, env, fuel) == spec_eval(s1, items[2], env, (fuel - 1) as nat)
        }),
{
}

/// False and nil take the else branch; with no else branch the conditional
/// is nil.
pub proof fn lemma_if_falsy(s: SpecScope, items: Seq<SpecVal>, env: int, fuel: nat)
    requires
        3 <= items.len() <= 4,
        fuel >= 1,
        ({
            let (s1, c) = spec_eval(s, items[1], env, (fuel - 1) as nat);
            c == SpecVal::Boolean(false) || c is Nil
        }),
    ensures
        ({
            let (s1, c) = spec_eval(s, items[1], env, (fuel - 1) as nat);
            spec_apply_if(s, items, env, fuel) == if items.len() == 4 {
                spec_eval(s1, items[3], env, (fuel - 1) as nat)
            } else {
                (s1, SpecVal::Nil)
            }
        }),
{
}

/// A closure body runs against the closure's defining scope, not the
/// caller's: applying a parameterless closure evaluates its body in a fresh
/// scope whose outer link is the captured defining scope.
pub proof fn lemma_lambda_captures_defining_scope(
    s: SpecScope,
    c: SpecClosure,
    items: Seq<SpecVal>,
    env: int,
    fuel: nat,
)
    requires
        items.len() == 1,
        fuel >= 1,
    ensures
        spec_apply_closure(s, c, items, env, fuel) == spec_eval(
            scope_push_env(s, c.env),
            *c.body,
            s.envs.len() as int,
            (fuel - 1) as nat,
        ),
{
}

/// With any argument count the call accepts, application hangs the fresh
/// frame off the closure's captured defining scope, while the arguments are
/// evaluated in the caller's scope (the binding walk's evaluation scope).
pub proof fn lemma_apply_uses_captured_scope(
    s: SpecScope,
    c: SpecClosure,
    items: Seq<SpecVal>,
    env: int,
    fuel: nat,
)
    requires
        fuel >= 1,
        items.len() - 1 <= c.params.len(),
    ensures
        spec_apply_closure(s, c, items, env, fuel) == spec_bind_args(
            scope_push_env(s, c.env),
            c,
            items,
            1,
            s.envs.len() as int,
            env,
            fuel,
        ),
{
}

/// Replacing a cell's content and then reading the cell — through any copy
/// of the handle — yields the new content: mutation is visible to every
/// holder of the same cell.
pub proof fn lemma_reset_then_deref(
    s: SpecScope,
    op1: SpecVal,
    op2: SpecVal,
    i: int,
    nv: SpecVal,
    env: int,
    fuel: nat,
)
    requires
        0 <= i < s.atoms.len(),
        !(nv is Error),
        !(nv is List),
        !(nv is Unit),
        fuel >= 2,
    ensures
        ({
            let (s2, r) = spec_apply_reset(s, seq![op1, SpecVal::Atom(i), nv], env, fuel);
            r == nv && s2.atoms[i] == nv && spec_apply_deref(
                s2,
                seq![op2, SpecVal::Atom(i)],
                env,
                fuel,
            ) == (s2, nv)
        }),
{
    let items = seq![op1, SpecVal::Atom(i), nv];
    assert(spec_eval(s, items[1], env, (fuel - 1) as nat) == (s, SpecVal::Atom(i)));
    assert(spec_eval(s, items[2], env, (fuel - 1) as nat) == (s, nv));
    let s2 = scope_write_atom(s, i, nv);
    assert(s2.atoms[i] == nv);
}

/// The file-read exchange: with the host's outcome recorded for a path,
/// slurp yields the file's text or the host's own failure message; for a
/// path not yet read it records a request for the host and reports the
/// file as not read yet, changing nothing else.
pub proof fn lemma_slurp_exchange(s: SpecScope, op: SpecVal, path: Seq<char>, env: int, fuel: nat)
    requires
        fuel >= 2,
    ensures
        ({
            let (s1, r) = spec_apply_slurp(s, seq![op, SpecVal::Str(path)], env, fuel);
            match crate::env::file_lookup(s.files, path) {
                Some(crate::env::SpecFileRead::Content(text)) => s1 == s && r == SpecVal::Str(
                    text,
                ),
                Some(crate::env::SpecFileRead::Failure(m)) => s1 == s && r == SpecVal::Error(m),
                None => s1 == crate::semantics::scope_request_file(s, path) && r == SpecVal::Error(
                    "slurp: file not read yet"@,
                ),
            }
        }),
{
}

/// A fold whose accumulator is an error value stays an error value.
proof fn lemma_fold_error(op: Builtin, acc: SpecVal, args: Seq<SpecVal>, i: int)
    requires
        acc is Error,
    ensures
        spec_fold(op, acc, args, i) is Error,
    decreases args.len() - i,
{
    if 0 <= i < args.len() {
        lemma_fold_error(op, spec_binop(op, acc, args[i]), args, i + 1);
    }
}

/// A fold that still has to consume a non-numeric argument ends in an error
/// value.
proof fn lemma_fold_poison(op: Builtin, acc: SpecVal, args: Seq<SpecVal>, i: int, k: int)
    requires
        0 <= i <= k < args.len(),
        !(args[k] is Int),
    ensures
        spec_fold(op, acc, args, i) is Error,
    decreases args.len() - i,
{
    if 0 <= i < args.len() {
        let next = spec_binop(op, acc, args[i]);
        if i == k {
            assert(next is Error);
            lemma_fold_error(op, next, args, i + 1);
        } else {
            lemma_fold_poison(op, next, args, i + 1, k);
        }
    }
}

/// With at least two arguments, any non-numeric argument value makes an
/// arithmetic operator yield an error value: one bad operand poisons the
/// whole fold, which never becomes a host failure.
pub proof fn lemma_math_poison(op: Builtin, args: Seq<SpecVal>, k: int)
    requires
        args.len() >= 2,
        0 <= k < args.len(),
        !(args[k] is Int),
    ensures
        spec_math(op, args) is Error,
{
    if k == 0 {
        if args[0] is Error {
            lemma_fold_error(op, args[0], args, 1);
        } else {
            assert(spec_binop(op, args[0], args[1]) is Error);
            lemma_fold_error(op, spec_binop(op, args[0], args[1]), args, 2);
        }
    } else {
        lemma_fold_poison(op, args[0], args, 1, k);
    }
}

/// An arithmetic operator applied to no arguments yields the distinct
/// no-arguments error.
pub proof fn lemma_math_no_args(op: Builtin)
    ensures
        spec_math(op, Seq::empty()) == SpecVal::Error("function called with no arguments"@),
{
}

/// Meta-evaluating a quoted form reproduces ordinary evaluation: with the
/// standard bindings for the two operators, wrapping a form in quote and
/// handing it to eval evaluates the form itself, in the root scope.
pub proof fn lemma_eval_quote_round_trip(
    s: SpecScope,
    etok: SpecTok,
    qtok: SpecTok,
    e: SpecVal,
    env: int,
    fuel: nat,
)
    requires
        wf_scope(s),
        0 <= env < s.envs.len(),
        etok.kind == TokenType::Symbol,
        qtok.kind == TokenType::Symbol,
        chain_get(s, env, etok.text) == Some(builtin_val(Builtin::Eval)),
        chain_get(s, env, qtok.text) == Some(builtin_val(Builtin::Quote)),
        fuel >= 3,
    ensures
        spec_eval(
            s,
            SpecVal::List(
                seq![
                    SpecVal::Unit(etok),
                    SpecVal::List(seq![SpecVal::Unit(qtok), e]),
                ],
            ),
            env,
            fuel,
        ) == spec_eval(s, e, 0, (fuel - 1) as nat),
{
    lemma_root_of_zero(s, env);
    let quoted = SpecVal::List(seq![SpecVal::Unit(qtok), e]);
    let items = seq![SpecVal::Unit(etok), quoted];
    assert(spec_eval(s, items[0], env, (fuel - 1) as nat) == (
        s,
        builtin_val(Builtin::Eval),
    ));
    let inner = seq![SpecVal::Unit(qtok), e];
    assert(spec_eval(s, inner[0], env, (fuel - 2) as nat) == (
        s,
        builtin_val(Builtin::Quote),
    ));
    assert(spec_apply(s, SpecFn::Builtin(Builtin::Quote), inner, env, (fuel - 1) as nat) == (
        s,
        e,
    ));
    assert(spec_eval_list(s, inner, env, (fuel - 1) as nat) == (s, e));
    assert(spec_eval(s, items[1], env, (fuel - 1) as nat) == (s, e));
    assert(spec_apply_eval(s, items, env, fuel) == spec_eval(s, e, 0, (fuel - 1) as nat));
    assert(spec_apply(s, SpecFn::Builtin(Builtin::Eval), items, env, fuel) == spec_eval(
        s,
        e,
        0,
        (fuel - 1) as nat,
    ));
    assert(spec_eval_list(s, items, env, fuel) == spec_eval(s, e, 0, (fuel - 1) as nat));
}

} // verus!
