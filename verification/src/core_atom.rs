//! The mutable-cell operations: allocation, test, read, replace, and
//! read-modify-write.  A cell is shared by identifier: every holder of the
//! same identifier observes each mutation.
use vstd::prelude::*;

use crate::ast::{lemma_wf_vals, lemma_wf_vals_grow, wf_val, wf_vals, FnVal, LispValue, List};
use crate::env::{wf_scope, Scope};
use crate::eval::{apply_fn, eval_ast};
use crate::semantics::{
    scope_push_atom, scope_write_atom, spec_apply_atom, spec_apply_deref, spec_apply_is_atom,
    spec_apply_reset, spec_apply_swap,
};

verus! {

/// Allocate a fresh cell holding the evaluated argument; boxing an error
/// value fails.
pub fn apply_atom(list: &List, scope: &mut Scope, env: usize, fuel: u64) -> (r: LispValue)
    requires
        wf_scope(old(scope)@),
        wf_vals(list@, old(scope)@.envs.len() as int, old(scope)@.atoms.len() as int),
        env < old(scope)@.envs.len(),
    ensures
        wf_scope(final(scope)@),
        old(scope)@.envs.len() <= final(scope)@.envs.len(),
        old(scope)@.atoms.len() <= final(scope)@.atoms.len(),
        wf_val(r@, final(scope)@.envs.len() as int, final(scope)@.atoms.len() as int),
        (final(scope)@, r@) == spec_apply_atom(old(scope)@, list@, env as int, fuel as nat),
    decreases fuel, 1int, 0int,
{
    if fuel == 0 {
        return LispValue::Error("evaluation depth exceeded".to_owned());
    }
    if list.len() != 2 {
        return LispValue::Error("atom takes exactly 1 argument".to_owned());
    }
    proof {
        lemma_wf_vals(list@, old(scope)@.envs.len() as int, old(scope)@.atoms.len() as int);
    }
    let res = eval_ast(list.get(1), scope, env, fuel - 1);
    match res {
        LispValue::Error(_) => LispValue::Error("cannot box error value".to_owned()),
        _ => {
            let ghost s_mid = scope@;
            let id = scope.alloc_atom(res);
            proof {
                assert(scope@ =~~= scope_push_atom(
                    s_mid,
                    crate::semantics::spec_eval(
                        old(scope)@,
                        list@[1],
                        env as int,
                        (fuel - 1) as nat,
                    ).1,
                ));
            }
            LispValue::Atom(id)
        },
    }
}

/// Whether the evaluated argument is a cell.
pub fn apply_is_atom(list: &List, scope: &mut Scope, env: usize, fuel: u64) -> (r: LispValue)
    requires
        wf_scope(old(scope)@),
        wf_vals(list@, old(scope)@.envs.len() as int, old(scope)@.atoms.len() as int),
        env < old(scope)@.envs.len(),
    ensures
        wf_scope(final(scope)@),
        old(scope)@.envs.len() <= final(scope)@.envs.len(),
        old(scope)@.atoms.len() <= final(scope)@.atoms.len(),
        wf_val(r@, final(scope)@.envs.len() as int, final(scope)@.atoms.len() as int),
        (final(scope)@, r@) == spec_apply_is_atom(old(scope)@, list@, env as int, fuel as nat),
    decreases fuel, 1int, 0int,
{
    if fuel == 0 {
        return LispValue::Error("evaluation depth exceeded".to_owned());
    }
    if list.len() != 2 {
        return LispValue::Error("atom? takes exactly 1 argument".to_owned());
    }
    proof {
        lemma_wf_vals(list@, old(scope)@.envs.len() as int, old(scope)@.atoms.len() as int);
    }
    let res = eval_ast(list.get(1), scope, env, fuel - 1);
    match res {
        LispValue::Atom(_) => LispValue::Boolean(true),
        _ => LispValue::Boolean(false),
    }
}

/// A copy of the current content of the evaluated cell argument.
pub fn apply_deref(list: &List, scope: &mut Scope, env: usize, fuel: u64) -> (r: LispValue)
    requires
        wf_scope(old(scope)@),
        wf_vals(list@, old(scope)@.envs.len() as int, old(scope)@.atoms.len() as int),
        env < old(scope)@.envs.len(),
    ensures
        wf_scope(final(scope)@),
        old(scope)@.envs.len() <= final(scope)@.envs.len(),
        old(scope)@.atoms.len() <= final(scope)@.atoms.len(),
        wf_val(r@, final(scope)@.envs.len() as int, final(scope)@.atoms.len() as int),
        (final(scope)@, r@) == spec_apply_deref(old(scope)@, list@, env as int, fuel as nat),
    decreases fuel, 1int, 0int,
{
    if fuel == 0 {
        return LispValue::Error("evaluation depth exceeded".to_owned());
    }
    if list.len() != 2 {
        return LispValue::Error("deref takes exactly 1 argument".to_owned());
    }
    proof {
        lemma_wf_vals(list@, old(scope)@.envs.len() as int, old(scope)@.atoms.len() as int);
    }
    let res = eval_ast(list.get(1), scope, env, fuel - 1);
    match res {
        LispValue::Atom(id) => scope.atom_read(id),
        _ => LispValue::Error("value is not an atom".to_owned()),
    }
}

/// Replace the content of the evaluated cell argument with the second
/// evaluated argument; an error replacement aborts without mutating.
pub fn apply_reset(list: &List, scope: &mut Scope, env: usize, fuel: u64) -> (r: LispValue)
    requires
        wf_scope(old(scope)@),
        wf_vals(list@, old(scope)@.envs.len() as int, old(scope)@.atoms.len() as int),
        env < old(scope)@.envs.len(),
    ensures
        wf_scope(final(scope)@),
        old(scope)@.envs.len() <= final(scope)@.envs.len(),
        old(scope)@.atoms.len() <= final(scope)@.atoms.len(),
        wf_val(r@, final(scope)@.envs.len() as int, final(scope)@.atoms.len() as int),
        (final(scope)@, r@) == spec_apply_reset(old(scope)@, list@, env as int, fuel as nat),
    decreases fuel, 1int, 0int,
{
    if fuel == 0 {
        return LispValue::Error("evaluation depth exceeded".to_owned());
    }
    if list.len() != 3 {
        return LispValue::Error("reset! takes exactly 2 arguments".to_owned());
    }
    let ghost s0 = old(scope)@;
    proof {
        lemma_wf_vals(list@, s0.envs.len() as int, s0.atoms.len() as int);
    }
    let maybe_atom = eval_ast(list.get(1), scope, env, fuel - 1);
    proof {
        lemma_wf_vals_grow(
            list@,
            s0.envs.len() as int,
            s0.atoms.len() as int,
            scope@.envs.len() as int,
            scope@.atoms.len() as int,
        );
        lemma_wf_vals(list@, scope@.envs.len() as int, scope@.atoms.len() as int);
    }
    let ghost s1 = scope@;
    let new_value = eval_ast(list.get(2), scope, env, fuel - 1);
    match maybe_atom {
        LispValue::Atom(id) => {
            match new_value {
                LispValue::Error(m) => LispValue::Error(m),
                _ => {
                    let ghost s2 = scope@;
                    let ret = new_value.duplicate();
                    scope.atom_write(id, new_value);
                    proof {
                        assert(scope@ =~~= scope_write_atom(s2, id as int, ret@));
                    }
                    ret
                },
            }
        },
        _ => LispValue::Error("first argument to reset should be an atom".to_owned()),
    }
}

/// Read-modify-write: apply the evaluated function argument to a synthetic
/// call list holding the cell's current content; an error result aborts
/// without mutating.
pub fn apply_swap(list: &List, scope: &mut Scope, env: usize, fuel: u64) -> (r: LispValue)
    requires
        wf_scope(old(scope)@),
        wf_vals(list@, old(scope)@.envs.len() as int, old(scope)@.atoms.len() as int),
        env < old(scope)@.envs.len(),
    ensures
        wf_scope(final(scope)@),
        old(scope)@.envs.len() <= final(scope)@.envs.len(),
        old(scope)@.atoms.len() <= final(scope)@.atoms.len(),
        wf_val(r@, final(scope)@.envs.len() as int, final(scope)@.atoms.len() as int),
        (final(scope)@, r@) == spec_apply_swap(old(scope)@, list@, env as int, fuel as nat),
    decreases fuel, 1int, 0int,
{
    if fuel == 0 {
        return LispValue::Error("evaluation depth exceeded".to_owned());
    }
    if list.len() != 3 {
        return LispValue::Error("swap! takes exactly 2 arguments".to_owned());
    }
    let ghost s0 = old(scope)@;
    proof {
        lemma_wf_vals(list@, s0.envs.len() as int, s0.atoms.len() as int);
    }
    let maybe_atom = eval_ast(list.get(1), scope, env, fuel - 1);
    proof {
        lemma_wf_vals_grow(
            list@,
            s0.envs.len() as int,
            s0.atoms.len() as int,
            scope@.envs.len() as int,
            scope@.atoms.len() as int,
        );
        lemma_wf_vals(list@, scope@.envs.len() as int, scope@.atoms.len() as int);
    }
    let maybe_f = eval_ast(list.get(2), scope, env, fuel - 1);
    match maybe_atom {
        LispValue::Atom(id) => {
            match maybe_f {
                LispValue::Function(f) => {
                    let cur = scope.atom_read(id);
                    let mut input_list = List::new();
                    input_list.push(LispValue::Nil);
                    input_list.push(cur);
                    proof {
                        assert(input_list@ =~= seq![
                            crate::ast::SpecVal::Nil,
                            scope@.atoms[id as int],
                        ]);
                        assert(wf_vals(
                            input_list@,
                            scope@.envs.len() as int,
                            scope@.atoms.len() as int,
                        )) by {
                            crate::ast::lemma_wf_vals(
                                input_list@,
                                scope@.envs.len() as int,
                                scope@.atoms.len() as int,
                            );
                        }
                    }
                    let new_value = apply_fn(&f, &input_list, scope, env, fuel - 1);
                    match new_value {
                        LispValue::Error(m) => LispValue::Error(m),
                        _ => {
                            let ghost s3 = scope@;
                            let ret = new_value.duplicate();
                            scope.atom_write(id, new_value);
                            proof {
                                assert(scope@ =~~= scope_write_atom(s3, id as int, ret@));
                            }
                            ret
                        },
                    }
                },
                _ => LispValue::Error("second argument to swap must be a function".to_owned()),
            }
        },
        _ => LispValue::Error("first argument to swap should be an atom".to_owned()),
    }
}

} // verus!
