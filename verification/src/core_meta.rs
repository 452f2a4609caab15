//! Quoting and macro binding.
use vstd::prelude::*;

use crate::ast::{lemma_wf_vals, wf_val, wf_vals, FnVal, LispValue, List};
use crate::env::{wf_scope, Scope};
use crate::eval::eval_ast;
use crate::semantics::{scope_set, spec_apply, spec_apply_macro};

verus! {

/// Return the single argument unevaluated, verbatim.
pub fn apply_quote(list: &List, scope: &mut Scope, env: usize, fuel: u64) -> (r: LispValue)
    requires
        wf_scope(old(scope)@),
        wf_vals(list@, old(scope)@.envs.len() as int, old(scope)@.atoms.len() as int),
        env < old(scope)@.envs.len(),
    ensures
        wf_scope(final(scope)@),
        final(scope)@ == old(scope)@,
        wf_val(r@, final(scope)@.envs.len() as int, final(scope)@.atoms.len() as int),
        r@ == (if list@.len() != 2 {
            crate::ast::SpecVal::Error("quoting is only supported for a single argument"@)
        } else {
            list@[1]
        }),
    decreases fuel, 1int, 0int,
{
    proof {
        lemma_wf_vals(list@, old(scope)@.envs.len() as int, old(scope)@.atoms.len() as int);
    }
    if list.len() != 2 {
        LispValue::Error("quoting is only supported for a single argument".to_owned())
    } else {
        list.get(1).duplicate()
    }
}

/// Bind a symbol to a macro-tagged function value.
pub fn apply_macro(list: &List, scope: &mut Scope, env: usize, fuel: u64) -> (r: LispValue)
    requires
        wf_scope(old(scope)@),
        wf_vals(list@, old(scope)@.envs.len() as int, old(scope)@.atoms.len() as int),
        env < old(scope)@.envs.len(),
    ensures
        wf_scope(final(scope)@),
        old(scope)@.envs.len() <= final(scope)@.envs.len(),
        old(scope)@.atoms.len() <= final(scope)@.atoms.len(),
        wf_val(r@, final(scope)@.envs.len() as int, final(scope)@.atoms.len() as int),
        (final(scope)@, r@) == spec_apply_macro(old(scope)@, list@, env as int, fuel as nat),
    decreases fuel, 1int, 0int,
{
    if fuel == 0 {
        return LispValue::Error("evaluation depth exceeded".to_owned());
    }
    if list.len() != 3 {
        return LispValue::Error("macro! takes exactly 2 arguments".to_owned());
    }
    proof {
        lemma_wf_vals(list@, old(scope)@.envs.len() as int, old(scope)@.atoms.len() as int);
    }
    match list.get(1) {
        LispValue::Unit(u) => {
            let value = eval_ast(list.get(2), scope, env, fuel - 1);
            match value {
                LispValue::Function(f) => {
                    let ghost s_mid = scope@;
                    let key = u.token().get_text().clone();
                    let dup = f.duplicate();
                    scope.set(env, key, LispValue::Macro(f));
                    proof {
                        assert(scope@ =~~= scope_set(
                            s_mid,
                            env as int,
                            u@.text,
                            crate::ast::SpecVal::Macro(dup@),
                        ));
                    }
                    LispValue::Macro(dup)
                },
                _ => LispValue::Error(
                    "the second argument to macro! must be a function".to_owned(),
                ),
            }
        },
        _ => LispValue::Error("first argument to macro! must be a symbol".to_owned()),
    }
}

} // verus!
