//! Dispatch of a built-in operation to its handler.
use vstd::prelude::*;

use crate::ast::{wf_val, wf_vals, Builtin, LispValue, List, SpecFn};
use crate::env::{wf_scope, Scope};
use crate::semantics::spec_apply;

verus! {

/// Apply a built-in operation to the full unevaluated call list.
pub fn apply_builtin(b: Builtin, list: &List, scope: &mut Scope, env: usize, fuel: u64) -> (r:
    LispValue)
    requires
        wf_scope(old(scope)@),
        wf_vals(list@, old(scope)@.envs.len() as int, old(scope)@.atoms.len() as int),
        env < old(scope)@.envs.len(),
    ensures
        wf_scope(final(scope)@),
        old(scope)@.envs.len() <= final(scope)@.envs.len(),
        old(scope)@.atoms.len() <= final(scope)@.atoms.len(),
        wf_val(r@, final(scope)@.envs.len() as int, final(scope)@.atoms.len() as int),
        (final(scope)@, r@) == spec_apply(
            old(scope)@,
            SpecFn::Builtin(b),
            list@,
            env as int,
            fuel as nat,
        ),
    decreases fuel, 2int, 0int,
{
    if fuel == 0 {
        return LispValue::Error("evaluation depth exceeded".to_owned());
    }
    match b {
        Builtin::Add => crate::math::add(list, scope, env, fuel),
        Builtin::Sub => crate::math::sub(list, scope, env, fuel),
        Builtin::Mul => crate::math::mul(list, scope, env, fuel),
        Builtin::Div => crate::math::div(list, scope, env, fuel),
        Builtin::Do => crate::core_recursive::apply_do(list, scope, env, fuel),
        Builtin::Let => crate::core_recursive::apply_let(list, scope, env, fuel),
        Builtin::If => crate::core_recursive::apply_if(list, scope, env, fuel),
        Builtin::Lambda => crate::core_recursive::create_func(list, scope, env, fuel),
        Builtin::Def => crate::core_recursive::apply_def(list, scope, env, fuel),
        Builtin::Equals => crate::core_comparison::apply_equals(list, scope, env, fuel),
        Builtin::Greater => crate::core_comparison::apply_greater_than(list, scope, env, fuel),
        Builtin::Less => crate::core_comparison::apply_less_than(list, scope, env, fuel),
        Builtin::GreaterEquals => crate::core_comparison::apply_greater_than_equals(
            list,
            scope,
            env,
            fuel,
        ),
        Builtin::LessEquals => crate::core_comparison::apply_less_than_equals(
            list,
            scope,
            env,
            fuel,
        ),
        Builtin::Slurp => crate::core_file::apply_slurp(list, scope, env, fuel),
        Builtin::MakeList => crate::core_utils::apply_list(list, scope, env, fuel),
        Builtin::Eval => crate::core_utils::apply_eval(list, scope, env, fuel),
        Builtin::StrJoin => crate::core_utils::apply_str(list, scope, env, fuel),
        Builtin::ReadString => crate::core_utils::apply_read_string(list, scope, env, fuel),
        Builtin::Prn => crate::core_utils::apply_prn(list, scope, env, fuel),
        Builtin::Quote => crate::core_meta::apply_quote(list, scope, env, fuel),
        Builtin::AtomNew => crate::core_atom::apply_atom(list, scope, env, fuel),
        Builtin::AtomCheck => crate::core_atom::apply_is_atom(list, scope, env, fuel),
        Builtin::Deref => crate::core_atom::apply_deref(list, scope, env, fuel),
        Builtin::Reset => crate::core_atom::apply_reset(list, scope, env, fuel),
        Builtin::Swap => crate::core_atom::apply_swap(list, scope, env, fuel),
        Builtin::MacroBind => crate::core_meta::apply_macro(list, scope, env, fuel),
        Builtin::Cons => crate::core_list::apply_cons(list, scope, env, fuel),
        Builtin::Concat => crate::core_list::apply_concat(list, scope, env, fuel),
    }
}

} // verus!
