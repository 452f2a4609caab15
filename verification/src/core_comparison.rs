//! The comparison operators: structural equality and the numeric orderings.
use vstd::prelude::*;

use crate::ast::{lemma_wf_vals, lemma_wf_vals_grow, wf_val, wf_vals, Builtin, LispValue, List};
use crate::env::{wf_scope, Scope};
use crate::eval::eval_ast;
use crate::semantics::{
    compare_arity_message, spec_apply_compare, spec_apply_equals, spec_compare, spec_equal_vals,
};

verus! {

/// Structural equality of two values of the same simple type.
fn equal_vals(l: &LispValue, r: &LispValue) -> (b: bool)
    ensures
        b == spec_equal_vals(l@, r@),
{
    match l {
        LispValue::Int(x) => match r {
            LispValue::Int(y) => *x == *y,
            _ => false,
        },
        LispValue::Boolean(x) => match r {
            LispValue::Boolean(y) => *x == *y,
            _ => false,
        },
        LispValue::Str(x) => match r {
            LispValue::Str(y) => *x == *y,
            _ => false,
        },
        _ => false,
    }
}

/// Equality of two evaluated operands: like-typed simple operands compare
/// structurally; any type mismatch is false; an error left operand is
/// forwarded.
pub fn apply_equals(list: &List, scope: &mut Scope, env: usize, fuel: u64) -> (r: LispValue)
    requires
        wf_scope(old(scope)@),
        wf_vals(list@, old(scope)@.envs.len() as int, old(scope)@.atoms.len() as int),
        env < old(scope)@.envs.len(),
    ensures
        wf_scope(final(scope)@),
        old(scope)@.envs.len() <= final(scope)@.envs.len(),
        old(scope)@.atoms.len() <= final(scope)@.atoms.len(),
        wf_val(r@, final(scope)@.envs.len() as int, final(scope)@.atoms.len() as int),
        (final(scope)@, r@) == spec_apply_equals(old(scope)@, list@, env as int, fuel as nat),
    decreases fuel, 1int, 0int,
{
    if fuel == 0 {
        return LispValue::Error("evaluation depth exceeded".to_owned());
    }
    if list.len() != 3 {
        return LispValue::Error("equals needs two comparisons".to_owned());
    }
    let ghost s0 = old(scope)@;
    proof {
        lemma_wf_vals(list@, s0.envs.len() as int, s0.atoms.len() as int);
    }
    let l = eval_ast(list.get(1), scope, env, fuel - 1);
    proof {
        lemma_wf_vals_grow(
            list@,
            s0.envs.len() as int,
            s0.atoms.len() as int,
            scope@.envs.len() as int,
            scope@.atoms.len() as int,
        );
        lemma_wf_vals(list@, scope@.envs.len() as int, scope@.atoms.len() as int);
    }
    let r = eval_ast(list.get(2), scope, env, fuel - 1);
    match l {
        LispValue::Error(m) => LispValue::Error(m),
        _ => LispValue::Boolean(equal_vals(&l, &r)),
    }
}

/// The shared body of the four ordering operators.
fn apply_compare(op: Builtin, list: &List, scope: &mut Scope, env: usize, fuel: u64) -> (r:
    LispValue)
    requires
        wf_scope(old(scope)@),
        wf_vals(list@, old(scope)@.envs.len() as int, old(scope)@.atoms.len() as int),
        env < old(scope)@.envs.len(),
        op == Builtin::Greater || op == Builtin::Less || op == Builtin::GreaterEquals || op
            == Builtin::LessEquals,
    ensures
        wf_scope(final(scope)@),
        old(scope)@.envs.len() <= final(scope)@.envs.len(),
        old(scope)@.atoms.len() <= final(scope)@.atoms.len(),
        wf_val(r@, final(scope)@.envs.len() as int, final(scope)@.atoms.len() as int),
        (final(scope)@, r@) == spec_apply_compare(old(scope)@, op, list@, env as int, fuel as nat),
    decreases fuel, 1int, 0int,
{
    if fuel == 0 {
        return LispValue::Error("evaluation depth exceeded".to_owned());
    }
    if list.len() != 3 {
        let msg = if op == Builtin::Greater {
            "> works with exactly two items to compare"
        } else if op == Builtin::Less {
            "< works with exactly two items to compare"
        } else if op == Builtin::GreaterEquals {
            ">= works with exactly two items to compare"
        } else {
            "<= works with exactly two items to compare"
        };
        proof {
            assert(msg@ == compare_arity_message(op));
        }
        return LispValue::Error(msg.to_owned());
    }
    let ghost s0 = old(scope)@;
    proof {
        lemma_wf_vals(list@, s0.envs.len() as int, s0.atoms.len() as int);
    }
    let l = eval_ast(list.get(1), scope, env, fuel - 1);
    proof {
        lemma_wf_vals_grow(
            list@,
            s0.envs.len() as int,
            s0.atoms.len() as int,
            scope@.envs.len() as int,
            scope@.atoms.len() as int,
        );
        lemma_wf_vals(list@, scope@.envs.len() as int, scope@.atoms.len() as int);
    }
    let r = eval_ast(list.get(2), scope, env, fuel - 1);
    match l {
        LispValue::Error(m) => LispValue::Error(m),
        LispValue::Int(x) => match r {
            LispValue::Int(y) => {
                let b = if op == Builtin::Greater {
                    x > y
                } else if op == Builtin::Less {
                    x < y
                } else if op == Builtin::GreaterEquals {
                    x >= y
                } else {
                    x <= y
                };
                LispValue::Boolean(b)
            },
            _ => LispValue::Boolean(false),
        },
        _ => LispValue::Boolean(false),
    }
}

/// Numeric greater-than.
pub fn apply_greater_than(list: &List, scope: &mut Scope, env: usize, fuel: u64) -> (r: LispValue)
    requires
        wf_scope(old(scope)@),
        wf_vals(list@, old(scope)@.envs.len() as int, old(scope)@.atoms.len() as int),
        env < old(scope)@.envs.len(),
    ensures
        wf_scope(final(scope)@),
        old(scope)@.envs.len() <= final(scope)@.envs.len(),
        old(scope)@.atoms.len() <= final(scope)@.atoms.len(),
        wf_val(r@, final(scope)@.envs.len() as int, final(scope)@.atoms.len() as int),
        (final(scope)@, r@) == spec_apply_compare(
            old(scope)@,
            Builtin::Greater,
            list@,
            env as int,
            fuel as nat,
        ),
    decreases fuel, 1int, 1int,
{
    apply_compare(Builtin::Greater, list, scope, env, fuel)
}

/// Numeric less-than.
pub fn apply_less_than(list: &List, scope: &mut Scope, env: usize, fuel: u64) -> (r: LispValue)
    requires
        wf_scope(old(scope)@),
        wf_vals(list@, old(scope)@.envs.len() as int, old(scope)@.atoms.len() as int),
        env < old(scope)@.envs.len(),
    ensures
        wf_scope(final(scope)@),
        old(scope)@.envs.len() <= final(scope)@.envs.len(),
        old(scope)@.atoms.len() <= final(scope)@.atoms.len(),
        wf_val(r@, final(scope)@.envs.len() as int, final(scope)@.atoms.len() as int),
        (final(scope)@, r@) == spec_apply_compare(
            old(scope)@,
            Builtin::Less,
            list@,
            env as int,
            fuel as nat,
        ),
    decreases fuel, 1int, 1int,
{
    apply_compare(Builtin::Less, list, scope, env, fuel)
}

/// Numeric greater-or-equal.
pub fn apply_greater_than_equals(list: &List, scope: &mut Scope, env: usize, fuel: u64) -> (r:
    LispValue)
    requires
        wf_scope(old(scope)@),
        wf_vals(list@, old(scope)@.envs.len() as int, old(scope)@.atoms.len() as int),
        env < old(scope)@.envs.len(),
    ensures
        wf_scope(final(scope)@),
        old(scope)@.envs.len() <= final(scope)@.envs.len(),
        old(scope)@.atoms.len() <= final(scope)@.atoms.len(),
        wf_val(r@, final(scope)@.envs.len() as int, final(scope)@.atoms.len() as int),
        (final(scope)@, r@) == spec_apply_compare(
            old(scope)@,
            Builtin::GreaterEquals,
            list@,
            env as int,
            fuel as nat,
        ),
    decreases fuel, 1int, 1int,
{
    apply_compare(Builtin::GreaterEquals, list, scope, env, fuel)
}

/// Numeric less-or-equal.
pub fn apply_less_than_equals(list: &List, scope: &mut Scope, env: usize, fuel: u64) -> (r:
    LispValue)
    requires
        wf_scope(old(scope)@),
        wf_vals(list@, old(scope)@.envs.len() as int, old(scope)@.atoms.len() as int),
        env < old(scope)@.envs.len(),
    ensures
        wf_scope(final(scope)@),
        old(scope)@.envs.len() <= final(scope)@.envs.len(),
        old(scope)@.atoms.len() <= final(scope)@.atoms.len(),
        wf_val(r@, final(scope)@.envs.len() as int, final(scope)@.atoms.len() as int),
        (final(scope)@, r@) == spec_apply_compare(
            old(scope)@,
            Builtin::LessEquals,
            list@,
            env as int,
            fuel as nat,
        ),
    decreases fuel, 1int, 1int,
{
    apply_compare(Builtin::LessEquals, list, scope, env, fuel)
}

} // verus!
