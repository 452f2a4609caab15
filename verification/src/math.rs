//! The variadic arithmetic operators: each evaluates its arguments left to
//! right and left-folds a pairwise numeric step over them.
//!
//! An error operand poisons the remainder of the fold rather than
//! short-circuiting it; overflow and division by zero become error values.
use vstd::prelude::*;

use crate::ast::{
    lemma_wf_vals, lemma_wf_vals_grow, lemma_views_of, views_of, wf_val, wf_vals, Builtin,
    LispValue, List, SpecVal,
};
use crate::env::{wf_scope, Scope};
use crate::eval::eval_ast;
use crate::semantics::{spec_apply_op, spec_binop, spec_eval_args, spec_fold, spec_math};

verus! {

/// One pairwise numeric step.
fn op_step(op: Builtin, a: LispValue, b: LispValue) -> (r: LispValue)
    ensures
        r@ == spec_binop(op, a@, b@),
        r@ is Int || r@ is Error,
{
    match a {
        LispValue::Error(m) => LispValue::Error(m),
        LispValue::Int(x) => match b {
            LispValue::Error(m) => LispValue::Error(m),
            LispValue::Int(y) => {
                if op == Builtin::Add {
                    match x.checked_add(y) {
                        Some(z) => LispValue::Int(z),
                        None => LispValue::Error("integer overflow".to_owned()),
                    }
                } else if op == Builtin::Sub {
                    match x.checked_sub(y) {
                        Some(z) => LispValue::Int(z),
                        None => LispValue::Error("integer overflow".to_owned()),
                    }
                } else if op == Builtin::Mul {
                    match x.checked_mul(y) {
                        Some(z) => LispValue::Int(z),
                        None => LispValue::Error("integer overflow".to_owned()),
                    }
                } else {
                    if y == 0 {
                        LispValue::Error("division by zero".to_owned())
                    } else {
                        match x.checked_div(y) {
                            Some(z) => LispValue::Int(z),
                            None => LispValue::Error("integer overflow".to_owned()),
                        }
                    }
                }
            },
            _ => LispValue::Error("incompatible types".to_owned()),
        },
        _ => LispValue::Error("incompatible types".to_owned()),
    }
}

fn add_helper(a: LispValue, b: LispValue) -> (r: LispValue)
    ensures
        r@ == spec_binop(Builtin::Add, a@, b@),
{
    op_step(Builtin::Add, a, b)
}

fn sub_helper(a: LispValue, b: LispValue) -> (r: LispValue)
    ensures
        r@ == spec_binop(Builtin::Sub, a@, b@),
{
    op_step(Builtin::Sub, a, b)
}

fn mul_helper(a: LispValue, b: LispValue) -> (r: LispValue)
    ensures
        r@ == spec_binop(Builtin::Mul, a@, b@),
{
    op_step(Builtin::Mul, a, b)
}

fn div_helper(a: LispValue, b: LispValue) -> (r: LispValue)
    ensures
        r@ == spec_binop(Builtin::Div, a@, b@),
{
    op_step(Builtin::Div, a, b)
}

/// The shared body of the four operators: evaluate, then fold.
fn apply_op(op: Builtin, args: &List, scope: &mut Scope, env: usize, fuel: u64) -> (r: LispValue)
    requires
        wf_scope(old(scope)@),
        wf_vals(args@, old(scope)@.envs.len() as int, old(scope)@.atoms.len() as int),
        env < old(scope)@.envs.len(),
    ensures
        wf_scope(final(scope)@),
        old(scope)@.envs.len() <= final(scope)@.envs.len(),
        old(scope)@.atoms.len() <= final(scope)@.atoms.len(),
        wf_val(r@, final(scope)@.envs.len() as int, final(scope)@.atoms.len() as int),
        (final(scope)@, r@) == spec_apply_op(old(scope)@, op, args@, env as int, fuel as nat),
    decreases fuel, 1int, 0int,
{
    if fuel == 0 {
        return LispValue::Error("evaluation depth exceeded".to_owned());
    }
    let ghost s0 = old(scope)@;
    let mut vals: Vec<LispValue> = Vec::new();
    let n = args.len();
    let mut i: usize = 1;
    proof {
        lemma_views_of(vals@);
        assert(views_of(vals@) =~= Seq::<SpecVal>::empty());
    }
    while i < n
        invariant
            s0 == old(scope)@,
            wf_scope(scope@),
            wf_vals(args@, scope@.envs.len() as int, scope@.atoms.len() as int),
            wf_vals(views_of(vals@), scope@.envs.len() as int, scope@.atoms.len() as int),
            n == args@.len(),
            1 <= i,
            i <= n || n <= 1,
            env < scope@.envs.len(),
            s0.envs.len() <= scope@.envs.len(),
            s0.atoms.len() <= scope@.atoms.len(),
            fuel >= 1,
            spec_eval_args(s0, args@, 1, Seq::empty(), env as int, fuel as nat) == spec_eval_args(
                scope@,
                args@,
                i as int,
                views_of(vals@),
                env as int,
                fuel as nat,
            ),
        decreases n - i,
    {
        proof {
            lemma_wf_vals(args@, scope@.envs.len() as int, scope@.atoms.len() as int);
        }
        let ghost s_before = scope@;
        let ghost before = views_of(vals@);
        let ghost vals_before = vals@;
        let v = eval_ast(args.get(i), scope, env, fuel - 1);
        proof {
            lemma_wf_vals_grow(
                args@,
                s_before.envs.len() as int,
                s_before.atoms.len() as int,
                scope@.envs.len() as int,
                scope@.atoms.len() as int,
            );
            lemma_wf_vals_grow(
                before,
                s_before.envs.len() as int,
                s_before.atoms.len() as int,
                scope@.envs.len() as int,
                scope@.atoms.len() as int,
            );
        }
        let ghost vv = v@;
        vals.push(v);
        proof {
            crate::ast::lemma_views_of_push(vals_before, vals@.last());
            assert(vals@ =~= vals_before.push(vals@.last()));
            assert(views_of(vals@) == before.push(vv));
            let ghost pair = crate::semantics::spec_eval(
                s_before,
                args@[i as int],
                env as int,
                ((fuel as nat) - 1) as nat,
            );
            assert(spec_eval_args(s_before, args@, i as int, before, env as int, fuel as nat)
                == spec_eval_args(
                pair.0,
                args@,
                i as int + 1,
                before.push(pair.1),
                env as int,
                fuel as nat,
            ));
            lemma_views_of(vals@);
            lemma_wf_vals(before, scope@.envs.len() as int, scope@.atoms.len() as int);
            lemma_wf_vals(views_of(vals@), scope@.envs.len() as int, scope@.atoms.len() as int);
        }
        i += 1;
    }
    let ghost argsv = views_of(vals@);
    if vals.len() == 0 {
        return LispValue::Error("function called with no arguments".to_owned());
    }
    proof {
        lemma_views_of(vals@);
        lemma_wf_vals(argsv, scope@.envs.len() as int, scope@.atoms.len() as int);
    }
    let mut total = vals[0].duplicate();
    let mut j: usize = 1;
    while j < vals.len()
        invariant
            vals@.len() >= 1,
            argsv == views_of(vals@),
            argsv.len() == vals@.len(),
            forall|k: int| 0 <= k < vals@.len() ==> argsv[k] == crate::ast::view_of(vals@[k]),
            1 <= j <= vals@.len(),
            wf_val(total@, scope@.envs.len() as int, scope@.atoms.len() as int),
            wf_vals(argsv, scope@.envs.len() as int, scope@.atoms.len() as int),
            spec_fold(op, argsv[0], argsv, 1) == spec_fold(op, total@, argsv, j as int),
        decreases vals@.len() - j,
    {
        proof {
            lemma_wf_vals(argsv, scope@.envs.len() as int, scope@.atoms.len() as int);
        }
        let b = vals[j].duplicate();
        let ghost tv = total@;
        total = op_step(op, total, b);
        proof {
            if !(total@ is Error) {
                assert(total@ is Int);
            }
        }
        j += 1;
    }
    proof {
        assert(spec_math(op, argsv) == total@);
    }
    total
}

/// Variadic addition.
pub fn add(args: &List, scope: &mut Scope, env: usize, fuel: u64) -> (r: LispValue)
    requires
        wf_scope(old(scope)@),
        wf_vals(args@, old(scope)@.envs.len() as int, old(scope)@.atoms.len() as int),
        env < old(scope)@.envs.len(),
    ensures
        wf_scope(final(scope)@),
        old(scope)@.envs.len() <= final(scope)@.envs.len(),
        old(scope)@.atoms.len() <= final(scope)@.atoms.len(),
        wf_val(r@, final(scope)@.envs.len() as int, final(scope)@.atoms.len() as int),
        (final(scope)@, r@) == spec_apply_op(
            old(scope)@,
            Builtin::Add,
            args@,
            env as int,
            fuel as nat,
        ),
    decreases fuel, 1int, 1int,
{
    apply_op(Builtin::Add, args, scope, env, fuel)
}

/// Variadic subtraction.
pub fn sub(args: &List, scope: &mut Scope, env: usize, fuel: u64) -> (r: LispValue)
    requires
        wf_scope(old(scope)@),
        wf_vals(args@, old(scope)@.envs.len() as int, old(scope)@.atoms.len() as int),
        env < old(scope)@.envs.len(),
    ensures
        wf_scope(final(scope)@),
        old(scope)@.envs.len() <= final(scope)@.envs.len(),
        old(scope)@.atoms.len() <= final(scope)@.atoms.len(),
        wf_val(r@, final(scope)@.envs.len() as int, final(scope)@.atoms.len() as int),
        (final(scope)@, r@) == spec_apply_op(
            old(scope)@,
            Builtin::Sub,
            args@,
            env as int,
            fuel as nat,
        ),
    decreases fuel, 1int, 1int,
{
    apply_op(Builtin::Sub, args, scope, env, fuel)
}

/// Variadic multiplication.
pub fn mul(args: &List, scope: &mut Scope, env: usize, fuel: u64) -> (r: LispValue)
    requires
        wf_scope(old(scope)@),
        wf_vals(args@, old(scope)@.envs.len() as int, old(scope)@.atoms.len() as int),
        env < old(scope)@.envs.len(),
    ensures
        wf_scope(final(scope)@),
        old(scope)@.envs.len() <= final(scope)@.envs.len(),
        old(scope)@.atoms.len() <= final(scope)@.atoms.len(),
        wf_val(r@, final(scope)@.envs.len() as int, final(scope)@.atoms.len() as int),
        (final(scope)@, r@) == spec_apply_op(
            old(scope)@,
            Builtin::Mul,
            args@,
            env as int,
            fuel as nat,
        ),
    decreases fuel, 1int, 1int,
{
    apply_op(Builtin::Mul, args, scope, env, fuel)
}

/// Variadic division.
pub fn div(args: &List, scope: &mut Scope, env: usize, fuel: u64) -> (r: LispValue)
    requires
        wf_scope(old(scope)@),
        wf_vals(args@, old(scope)@.envs.len() as int, old(scope)@.atoms.len() as int),
        env < old(scope)@.envs.len(),
    ensures
        wf_scope(final(scope)@),
        old(scope)@.envs.len() <= final(scope)@.envs.len(),
        old(scope)@.atoms.len() <= final(scope)@.atoms.len(),
        wf_val(r@, final(scope)@.envs.len() as int, final(scope)@.atoms.len() as int),
        (final(scope)@, r@) == spec_apply_op(
            old(scope)@,
            Builtin::Div,
            args@,
            env as int,
            fuel as nat,
        ),
    decreases fuel, 1int, 1int,
{
    apply_op(Builtin::Div, args, scope, env, fuel)
}

} // verus!
