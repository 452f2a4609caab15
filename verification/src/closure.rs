//! User-defined functions: creation of closures and their application.
//!
//! A closure captures its parameter tokens, its unevaluated body and the
//! scope it was defined in.  Application builds a fresh scope off that
//! defining scope (lexical scoping), evaluates each call-site argument in
//! the caller's scope, binds them positionally, and evaluates the body in
//! the fresh scope.  A call with more arguments than parameters is rejected
//! with an error value; missing arguments leave their parameters unbound.
use vstd::prelude::*;

use crate::ast::{
    closure_view, lemma_wf_vals, lemma_wf_vals_grow, wf_fn, wf_val, wf_vals, Closure, FnVal,
    LispValue, List, SpecClosure, SpecFn,
};
use crate::env::{wf_scope, Scope};
use crate::eval::eval_ast;
use crate::semantics::{scope_push_env, spec_apply_closure, spec_bind_args, spec_eval};
use crate::tokenizer::Token;

verus! {

/// Package parameter tokens, an unevaluated body and the defining scope as
/// a callable value.
pub fn create_closure(tokens: Vec<Token>, expr: LispValue, env: usize) -> (r: FnVal)
    ensures
        r@ == SpecFn::Closure(closure_view(Closure { params: tokens, body: Box::new(expr), env })),
{
    FnVal::Closure(Closure { params: tokens, body: Box::new(expr), env })
}

/// Apply a closure to the full unevaluated call list.
pub fn apply_closure(c: &Closure, list: &List, scope: &mut Scope, env: usize, fuel: u64) -> (r:
    LispValue)
    requires
        wf_scope(old(scope)@),
        wf_fn(
            SpecFn::Closure(closure_view(*c)),
            old(scope)@.envs.len() as int,
            old(scope)@.atoms.len() as int,
        ),
        wf_vals(list@, old(scope)@.envs.len() as int, old(scope)@.atoms.len() as int),
        env < old(scope)@.envs.len(),
    ensures
        wf_scope(final(scope)@),
        old(scope)@.envs.len() <= final(scope)@.envs.len(),
        old(scope)@.atoms.len() <= final(scope)@.atoms.len(),
        wf_val(r@, final(scope)@.envs.len() as int, final(scope)@.atoms.len() as int),
        (final(scope)@, r@) == spec_apply_closure(
            old(scope)@,
            closure_view(*c),
            list@,
            env as int,
            fuel as nat,
        ),
    decreases fuel, 2int, 0int,
{
    if fuel == 0 {
        return LispValue::Error("evaluation depth exceeded".to_owned());
    }
    let ghost s0 = old(scope)@;
    let ghost cv = closure_view(*c);
    let n = list.len();
    if n >= 1 && n - 1 > c.params.len() {
        return LispValue::Error("function called with too many arguments".to_owned());
    }
    let child = scope.new_scope(c.env);
    proof {
        lemma_wf_vals_grow(
            list@,
            s0.envs.len() as int,
            s0.atoms.len() as int,
            scope@.envs.len() as int,
            scope@.atoms.len() as int,
        );
        crate::ast::lemma_wf_fn_grow(
            SpecFn::Closure(cv),
            s0.envs.len() as int,
            s0.atoms.len() as int,
            scope@.envs.len() as int,
            scope@.atoms.len() as int,
        );
        assert(scope@ =~~= scope_push_env(s0, c.env as int));
    }
    let mut i: usize = 1;
    while i < n
        invariant
            s0 == old(scope)@,
            wf_scope(scope@),
            wf_fn(SpecFn::Closure(cv), scope@.envs.len() as int, scope@.atoms.len() as int),
            wf_vals(list@, scope@.envs.len() as int, scope@.atoms.len() as int),
            n == list@.len(),
            1 <= i,
            i <= n || n == 0,
            n >= 1 ==> n - 1 <= c.params@.len(),
            cv == closure_view(*c),
            c.params@.len() == cv.params.len(),
            env < scope@.envs.len(),
            child < scope@.envs.len(),
            s0.envs.len() <= scope@.envs.len(),
            s0.atoms.len() <= scope@.atoms.len(),
            fuel >= 1,
            spec_apply_closure(s0, cv, list@, env as int, fuel as nat) == spec_bind_args(
                scope@,
                cv,
                list@,
                i as int,
                child as int,
                env as int,
                fuel as nat,
            ),
        decreases n - i,
    {
        proof {
            lemma_wf_vals(list@, scope@.envs.len() as int, scope@.atoms.len() as int);
        }
        let ghost s_before = scope@;
        let v = eval_ast(list.get(i), scope, env, fuel - 1);
        let ghost s_mid = scope@;
        proof {
            lemma_wf_vals_grow(
                list@,
                s_before.envs.len() as int,
                s_before.atoms.len() as int,
                s_mid.envs.len() as int,
                s_mid.atoms.len() as int,
            );
            crate::ast::lemma_wf_fn_grow(
                SpecFn::Closure(cv),
                s_before.envs.len() as int,
                s_before.atoms.len() as int,
                s_mid.envs.len() as int,
                s_mid.atoms.len() as int,
            );
            assert(cv.params[i - 1] == c.params@[i - 1]@);
        }
        let key = c.params[i - 1].get_text().clone();
        scope.set(child, key, v);
        proof {
            assert(scope@ =~~= crate::semantics::scope_set(
                s_mid,
                child as int,
                cv.params[i - 1].text,
                v@,
            ));
            assert(spec_bind_args(
                s_before,
                cv,
                list@,
                i as int,
                child as int,
                env as int,
                fuel as nat,
            ) == spec_bind_args(
                scope@,
                cv,
                list@,
                i + 1,
                child as int,
                env as int,
                fuel as nat,
            ));
        }
        i += 1;
    }
    proof {
        lemma_wf_vals(list@, scope@.envs.len() as int, scope@.atoms.len() as int);
        assert(*cv.body == crate::ast::view_of(*c.body));
    }
    eval_ast(&c.body, scope, child, fuel - 1)
}

} // verus!
