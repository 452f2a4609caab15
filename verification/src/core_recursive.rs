//! The binding and control special forms: definition, local binding,
//! sequencing, conditional, and lambda creation.
use vstd::prelude::*;

use crate::ast::{
    lemma_views_of, lemma_wf_vals, lemma_wf_vals_grow, wf_val, wf_vals, LispValue, List, SpecVal,
};
use crate::closure::create_closure;
use crate::env::{wf_scope, Scope};
use crate::eval::eval_ast;
use crate::semantics::{
    scope_push_env, scope_set, spec_apply_def, spec_apply_do, spec_apply_if, spec_apply_let,
    spec_create_func, spec_do_walk, spec_let_walk, spec_params,
};
use crate::tokenizer::{toks_view, Token};

verus! {

/// Definition: evaluate the value expression, bind the result to the symbol
/// in the current scope (even an error value), and return it.
pub fn apply_def(list: &List, scope: &mut Scope, env: usize, fuel: u64) -> (r: LispValue)
    requires
        wf_scope(old(scope)@),
        wf_vals(list@, old(scope)@.envs.len() as int, old(scope)@.atoms.len() as int),
        env < old(scope)@.envs.len(),
    ensures
        wf_scope(final(scope)@),
        old(scope)@.envs.len() <= final(scope)@.envs.len(),
        old(scope)@.atoms.len() <= final(scope)@.atoms.len(),
        wf_val(r@, final(scope)@.envs.len() as int, final(scope)@.atoms.len() as int),
        (final(scope)@, r@) == spec_apply_def(old(scope)@, list@, env as int, fuel as nat),
    decreases fuel, 1int, 0int,
{
    if fuel == 0 {
        return LispValue::Error("evaluation depth exceeded".to_owned());
    }
    if list.len() != 3 {
        return LispValue::Error("incorrect number of args for definition".to_owned());
    }
    proof {
        lemma_wf_vals(list@, old(scope)@.envs.len() as int, old(scope)@.atoms.len() as int);
    }
    match list.get(1) {
        LispValue::Unit(u) => {
            let value = eval_ast(list.get(2), scope, env, fuel - 1);
            let ghost s_mid = scope@;
            let key = u.token().get_text().clone();
            let result = value.duplicate();
            scope.set(env, key, value);
            proof {
                assert(scope@ =~~= scope_set(s_mid, env as int, u@.text, result@));
            }
            result
        },
        _ => LispValue::Error("first argument to def! must be a symbol".to_owned()),
    }
}

/// Local binding: one fresh scope; binding pairs are walked left to right,
/// each value expression evaluated in the growing fresh scope; the body is
/// then evaluated there.  The fresh scope never leaks into the enclosing one.
pub fn apply_let(list: &List, scope: &mut Scope, env: usize, fuel: u64) -> (r: LispValue)
    requires
        wf_scope(old(scope)@),
        wf_vals(list@, old(scope)@.envs.len() as int, old(scope)@.atoms.len() as int),
        env < old(scope)@.envs.len(),
    ensures
        wf_scope(final(scope)@),
        old(scope)@.envs.len() <= final(scope)@.envs.len(),
        old(scope)@.atoms.len() <= final(scope)@.atoms.len(),
        wf_val(r@, final(scope)@.envs.len() as int, final(scope)@.atoms.len() as int),
        (final(scope)@, r@) == spec_apply_let(old(scope)@, list@, env as int, fuel as nat),
    decreases fuel, 1int, 0int,
{
    if fuel == 0 {
        return LispValue::Error("evaluation depth exceeded".to_owned());
    }
    if list.len() != 3 {
        return LispValue::Error("let* two arguments in list".to_owned());
    }
    let ghost s0 = old(scope)@;
    proof {
        lemma_wf_vals(list@, s0.envs.len() as int, s0.atoms.len() as int);
    }
    match list.get(1) {
        LispValue::List(bindings) => {
            let child = scope.new_scope(env);
            proof {
                assert(scope@ =~~= scope_push_env(s0, env as int));
                lemma_wf_vals_grow(
                    list@,
                    s0.envs.len() as int,
                    s0.atoms.len() as int,
                    scope@.envs.len() as int,
                    scope@.atoms.len() as int,
                );
            }
            let mut key = String::new();
            let n = bindings.items.len();
            proof {
                lemma_views_of(bindings.items@);
            }
            let mut i: usize = 0;
            while i < n
                invariant
                    s0 == old(scope)@,
                    wf_scope(scope@),
                    wf_vals(list@, scope@.envs.len() as int, scope@.atoms.len() as int),
                    list@.len() == 3,
                    list@[1] == SpecVal::List(bindings@),
                    n == bindings@.len(),
                    bindings@.len() == bindings.items@.len(),
                    i <= n,
                    env < scope@.envs.len(),
                    child < scope@.envs.len(),
                    s0.envs.len() <= scope@.envs.len(),
                    s0.atoms.len() <= scope@.atoms.len(),
                    fuel >= 1,
                    spec_apply_let(s0, list@, env as int, fuel as nat) == spec_let_walk(
                        scope@,
                        bindings@,
                        i as int,
                        key@,
                        child as int,
                        list@[2],
                        fuel as nat,
                    ),
                decreases n - i,
            {
                proof {
                    lemma_views_of(bindings.items@);
                    lemma_wf_vals(list@, scope@.envs.len() as int, scope@.atoms.len() as int);
                    lemma_wf_vals(bindings@, scope@.envs.len() as int, scope@.atoms.len() as int);
                }
                if i % 2 == 0 {
                    match &bindings.items[i] {
                        LispValue::Unit(u) => {
                            key = u.token().get_text().clone();
                        },
                        _ => {
                            return LispValue::Error(
                                "assignment list even argument be string symbol".to_owned(),
                            );
                        },
                    }
                } else {
                    let ghost s_before = scope@;
                    let rvalue = eval_ast(&bindings.items[i], scope, child, fuel - 1);
                    proof {
                        lemma_wf_vals_grow(
                            list@,
                            s_before.envs.len() as int,
                            s_before.atoms.len() as int,
                            scope@.envs.len() as int,
                            scope@.atoms.len() as int,
                        );
                    }
                    match rvalue {
                        LispValue::Error(m) => {
                            return LispValue::Error(m);
                        },
                        _ => {
                            let ghost s_mid = scope@;
                            scope.set(child, key.clone(), rvalue);
                            proof {
                                assert(scope@ =~~= scope_set(
                                    s_mid,
                                    child as int,
                                    key@,
                                    spec_let_walk_arg(s_before, bindings@, i as int, child as int, fuel as nat),
                                ));
                            }
                        },
                    }
                }
                i += 1;
            }
            proof {
                lemma_wf_vals(list@, scope@.envs.len() as int, scope@.atoms.len() as int);
            }
            eval_ast(list.get(2), scope, child, fuel - 1)
        },
        _ => LispValue::Error("first argument to let* must be assignment list".to_owned()),
    }
}

/// The value a binding pair's expression evaluates to.
spec fn spec_let_walk_arg(s: crate::env::SpecScope, bindings: Seq<SpecVal>, i: int, child: int, fuel: nat)
    -> SpecVal {
    crate::semantics::spec_eval(s, bindings[i], child, (fuel - 1) as nat).1
}

/// Sequencing: evaluate every remaining element in order in the same scope
/// and return the value of the last; with no elements, nil.
pub fn apply_do(list: &List, scope: &mut Scope, env: usize, fuel: u64) -> (r: LispValue)
    requires
        wf_scope(old(scope)@),
        wf_vals(list@, old(scope)@.envs.len() as int, old(scope)@.atoms.len() as int),
        env < old(scope)@.envs.len(),
    ensures
        wf_scope(final(scope)@),
        old(scope)@.envs.len() <= final(scope)@.envs.len(),
        old(scope)@.atoms.len() <= final(scope)@.atoms.len(),
        wf_val(r@, final(scope)@.envs.len() as int, final(scope)@.atoms.len() as int),
        (final(scope)@, r@) == spec_apply_do(old(scope)@, list@, env as int, fuel as nat),
    decreases fuel, 1int, 0int,
{
    if fuel == 0 {
        return LispValue::Error("evaluation depth exceeded".to_owned());
    }
    let ghost s0 = old(scope)@;
    let mut acc = LispValue::Nil;
    let mut i: usize = 1;
    let n = list.len();
    while i < n
        invariant
            s0 == old(scope)@,
            wf_scope(scope@),
            wf_vals(list@, scope@.envs.len() as int, scope@.atoms.len() as int),
            n == list@.len(),
            1 <= i,
            i <= n || n <= 1,
            env < scope@.envs.len(),
            s0.envs.len() <= scope@.envs.len(),
            s0.atoms.len() <= scope@.atoms.len(),
            fuel >= 1,
            wf_val(acc@, scope@.envs.len() as int, scope@.atoms.len() as int),
            spec_apply_do(s0, list@, env as int, fuel as nat) == spec_do_walk(
                scope@,
                list@,
                i as int,
                acc@,
                env as int,
                fuel as nat,
            ),
        decreases n - i,
    {
        proof {
            lemma_wf_vals(list@, scope@.envs.len() as int, scope@.atoms.len() as int);
        }
        let ghost s_before = scope@;
        acc = eval_ast(list.get(i), scope, env, fuel - 1);
        proof {
            lemma_wf_vals_grow(
                list@,
                s_before.envs.len() as int,
                s_before.atoms.len() as int,
                scope@.envs.len() as int,
                scope@.atoms.len() as int,
            );
        }
        i += 1;
    }
    acc
}

/// Conditional: only false and nil take the else branch; an error condition
/// is forwarded unevaluated; everything else is truthy.
pub fn apply_if(list: &List, scope: &mut Scope, env: usize, fuel: u64) -> (r: LispValue)
    requires
        wf_scope(old(scope)@),
        wf_vals(list@, old(scope)@.envs.len() as int, old(scope)@.atoms.len() as int),
        env < old(scope)@.envs.len(),
    ensures
        wf_scope(final(scope)@),
        old(scope)@.envs.len() <= final(scope)@.envs.len(),
        old(scope)@.atoms.len() <= final(scope)@.atoms.len(),
        wf_val(r@, final(scope)@.envs.len() as int, final(scope)@.atoms.len() as int),
        (final(scope)@, r@) == spec_apply_if(old(scope)@, list@, env as int, fuel as nat),
    decreases fuel, 1int, 0int,
{
    if fuel == 0 {
        return LispValue::Error("evaluation depth exceeded".to_owned());
    }
    let length = list.len();
    if length < 3 {
        return LispValue::Error(
            "if statement needs at least one statement to execute".to_owned(),
        );
    }
    if length > 4 {
        return LispValue::Error("if statement can have at most two arms".to_owned());
    }
    let ghost s0 = old(scope)@;
    proof {
        lemma_wf_vals(list@, s0.envs.len() as int, s0.atoms.len() as int);
    }
    let flag = eval_ast(list.get(1), scope, env, fuel - 1);
    proof {
        lemma_wf_vals_grow(
            list@,
            s0.envs.len() as int,
            s0.atoms.len() as int,
            scope@.envs.len() as int,
            scope@.atoms.len() as int,
        );
        lemma_wf_vals(list@, scope@.envs.len() as int, scope@.atoms.len() as int);
    }
    let take_else = match &flag {
        LispValue::Boolean(b) => !*b,
        LispValue::Nil => true,
        LispValue::Error(_) => {
            return flag;
        },
        _ => false,
    };
    if take_else {
        if length == 4 {
            eval_ast(list.get(3), scope, env, fuel - 1)
        } else {
            LispValue::Nil
        }
    } else {
        eval_ast(list.get(2), scope, env, fuel - 1)
    }
}

/// Lambda creation: the parameter list must be a list of symbols; the body
/// is captured unevaluated together with the defining scope.
pub fn create_func(list: &List, scope: &mut Scope, env: usize, fuel: u64) -> (r: LispValue)
    requires
        wf_scope(old(scope)@),
        wf_vals(list@, old(scope)@.envs.len() as int, old(scope)@.atoms.len() as int),
        env < old(scope)@.envs.len(),
    ensures
        wf_scope(final(scope)@),
        old(scope)@.envs.len() <= final(scope)@.envs.len(),
        old(scope)@.atoms.len() <= final(scope)@.atoms.len(),
        wf_val(r@, final(scope)@.envs.len() as int, final(scope)@.atoms.len() as int),
        (final(scope)@, r@) == spec_create_func(old(scope)@, list@, env as int, fuel as nat),
    decreases fuel, 1int, 0int,
{
    if fuel == 0 {
        return LispValue::Error("evaluation depth exceeded".to_owned());
    }
    if list.len() != 3 {
        return LispValue::Error("usage fn* (args list) (body)".to_owned());
    }
    proof {
        lemma_wf_vals(list@, old(scope)@.envs.len() as int, old(scope)@.atoms.len() as int);
    }
    match list.get(1) {
        LispValue::List(l) => {
            let mut args: Vec<Token> = Vec::new();
            let n = l.items.len();
            proof {
                lemma_views_of(l.items@);
                assert(spec_params(l@, 0) == params_suffix(l@, toks_view(args@), 0));
            }
            let mut i: usize = 0;
            while i < n
                invariant
                    scope@ == old(scope)@,
                    wf_scope(scope@),
                    wf_vals(list@, scope@.envs.len() as int, scope@.atoms.len() as int),
                    env < scope@.envs.len(),
                    fuel >= 1,
                    list@.len() == 3,
                    list@[1] == SpecVal::List(l@),
                    n == l.items@.len(),
                    l@.len() == n,
                    i <= n,
                    match spec_params(l@, i as int) {
                        Some(rest) => spec_params(l@, 0) == Some(toks_view(args@) + rest),
                        None => spec_params(l@, 0) is None,
                    },
                decreases n - i,
            {
                proof {
                    lemma_views_of(l.items@);
                }
                match &l.items[i] {
                    LispValue::Unit(u) => {
                        let ghost before = toks_view(args@);
                        args.push(u.token().duplicate());
                        proof {
                            assert(toks_view(args@) =~= before.push(u@));
                            lemma_params_step(l@, i as int, before, u@);
                        }
                    },
                    _ => {
                        return LispValue::Error("function args list must be symbols".to_owned());
                    },
                }
                i += 1;
            }
            proof {
                assert(spec_params(l@, n as int) == Some(Seq::<crate::tokenizer::SpecTok>::empty()));
                assert(toks_view(args@) + Seq::<crate::tokenizer::SpecTok>::empty() =~= toks_view(
                    args@,
                ));
            }
            let body = list.get(2).duplicate();
            let f = create_closure(args, body, env);
            proof {
                assert(f@->Closure_0.params =~= spec_params(l@, 0)->0);
                assert(f@->Closure_0 =~= crate::ast::SpecClosure {
                    params: spec_params(l@, 0)->0,
                    body: Box::new(list@[2]),
                    env: env as int,
                });
            }
            LispValue::Function(f)
        },
        _ => LispValue::Error("function args must be a list".to_owned()),
    }
}

/// A step of parameter collection keeps the prefix-suffix relation.
proof fn lemma_params_step(items: Seq<SpecVal>, i: int, before: Seq<crate::tokenizer::SpecTok>, t: crate::tokenizer::SpecTok)
    requires
        0 <= i < items.len(),
        items[i] == SpecVal::Unit(t),
        match spec_params(items, i) {
            Some(rest) => spec_params(items, 0) == Some(before + rest),
            None => spec_params(items, 0) is None,
        },
    ensures
        match spec_params(items, i + 1) {
            Some(rest) => spec_params(items, 0) == Some(before.push(t) + rest),
            None => spec_params(items, 0) is None,
        },
{
    match spec_params(items, i + 1) {
        Some(rest) => {
            assert(spec_params(items, i) == Some(seq![t] + rest));
            assert(before + (seq![t] + rest) =~= before.push(t) + rest);
        },
        None => {},
    }
}

/// The suffix form of parameter collection at the start.
spec fn params_suffix(items: Seq<SpecVal>, acc: Seq<crate::tokenizer::SpecTok>, i: int) -> Option<
    Seq<crate::tokenizer::SpecTok>,
> {
    match spec_params(items, i) {
        Some(rest) => Some(acc + rest),
        None => None,
    }
}

} // verus!
