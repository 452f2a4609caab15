//! The evaluator: dispatch of a value to itself, to symbol resolution, or to
//! list evaluation, and application of callable values.
//!
//! Every function here returns exactly what the mathematical interpreter in
//! [`crate::semantics`] computes for it.  `fuel` bounds the evaluation
//! depth: each nested evaluation costs one unit, and exhaustion yields an
//! error value rather than unbounded host recursion.
use vstd::prelude::*;

use crate::ast::{
    lemma_wf_vals, wf_val, wf_vals, FnVal, LispValue, List, SpecVal, Unit,
};
use crate::env::{lemma_chain_get_wf, wf_scope, Scope};
use crate::semantics::{
    spec_convert_string, spec_eval, spec_eval_list, spec_eval_symbol, spec_apply,
};
use crate::text::{
    chars_to_string, lemma_unescape_nonempty, parse_i64, push_chars, string_to_chars, unescape,
    unescape_chars,
};
use crate::tokenizer::TokenType;

verus! {

/// String-literal conversion: strip the delimiting quotes and apply the
/// newline escape rule.
fn convert_string(s: &String) -> (r: LispValue)
    ensures
        r@ == spec_convert_string(s@),
{
    let cs = string_to_chars(s.as_str());
    if cs.len() < 2 || cs[0] != '"' || cs[cs.len() - 1] != '"' {
        return LispValue::Error("malformatted string".to_owned());
    }
    let u = unescape_chars(&cs);
    proof {
        assert(unescape(cs@) =~= seq![cs@[0]] + unescape(cs@.skip(1)));
        lemma_unescape_nonempty(cs@.skip(1));
    }
    let mut out: Vec<char> = Vec::new();
    let mut i: usize = 1;
    while i < u.len() - 1
        invariant
            u@ == unescape(cs@),
            u@.len() >= 2,
            1 <= i <= u@.len() - 1,
            out@ == u@.subrange(1, i as int),
        decreases u@.len() - i,
    {
        out.push(u[i]);
        i += 1;
        proof {
            assert(out@ =~= u@.subrange(1, i as int));
        }
    }
    LispValue::Str(chars_to_string(&out))
}

/// Symbol resolution: string literals convert; bound names resolve through
/// the scope chain; then the reserved literals; then integer literals; an
/// unresolvable symbol is an error value.
pub fn eval_symbol(unit: &Unit, scope: &Scope, env: usize) -> (r: LispValue)
    requires
        wf_scope(scope@),
        env < scope@.envs.len(),
    ensures
        r@ == spec_eval_symbol(scope@, unit@, env as int),
        wf_val(r@, scope@.envs.len() as int, scope@.atoms.len() as int),
{
    let token = unit.token();
    if token.get_type() == TokenType::Text {
        return convert_string(token.get_text());
    }
    let text = token.get_text();
    match scope.get(env, text) {
        Some(v) => {
            proof {
                lemma_chain_get_wf(scope@, env as int, text@);
            }
            v
        },
        None => {
            if *text == "nil".to_owned() {
                LispValue::Nil
            } else if *text == "true".to_owned() {
                LispValue::Boolean(true)
            } else if *text == "false".to_owned() {
                LispValue::Boolean(false)
            } else {
                match parse_i64(text.as_str()) {
                    Some(i) => LispValue::Int(i),
                    None => {
                        let mut msg: Vec<char> = Vec::new();
                        push_chars(&mut msg, "could not parse symbol: ");
                        let tc = string_to_chars(text.as_str());
                        let mut i: usize = 0;
                        while i < tc.len()
                            invariant
                                i <= tc@.len(),
                                tc@ == unit@.text,
                                msg@ == "could not parse symbol: "@ + tc@.subrange(0, i as int),
                            decreases tc@.len() - i,
                        {
                            msg.push(tc[i]);
                            i += 1;
                            proof {
                                assert(msg@ =~= "could not parse symbol: "@ + tc@.subrange(
                                    0,
                                    i as int,
                                ));
                            }
                        }
                        proof {
                            assert(msg@ =~= "could not parse symbol: "@ + unit@.text);
                        }
                        LispValue::Error(chars_to_string(&msg))
                    },
                }
            }
        },
    }
}

/// Evaluate one value: lists evaluate as forms, token wrappers resolve as
/// symbols, and every other value evaluates to itself.
pub fn eval_ast(root: &LispValue, scope: &mut Scope, env: usize, fuel: u64) -> (r: LispValue)
    requires
        wf_scope(old(scope)@),
        wf_val(root@, old(scope)@.envs.len() as int, old(scope)@.atoms.len() as int),
        env < old(scope)@.envs.len(),
    ensures
        wf_scope(final(scope)@),
        old(scope)@.envs.len() <= final(scope)@.envs.len(),
        old(scope)@.atoms.len() <= final(scope)@.atoms.len(),
        wf_val(r@, final(scope)@.envs.len() as int, final(scope)@.atoms.len() as int),
        (final(scope)@, r@) == spec_eval(old(scope)@, root@, env as int, fuel as nat),
    decreases fuel, 4int, 0int,
{
    if fuel == 0 {
        return LispValue::Error("evaluation depth exceeded".to_owned());
    }
    match root {
        LispValue::List(list) => eval_list(list, scope, env, fuel),
        LispValue::Unit(unit) => eval_symbol(unit, scope, env),
        _ => root.duplicate(),
    }
}

/// Evaluate a list form: empty is nil; otherwise evaluate the operator
/// position and, when it is callable, apply it to the unevaluated form; an
/// error propagates; any other operator value is returned as-is.
pub fn eval_list(list: &List, scope: &mut Scope, env: usize, fuel: u64) -> (r: LispValue)
    requires
        wf_scope(old(scope)@),
        wf_vals(list@, old(scope)@.envs.len() as int, old(scope)@.atoms.len() as int),
        env < old(scope)@.envs.len(),
    ensures
        wf_scope(final(scope)@),
        old(scope)@.envs.len() <= final(scope)@.envs.len(),
        old(scope)@.atoms.len() <= final(scope)@.atoms.len(),
        wf_val(r@, final(scope)@.envs.len() as int, final(scope)@.atoms.len() as int),
        (final(scope)@, r@) == spec_eval_list(old(scope)@, list@, env as int, fuel as nat),
    decreases fuel, 3int, 0int,
{
    if fuel == 0 {
        return LispValue::Error("evaluation depth exceeded".to_owned());
    }
    if list.len() == 0 {
        return LispValue::Nil;
    }
    proof {
        lemma_wf_vals(list@, old(scope)@.envs.len() as int, old(scope)@.atoms.len() as int);
    }
    let op = eval_ast(list.get(0), scope, env, fuel - 1);
    match op {
        LispValue::Function(f) => {
            proof {
                lemma_wf_vals_grow_list(
                    list@,
                    old(scope)@.envs.len() as int,
                    old(scope)@.atoms.len() as int,
                    scope@.envs.len() as int,
                    scope@.atoms.len() as int,
                );
            }
            apply_fn(&f, list, scope, env, fuel)
        },
        LispValue::Error(m) => LispValue::Error(m),
        _ => op,
    }
}

/// `wf_vals` is monotone in the store bounds.
proof fn lemma_wf_vals_grow_list(s: Seq<SpecVal>, ne: int, na: int, ne2: int, na2: int)
    requires
        wf_vals(s, ne, na),
        ne <= ne2,
        na <= na2,
    ensures
        wf_vals(s, ne2, na2),
{
    crate::ast::lemma_wf_vals_grow(s, ne, na, ne2, na2);
}

/// Apply a callable value to the full unevaluated call list.
pub fn apply_fn(f: &FnVal, list: &List, scope: &mut Scope, env: usize, fuel: u64) -> (r: LispValue)
    requires
        wf_scope(old(scope)@),
        crate::ast::wf_fn(f@, old(scope)@.envs.len() as int, old(scope)@.atoms.len() as int),
        wf_vals(list@, old(scope)@.envs.len() as int, old(scope)@.atoms.len() as int),
        env < old(scope)@.envs.len(),
    ensures
        wf_scope(final(scope)@),
        old(scope)@.envs.len() <= final(scope)@.envs.len(),
        old(scope)@.atoms.len() <= final(scope)@.atoms.len(),
        wf_val(r@, final(scope)@.envs.len() as int, final(scope)@.atoms.len() as int),
        (final(scope)@, r@) == spec_apply(old(scope)@, f@, list@, env as int, fuel as nat),
    decreases fuel, 2int, 1int,
{
    if fuel == 0 {
        return LispValue::Error("evaluation depth exceeded".to_owned());
    }
    match f {
        FnVal::Closure(c) => crate::closure::apply_closure(c, list, scope, env, fuel),
        FnVal::Builtin(b) => crate::builtins::apply_builtin(*b, list, scope, env, fuel),
    }
}

} // verus!
