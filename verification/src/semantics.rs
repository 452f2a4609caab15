//! The mathematical interpreter: what evaluating a value in a store means.
//!
//! [`spec_eval`] and its companions define one deterministic semantics over
//! [`SpecVal`] and [`SpecScope`].  Every executable evaluator function is
//! proved to return exactly what its companion here computes.  Evaluation
//! depth is bounded by a fuel; exhausting it yields an error value, never a
//! host failure.
use vstd::prelude::*;

use crate::ast::{Builtin, SpecClosure, SpecFn, SpecVal};
use crate::env::{chain_get, root_of, SpecEnv, SpecScope};
use crate::error::{error_text, ErrorType};
use crate::parser::spec_read;
use crate::text::{int_dec, spec_parse_i64, unescape};
use crate::tokenizer::{SpecTok, TokenType};

verus! {

/// The store after binding `key` to `v` in scope `env` alone.
pub open spec fn scope_set(s: SpecScope, env: int, key: Seq<char>, v: SpecVal) -> SpecScope {
    SpecScope {
        envs: s.envs.update(
            env,
            SpecEnv { data: s.envs[env].data.push((key, v)), outer: s.envs[env].outer },
        ),
        ..s
    }
}

/// The store after creating a fresh scope whose outer link is `outer`.
pub open spec fn scope_push_env(s: SpecScope, outer: int) -> SpecScope {
    SpecScope {
        envs: s.envs.push(SpecEnv { data: Seq::empty(), outer: Some(outer) }),
        ..s
    }
}

/// The store after allocating a fresh cell holding `v`.
pub open spec fn scope_push_atom(s: SpecScope, v: SpecVal) -> SpecScope {
    SpecScope { atoms: s.atoms.push(v), ..s }
}

/// The store after replacing the content of cell `i` with `v`.
pub open spec fn scope_write_atom(s: SpecScope, i: int, v: SpecVal) -> SpecScope {
    SpecScope { atoms: s.atoms.update(i, v), ..s }
}

/// The store after requesting that the host read the file named `path`.
pub open spec fn scope_request_file(s: SpecScope, path: Seq<char>) -> SpecScope {
    SpecScope { pending: s.pending.push(path), ..s }
}

/// The error value produced when the evaluation depth budget runs out.
pub open spec fn depth_error() -> SpecVal {
    SpecVal::Error("evaluation depth exceeded"@)
}

/// String-literal conversion: the text must be quote-delimited; newline
/// escapes are applied and the delimiting quotes are dropped.
pub open spec fn spec_convert_string(text: Seq<char>) -> SpecVal {
    if text.len() < 2 || text[0] != '"' || text.last() != '"' {
        SpecVal::Error("malformatted string"@)
    } else {
        let u = unescape(text);
        SpecVal::Str(u.subrange(1, u.len() - 1))
    }
}

/// Symbol resolution: string literals convert; bound names resolve through
/// the scope chain; then the reserved literals; then integer literals; an
/// unresolvable symbol is an error value.
pub open spec fn spec_eval_symbol(s: SpecScope, tok: SpecTok, env: int) -> SpecVal {
    if tok.kind == TokenType::Text {
        spec_convert_string(tok.text)
    } else {
        match chain_get(s, env, tok.text) {
            Some(v) => v,
            None => if tok.text == "nil"@ {
                SpecVal::Nil
            } else if tok.text == "true"@ {
                SpecVal::Boolean(true)
            } else if tok.text == "false"@ {
                SpecVal::Boolean(false)
            } else {
                match spec_parse_i64(tok.text) {
                    Some(i) => SpecVal::Int(i as int),
                    None => SpecVal::Error("could not parse symbol: "@ + tok.text),
                }
            },
        }
    }
}

/// Truncating division of one 64-bit value by another, as the host integer
/// division behaves.
pub open spec fn trunc_div(x: int, d: int) -> int {
    if x == 0 {
        0
    } else if x > 0 && d > 0 {
        x / d
    } else if x < 0 && d < 0 {
        (x * -1) / (d * -1)
    } else if x < 0 {
        ((x * -1) / d) * -1
    } else {
        (x / (d * -1)) * -1
    }
}

/// One pairwise numeric step of an arithmetic fold.  An error operand is
/// passed through; a non-numeric operand poisons the step; overflow and
/// division by zero become error values.
pub open spec fn spec_binop(op: Builtin, a: SpecVal, b: SpecVal) -> SpecVal {
    match a {
        SpecVal::Error(m) => SpecVal::Error(m),
        SpecVal::Int(x) => match b {
            SpecVal::Error(m) => SpecVal::Error(m),
            SpecVal::Int(y) => {
                if op == Builtin::Add {
                    if i64::MIN <= x + y <= i64::MAX {
                        SpecVal::Int(x + y)
                    } else {
                        SpecVal::Error("integer overflow"@)
                    }
                } else if op == Builtin::Sub {
                    if i64::MIN <= x - y <= i64::MAX {
                        SpecVal::Int(x - y)
                    } else {
                        SpecVal::Error("integer overflow"@)
                    }
                } else if op == Builtin::Mul {
                    if i64::MIN <= x * y <= i64::MAX {
                        SpecVal::Int(x * y)
                    } else {
                        SpecVal::Error("integer overflow"@)
                    }
                } else {
                    if y == 0 {
                        SpecVal::Error("division by zero"@)
                    } else if i64::MIN <= trunc_div(x, y) <= i64::MAX {
                        SpecVal::Int(trunc_div(x, y))
                    } else {
                        SpecVal::Error("integer overflow"@)
                    }
                }
            },
            _ => SpecVal::Error("incompatible types"@),
        },
        _ => SpecVal::Error("incompatible types"@),
    }
}

/// The left fold of an arithmetic operator over evaluated arguments.
pub open spec fn spec_fold(op: Builtin, acc: SpecVal, args: Seq<SpecVal>, i: int) -> SpecVal
    decreases args.len() - i,
{
    if i < 0 || i >= args.len() {
        acc
    } else {
        spec_fold(op, spec_binop(op, acc, args[i]), args, i + 1)
    }
}

/// What an arithmetic operator returns for its evaluated arguments.
pub open spec fn spec_math(op: Builtin, args: Seq<SpecVal>) -> SpecVal {
    if args.len() == 0 {
        SpecVal::Error("function called with no arguments"@)
    } else {
        spec_fold(op, args[0], args, 1)
    }
}

/// Structural equality of like-typed simple operands; everything else
/// compares unequal.
pub open spec fn spec_equal_vals(l: SpecVal, r: SpecVal) -> bool {
    match l {
        SpecVal::Int(x) => r == SpecVal::Int(x),
        SpecVal::Boolean(b) => r == SpecVal::Boolean(b),
        SpecVal::Str(t) => r == SpecVal::Str(t),
        _ => false,
    }
}

/// An ordering comparison on two evaluated operands: defined for a numeric
/// pair, false for every other combination.
pub open spec fn spec_compare(op: Builtin, l: SpecVal, r: SpecVal) -> SpecVal {
    match l {
        SpecVal::Error(m) => SpecVal::Error(m),
        SpecVal::Int(x) => match r {
            SpecVal::Int(y) => SpecVal::Boolean(
                if op == Builtin::Greater {
                    x > y
                } else if op == Builtin::Less {
                    x < y
                } else if op == Builtin::GreaterEquals {
                    x >= y
                } else {
                    x <= y
                },
            ),
            _ => SpecVal::Boolean(false),
        },
        _ => SpecVal::Boolean(false),
    }
}

/// The arity-error message of a comparison operator.
pub open spec fn compare_arity_message(op: Builtin) -> Seq<char> {
    if op == Builtin::Greater {
        "> works with exactly two items to compare"@
    } else if op == Builtin::Less {
        "< works with exactly two items to compare"@
    } else if op == Builtin::GreaterEquals {
        ">= works with exactly two items to compare"@
    } else {
        "<= works with exactly two items to compare"@
    }
}

/// The rendering of a value as text, following the cell store up to `fuel`
/// dereferences.
pub open spec fn render_val(s: SpecScope, v: SpecVal, fuel: nat) -> Seq<char>
    decreases fuel, v, 0int,
{
    match v {
        SpecVal::Int(i) => int_dec(i),
        SpecVal::Error(m) => "error - "@ + m,
        SpecVal::Boolean(b) => if b {
            "true"@
        } else {
            "false"@
        },
        SpecVal::Nil => "nil"@,
        SpecVal::Function(_) => "#<lambda>"@,
        SpecVal::Macro(_) => "#<lambda>"@,
        SpecVal::Str(t) => t,
        SpecVal::List(items) => seq!['('] + render_items(s, items, fuel) + seq![')'],
        SpecVal::Unit(tok) => kind_prefix(tok.kind) + ": "@ + tok.text,
        SpecVal::Atom(i) => {
            if fuel > 0 && 0 <= i < s.atoms.len() {
                "Atom <"@ + render_val(s, s.atoms[i], (fuel - 1) as nat) + ">"@
            } else {
                "Atom <...>"@
            }
        },
    }
}

/// The rendering of list elements, each followed by a separator.
pub open spec fn render_items(s: SpecScope, items: Seq<SpecVal>, fuel: nat) -> Seq<char>
    decreases fuel, items, 1int,
{
    if items.len() == 0 {
        Seq::empty()
    } else {
        render_val(s, items[0], fuel) + ", "@ + render_items(s, items.drop_first(), fuel)
    }
}

/// The display prefix of a token's lexical class.
pub open spec fn kind_prefix(k: TokenType) -> Seq<char> {
    match k {
        TokenType::Text => "string"@,
        TokenType::SpecialOne => "special"@,
        TokenType::SpecialTwo => "special_two"@,
        TokenType::Comment => "comment"@,
        TokenType::Symbol => "symbol"@,
    }
}

/// Evaluation of one value in scope `env`.
pub open spec fn spec_eval(s: SpecScope, v: SpecVal, env: int, fuel: nat) -> (SpecScope, SpecVal)
    decreases fuel, 4int, 0int,
{
    if fuel == 0 {
        (s, depth_error())
    } else {
        match v {
            SpecVal::List(items) => spec_eval_list(s, items, env, fuel),
            SpecVal::Unit(tok) => (s, spec_eval_symbol(s, tok, env)),
            _ => (s, v),
        }
    }
}

/// Evaluation of a list form: empty is nil; otherwise the operator position
/// is evaluated and, when callable, applied to the unevaluated form.
pub open spec fn spec_eval_list(s: SpecScope, items: Seq<SpecVal>, env: int, fuel: nat) -> (
    SpecScope,
    SpecVal,
)
    decreases fuel, 3int, 0int,
{
    if fuel == 0 {
        (s, depth_error())
    } else if items.len() == 0 {
        (s, SpecVal::Nil)
    } else {
        let (s1, op) = spec_eval(s, items[0], env, (fuel - 1) as nat);
        match op {
            SpecVal::Function(f) => spec_apply(s1, f, items, env, fuel),
            SpecVal::Error(m) => (s1, SpecVal::Error(m)),
            _ => (s1, op),
        }
    }
}

/// Application of a callable to the full unevaluated call list.
pub open spec fn spec_apply(s: SpecScope, f: SpecFn, items: Seq<SpecVal>, env: int, fuel: nat) -> (
    SpecScope,
    SpecVal,
)
    decreases fuel, 2int, 0int,
{
    if fuel == 0 {
        (s, depth_error())
    } else {
        match f {
            SpecFn::Closure(c) => spec_apply_closure(s, c, items, env, fuel),
            SpecFn::Builtin(b) => {
                if b == Builtin::Add || b == Builtin::Sub || b == Builtin::Mul || b
                    == Builtin::Div {
                    spec_apply_op(s, b, items, env, fuel)
                } else if b == Builtin::Do {
                    spec_apply_do(s, items, env, fuel)
                } else if b == Builtin::Let {
                    spec_apply_let(s, items, env, fuel)
                } else if b == Builtin::If {
                    spec_apply_if(s, items, env, fuel)
                } else if b == Builtin::Lambda {
                    spec_create_func(s, items, env, fuel)
                } else if b == Builtin::Def {
                    spec_apply_def(s, items, env, fuel)
                } else if b == Builtin::Equals {
                    spec_apply_equals(s, items, env, fuel)
                } else if b == Builtin::Greater || b == Builtin::Less || b
                    == Builtin::GreaterEquals || b == Builtin::LessEquals {
                    spec_apply_compare(s, b, items, env, fuel)
                } else if b == Builtin::Slurp {
                    spec_apply_slurp(s, items, env, fuel)
                } else if b == Builtin::MakeList {
                    (
                        s,
                        SpecVal::List(
                            if items.len() >= 1 {
                                items.skip(1)
                            } else {
                                Seq::empty()
                            },
                        ),
                    )
                } else if b == Builtin::Eval {
                    spec_apply_eval(s, items, env, fuel)
                } else if b == Builtin::StrJoin {
                    spec_apply_str(s, items, env, fuel)
                } else if b == Builtin::ReadString {
                    spec_apply_read_string(s, items, env, fuel)
                } else if b == Builtin::Prn {
                    spec_apply_prn(s, items, env, fuel)
                } else if b == Builtin::Quote {
                    (
                        s,
                        if items.len() != 2 {
                            SpecVal::Error("quoting is only supported for a single argument"@)
                        } else {
                            items[1]
                        },
                    )
                } else if b == Builtin::AtomNew {
                    spec_apply_atom(s, items, env, fuel)
                } else if b == Builtin::AtomCheck {
                    spec_apply_is_atom(s, items, env, fuel)
                } else if b == Builtin::Deref {
                    spec_apply_deref(s, items, env, fuel)
                } else if b == Builtin::Reset {
                    spec_apply_reset(s, items, env, fuel)
                } else if b == Builtin::Swap {
                    spec_apply_swap(s, items, env, fuel)
                } else if b == Builtin::MacroBind {
                    spec_apply_macro(s, items, env, fuel)
                } else if b == Builtin::Cons {
                    spec_apply_cons(s, items, env, fuel)
                } else {
                    spec_apply_concat(s, items, env, fuel)
                }
            },
        }
    }
}

/// Closure application: excess call arguments are rejected; otherwise a
/// fresh scope is made off the closure's defining scope, each argument is
/// evaluated in the caller's scope and bound positionally, and the body is
/// evaluated in the fresh scope.  Missing arguments simply leave their
/// parameters unbound.
pub open spec fn spec_apply_closure(
    s: SpecScope,
    c: SpecClosure,
    items: Seq<SpecVal>,
    env: int,
    fuel: nat,
) -> (SpecScope, SpecVal)
    decreases fuel, 1int, 0int,
{
    if fuel == 0 {
        (s, depth_error())
    } else if items.len() - 1 > c.params.len() {
        (s, SpecVal::Error("function called with too many arguments"@))
    } else {
        let child = s.envs.len() as int;
        spec_bind_args(scope_push_env(s, c.env), c, items, 1, child, env, fuel)
    }
}

/// Binding loop of closure application: evaluate argument `i` in the
/// caller's scope, bind it in the fresh scope, and continue; at the end the
/// body runs in the fresh scope.
pub open spec fn spec_bind_args(
    s: SpecScope,
    c: SpecClosure,
    items: Seq<SpecVal>,
    i: int,
    child: int,
    env: int,
    fuel: nat,
) -> (SpecScope, SpecVal)
    decreases fuel, 0int, items.len() - i,
{
    if fuel == 0 {
        (s, depth_error())
    } else if i < 1 || i >= items.len() {
        spec_eval(s, *c.body, child, (fuel - 1) as nat)
    } else {
        let (s1, v) = spec_eval(s, items[i], env, (fuel - 1) as nat);
        spec_bind_args(
            scope_set(s1, child, c.params[i - 1].text, v),
            c,
            items,
            i + 1,
            child,
            env,
            fuel,
        )
    }
}

/// Definition: evaluate the value expression, bind the result to the symbol
/// in the current scope (even an error value), and return it.
pub open spec fn spec_apply_def(s: SpecScope, items: Seq<SpecVal>, env: int, fuel: nat) -> (
    SpecScope,
    SpecVal,
)
    decreases fuel, 1int, 0int,
{
    if fuel == 0 {
        (s, depth_error())
    } else if items.len() != 3 {
        (s, SpecVal::Error("incorrect number of args for definition"@))
    } else {
        match items[1] {
            SpecVal::Unit(tok) => {
                let (s1, v) = spec_eval(s, items[2], env, (fuel - 1) as nat);
                (scope_set(s1, env, tok.text, v), v)
            },
            _ => (s, SpecVal::Error("first argument to def! must be a symbol"@)),
        }
    }
}

/// Local binding: one fresh scope; pairs are walked left to right, each
/// value expression evaluated in the growing fresh scope; the body is then
/// evaluated there.
pub open spec fn spec_apply_let(s: SpecScope, items: Seq<SpecVal>, env: int, fuel: nat) -> (
    SpecScope,
    SpecVal,
)
    decreases fuel, 1int, 0int,
{
    if fuel == 0 {
        (s, depth_error())
    } else if items.len() != 3 {
        (s, SpecVal::Error("let* two arguments in list"@))
    } else {
        match items[1] {
            SpecVal::List(bindings) => {
                let child = s.envs.len() as int;
                spec_let_walk(
                    scope_push_env(s, env),
                    bindings,
                    0,
                    Seq::empty(),
                    child,
                    items[2],
                    fuel,
                )
            },
            _ => (s, SpecVal::Error("first argument to let* must be assignment list"@)),
        }
    }
}

/// Binding walk of a local-binding form: even positions name, odd positions
/// evaluate and bind; an error value aborts; the body runs at the end.
pub open spec fn spec_let_walk(
    s: SpecScope,
    bindings: Seq<SpecVal>,
    i: int,
    key: Seq<char>,
    child: int,
    body: SpecVal,
    fuel: nat,
) -> (SpecScope, SpecVal)
    decreases fuel, 0int, bindings.len() - i,
{
    if fuel == 0 {
        (s, depth_error())
    } else if i < 0 || i >= bindings.len() {
        spec_eval(s, body, child, (fuel - 1) as nat)
    } else if i % 2 == 0 {
        match bindings[i] {
            SpecVal::Unit(tok) => spec_let_walk(s, bindings, i + 1, tok.text, child, body, fuel),
            _ => (s, SpecVal::Error("assignment list even argument be string symbol"@)),
        }
    } else {
        let (s1, v) = spec_eval(s, bindings[i], child, (fuel - 1) as nat);
        match v {
            SpecVal::Error(m) => (s1, SpecVal::Error(m)),
            _ => spec_let_walk(scope_set(s1, child, key, v), bindings, i + 1, key, child, body, fuel),
        }
    }
}

/// Sequencing: evaluate every remaining element in order in the same scope
/// and return the value of the last; with no elements, nil.
pub open spec fn spec_apply_do(s: SpecScope, items: Seq<SpecVal>, env: int, fuel: nat) -> (
    SpecScope,
    SpecVal,
)
    decreases fuel, 1int, 0int,
{
    if fuel == 0 {
        (s, depth_error())
    } else {
        spec_do_walk(s, items, 1, SpecVal::Nil, env, fuel)
    }
}

pub open spec fn spec_do_walk(
    s: SpecScope,
    items: Seq<SpecVal>,
    i: int,
    acc: SpecVal,
    env: int,
    fuel: nat,
) -> (SpecScope, SpecVal)
    decreases fuel, 0int, items.len() - i,
{
    if fuel == 0 {
        (s, depth_error())
    } else if i < 1 || i >= items.len() {
        (s, acc)
    } else {
        let (s1, v) = spec_eval(s, items[i], env, (fuel - 1) as nat);
        spec_do_walk(s1, items, i + 1, v, env, fuel)
    }
}

/// Conditional: only false and nil take the else branch; an error condition
/// is forwarded unevaluated; everything else is truthy.
pub open spec fn spec_apply_if(s: SpecScope, items: Seq<SpecVal>, env: int, fuel: nat) -> (
    SpecScope,
    SpecVal,
)
    decreases fuel, 1int, 0int,
{
    if fuel == 0 {
        (s, depth_error())
    } else if items.len() < 3 {
        (s, SpecVal::Error("if statement needs at least one statement to execute"@))
    } else if items.len() > 4 {
        (s, SpecVal::Error("if statement can have at most two arms"@))
    } else {
        let (s1, cond) = spec_eval(s, items[1], env, (fuel - 1) as nat);
        match cond {
            SpecVal::Boolean(b) => if !b {
                if items.len() == 4 {
                    spec_eval(s1, items[3], env, (fuel - 1) as nat)
                } else {
                    (s1, SpecVal::Nil)
                }
            } else {
                spec_eval(s1, items[2], env, (fuel - 1) as nat)
            },
            SpecVal::Nil => if items.len() == 4 {
                spec_eval(s1, items[3], env, (fuel - 1) as nat)
            } else {
                (s1, SpecVal::Nil)
            },
            SpecVal::Error(m) => (s1, SpecVal::Error(m)),
            _ => spec_eval(s1, items[2], env, (fuel - 1) as nat),
        }
    }
}

/// The parameter tokens of a lambda's parameter list, when every element is
/// a symbol.
pub open spec fn spec_params(items: Seq<SpecVal>, i: int) -> Option<Seq<SpecTok>>
    decreases items.len() - i,
{
    if i < 0 || i >= items.len() {
        Some(Seq::empty())
    } else {
        match items[i] {
            SpecVal::Unit(tok) => match spec_params(items, i + 1) {
                Some(rest) => Some(seq![tok] + rest),
                None => None,
            },
            _ => None,
        }
    }
}

/// Lambda creation: the parameter list must be a list of symbols; the body
/// is captured unevaluated together with the defining scope.
pub open spec fn spec_create_func(s: SpecScope, items: Seq<SpecVal>, env: int, fuel: nat) -> (
    SpecScope,
    SpecVal,
)
    decreases fuel, 1int, 0int,
{
    if fuel == 0 {
        (s, depth_error())
    } else if items.len() != 3 {
        (s, SpecVal::Error("usage fn* (args list) (body)"@))
    } else {
        match items[1] {
            SpecVal::List(params) => match spec_params(params, 0) {
                Some(toks) => (
                    s,
                    SpecVal::Function(
                        SpecFn::Closure(
                            SpecClosure { params: toks, body: Box::new(items[2]), env },
                        ),
                    ),
                ),
                None => (s, SpecVal::Error("function args list must be symbols"@)),
            },
            _ => (s, SpecVal::Error("function args must be a list"@)),
        }
    }
}

/// Structural equality of two evaluated operands.
pub open spec fn spec_apply_equals(s: SpecScope, items: Seq<SpecVal>, env: int, fuel: nat) -> (
    SpecScope,
    SpecVal,
)
    decreases fuel, 1int, 0int,
{
    if fuel == 0 {
        (s, depth_error())
    } else if items.len() != 3 {
        (s, SpecVal::Error("equals needs two comparisons"@))
    } else {
        let (s1, l) = spec_eval(s, items[1], env, (fuel - 1) as nat);
        let (s2, r) = spec_eval(s1, items[2], env, (fuel - 1) as nat);
        match l {
            SpecVal::Error(m) => (s2, SpecVal::Error(m)),
            _ => (s2, SpecVal::Boolean(spec_equal_vals(l, r))),
        }
    }
}

/// An ordering comparison of two evaluated operands.
pub open spec fn spec_apply_compare(
    s: SpecScope,
    op: Builtin,
    items: Seq<SpecVal>,
    env: int,
    fuel: nat,
) -> (SpecScope, SpecVal)
    decreases fuel, 1int, 0int,
{
    if fuel == 0 {
        (s, depth_error())
    } else if items.len() != 3 {
        (s, SpecVal::Error(compare_arity_message(op)))
    } else {
        let (s1, l) = spec_eval(s, items[1], env, (fuel - 1) as nat);
        let (s2, r) = spec_eval(s1, items[2], env, (fuel - 1) as nat);
        (s2, spec_compare(op, l, r))
    }
}

/// Argument evaluation for an arithmetic operator, left to right.
pub open spec fn spec_eval_args(
    s: SpecScope,
    items: Seq<SpecVal>,
    i: int,
    acc: Seq<SpecVal>,
    env: int,
    fuel: nat,
) -> (SpecScope, Seq<SpecVal>)
    decreases fuel, 0int, items.len() - i,
{
    if fuel == 0 {
        (s, acc)
    } else if i < 1 || i >= items.len() {
        (s, acc)
    } else {
        let (s1, v) = spec_eval(s, items[i], env, (fuel - 1) as nat);
        spec_eval_args(s1, items, i + 1, acc.push(v), env, fuel)
    }
}

/// An arithmetic operator: evaluate every argument, then left-fold.
pub open spec fn spec_apply_op(s: SpecScope, op: Builtin, items: Seq<SpecVal>, env: int, fuel: nat)
    -> (SpecScope, SpecVal)
    decreases fuel, 1int, 0int,
{
    if fuel == 0 {
        (s, depth_error())
    } else {
        let (s1, args) = spec_eval_args(s, items, 1, Seq::empty(), env, fuel);
        (s1, spec_math(op, args))
    }
}

/// File reading: the read itself is host work, exchanged through the
/// store's file table.  A recorded read yields the file's text or the
/// host's own failure message; a path not yet read is requested from the
/// host and reported as not read yet.
pub open spec fn spec_apply_slurp(s: SpecScope, items: Seq<SpecVal>, env: int, fuel: nat) -> (
    SpecScope,
    SpecVal,
)
    decreases fuel, 1int, 0int,
{
    if fuel == 0 {
        (s, depth_error())
    } else if items.len() != 2 {
        (s, SpecVal::Error("slurp takes only one argument"@))
    } else {
        let (s1, v) = spec_eval(s, items[1], env, (fuel - 1) as nat);
        match v {
            SpecVal::Error(m) => (s1, SpecVal::Error(m)),
            SpecVal::Str(path) => match crate::env::file_lookup(s1.files, path) {
                Some(crate::env::SpecFileRead::Content(text)) => (s1, SpecVal::Str(text)),
                Some(crate::env::SpecFileRead::Failure(m)) => (s1, SpecVal::Error(m)),
                None => (
                    scope_request_file(s1, path),
                    SpecVal::Error("slurp: file not read yet"@),
                ),
            },
            _ => (s1, SpecVal::Error("slurp needs a filename!"@)),
        }
    }
}

/// Meta-evaluation: evaluate the argument, then evaluate the result once
/// more in the root scope.
pub open spec fn spec_apply_eval(s: SpecScope, items: Seq<SpecVal>, env: int, fuel: nat) -> (
    SpecScope,
    SpecVal,
)
    decreases fuel, 1int, 0int,
{
    if fuel == 0 {
        (s, depth_error())
    } else if items.len() != 2 {
        (s, SpecVal::Error("eval can only be called on a single item"@))
    } else {
        let (s1, v) = spec_eval(s, items[1], env, (fuel - 1) as nat);
        match root_of(s1, env) {
            None => (s1, SpecVal::Error("could not find root environment for eval"@)),
            Some(root) => spec_eval(s1, v, root, (fuel - 1) as nat),
        }
    }
}

/// Joining walk of the text builtin: evaluate each argument and append its
/// rendering and a separating space.
pub open spec fn spec_str_walk(
    s: SpecScope,
    items: Seq<SpecVal>,
    i: int,
    acc: Seq<char>,
    env: int,
    fuel: nat,
) -> (SpecScope, Seq<char>)
    decreases fuel, 0int, items.len() - i,
{
    if fuel == 0 {
        (s, acc)
    } else if i < 1 || i >= items.len() {
        (s, acc)
    } else {
        let (s1, v) = spec_eval(s, items[i], env, (fuel - 1) as nat);
        spec_str_walk(s1, items, i + 1, acc + render_val(s1, v, fuel) + seq![' '], env, fuel)
    }
}

/// Text joining: each evaluated argument rendered with a trailing space,
/// with the last separator dropped.
pub open spec fn spec_apply_str(s: SpecScope, items: Seq<SpecVal>, env: int, fuel: nat) -> (
    SpecScope,
    SpecVal,
)
    decreases fuel, 1int, 0int,
{
    if fuel == 0 {
        (s, depth_error())
    } else {
        let (s1, acc) = spec_str_walk(s, items, 1, Seq::empty(), env, fuel);
        (
            s1,
            SpecVal::Str(
                if acc.len() > 0 {
                    acc.drop_last()
                } else {
                    acc
                },
            ),
        )
    }
}

/// Reading a string argument as a form.
pub open spec fn spec_apply_read_string(s: SpecScope, items: Seq<SpecVal>, env: int, fuel: nat) -> (
    SpecScope,
    SpecVal,
)
    decreases fuel, 1int, 0int,
{
    if fuel == 0 {
        (s, depth_error())
    } else if items.len() != 2 {
        (s, SpecVal::Error("read_string takes a single argument"@))
    } else {
        let (s1, v) = spec_eval(s, items[1], env, (fuel - 1) as nat);
        match v {
            SpecVal::Str(text) => (s1, spec_read(text)),
            _ => (s1, SpecVal::Error("read string needs a string argument"@)),
        }
    }
}

/// Printing: evaluate and render the argument (the printing itself is a
/// host effect) and return nil.
pub open spec fn spec_apply_prn(s: SpecScope, items: Seq<SpecVal>, env: int, fuel: nat) -> (
    SpecScope,
    SpecVal,
)
    decreases fuel, 1int, 0int,
{
    if fuel == 0 {
        (s, depth_error())
    } else if items.len() != 2 {
        (s, SpecVal::Error("prn takes a single argument"@))
    } else {
        let (s1, _) = spec_eval(s, items[1], env, (fuel - 1) as nat);
        (s1, SpecVal::Nil)
    }
}

/// Cell allocation: boxing an error value fails; otherwise a fresh cell is
/// allocated.
pub open spec fn spec_apply_atom(s: SpecScope, items: Seq<SpecVal>, env: int, fuel: nat) -> (
    SpecScope,
    SpecVal,
)
    decreases fuel, 1int, 0int,
{
    if fuel == 0 {
        (s, depth_error())
    } else if items.len() != 2 {
        (s, SpecVal::Error("atom takes exactly 1 argument"@))
    } else {
        let (s1, v) = spec_eval(s, items[1], env, (fuel - 1) as nat);
        match v {
            SpecVal::Error(_) => (s1, SpecVal::Error("cannot box error value"@)),
            _ => (scope_push_atom(s1, v), SpecVal::Atom(s1.atoms.len() as int)),
        }
    }
}

/// Cell test.
pub open spec fn spec_apply_is_atom(s: SpecScope, items: Seq<SpecVal>, env: int, fuel: nat) -> (
    SpecScope,
    SpecVal,
)
    decreases fuel, 1int, 0int,
{
    if fuel == 0 {
        (s, depth_error())
    } else if items.len() != 2 {
        (s, SpecVal::Error("atom? takes exactly 1 argument"@))
    } else {
        let (s1, v) = spec_eval(s, items[1], env, (fuel - 1) as nat);
        (s1, SpecVal::Boolean(v is Atom))
    }
}

/// Cell read: a copy of the current content.
pub open spec fn spec_apply_deref(s: SpecScope, items: Seq<SpecVal>, env: int, fuel: nat) -> (
    SpecScope,
    SpecVal,
)
    decreases fuel, 1int, 0int,
{
    if fuel == 0 {
        (s, depth_error())
    } else if items.len() != 2 {
        (s, SpecVal::Error("deref takes exactly 1 argument"@))
    } else {
        let (s1, v) = spec_eval(s, items[1], env, (fuel - 1) as nat);
        match v {
            SpecVal::Atom(i) => if 0 <= i < s1.atoms.len() {
                (s1, s1.atoms[i])
            } else {
                (s1, SpecVal::Nil)
            },
            _ => (s1, SpecVal::Error("value is not an atom"@)),
        }
    }
}

/// Cell replace: both arguments are evaluated; an error replacement aborts
/// without mutating; every holder of the cell observes the new content.
pub open spec fn spec_apply_reset(s: SpecScope, items: Seq<SpecVal>, env: int, fuel: nat) -> (
    SpecScope,
    SpecVal,
)
    decreases fuel, 1int, 0int,
{
    if fuel == 0 {
        (s, depth_error())
    } else if items.len() != 3 {
        (s, SpecVal::Error("reset! takes exactly 2 arguments"@))
    } else {
        let (s1, a) = spec_eval(s, items[1], env, (fuel - 1) as nat);
        let (s2, v) = spec_eval(s1, items[2], env, (fuel - 1) as nat);
        match a {
            SpecVal::Atom(i) => match v {
                SpecVal::Error(m) => (s2, SpecVal::Error(m)),
                _ => (scope_write_atom(s2, i, v), v),
            },
            _ => (s2, SpecVal::Error("first argument to reset should be an atom"@)),
        }
    }
}

/// Cell read-modify-write: the function is applied to a synthetic call list
/// holding the current content; an error result aborts without mutating.
pub open spec fn spec_apply_swap(s: SpecScope, items: Seq<SpecVal>, env: int, fuel: nat) -> (
    SpecScope,
    SpecVal,
)
    decreases fuel, 1int, 0int,
{
    if fuel == 0 {
        (s, depth_error())
    } else if items.len() != 3 {
        (s, SpecVal::Error("swap! takes exactly 2 arguments"@))
    } else {
        let (s1, a) = spec_eval(s, items[1], env, (fuel - 1) as nat);
        let (s2, fv) = spec_eval(s1, items[2], env, (fuel - 1) as nat);
        match a {
            SpecVal::Atom(i) => match fv {
                SpecVal::Function(f) => {
                    let cur = if 0 <= i < s2.atoms.len() {
                        s2.atoms[i]
                    } else {
                        SpecVal::Nil
                    };
                    let (s3, nv) = spec_apply(
                        s2,
                        f,
                        seq![SpecVal::Nil, cur],
                        env,
                        (fuel - 1) as nat,
                    );
                    match nv {
                        SpecVal::Error(m) => (s3, SpecVal::Error(m)),
                        _ => (scope_write_atom(s3, i, nv), nv),
                    }
                },
                _ => (s2, SpecVal::Error("second argument to swap must be a function"@)),
            },
            _ => (s2, SpecVal::Error("first argument to swap should be an atom"@)),
        }
    }
}

/// Macro binding: the symbol is bound to a macro-tagged function value.
pub open spec fn spec_apply_macro(s: SpecScope, items: Seq<SpecVal>, env: int, fuel: nat) -> (
    SpecScope,
    SpecVal,
)
    decreases fuel, 1int, 0int,
{
    if fuel == 0 {
        (s, depth_error())
    } else if items.len() != 3 {
        (s, SpecVal::Error("macro! takes exactly 2 arguments"@))
    } else {
        match items[1] {
            SpecVal::Unit(tok) => {
                let (s1, v) = spec_eval(s, items[2], env, (fuel - 1) as nat);
                match v {
                    SpecVal::Function(f) => (
                        scope_set(s1, env, tok.text, SpecVal::Macro(f)),
                        SpecVal::Macro(f),
                    ),
                    _ => (s1, SpecVal::Error("the second argument to macro! must be a function"@)),
                }
            },
            _ => (s, SpecVal::Error("first argument to macro! must be a symbol"@)),
        }
    }
}

/// List construction from the head and an evaluated tail list; the second
/// argument is evaluated first, and must be a list before the head is
/// evaluated at all.
pub open spec fn spec_apply_cons(s: SpecScope, items: Seq<SpecVal>, env: int, fuel: nat) -> (
    SpecScope,
    SpecVal,
)
    decreases fuel, 1int, 0int,
{
    if fuel == 0 {
        (s, depth_error())
    } else if items.len() != 3 {
        (s, SpecVal::Error("cons takes exactly 2 arguments"@))
    } else {
        let (s1, tail) = spec_eval(s, items[2], env, (fuel - 1) as nat);
        match tail {
            SpecVal::List(l) => {
                let (s2, head) = spec_eval(s1, items[1], env, (fuel - 1) as nat);
                (s2, SpecVal::List(seq![head] + l))
            },
            _ => (s1, SpecVal::Error("second argument to cons needs to be list"@)),
        }
    }
}

/// Concatenation walk: every evaluated argument must be a list.
pub open spec fn spec_concat_walk(
    s: SpecScope,
    items: Seq<SpecVal>,
    i: int,
    acc: Seq<SpecVal>,
    env: int,
    fuel: nat,
) -> (SpecScope, SpecVal)
    decreases fuel, 0int, items.len() - i,
{
    if fuel == 0 {
        (s, depth_error())
    } else if i < 1 || i >= items.len() {
        (s, SpecVal::List(acc))
    } else {
        let (s1, v) = spec_eval(s, items[i], env, (fuel - 1) as nat);
        match v {
            SpecVal::List(l) => spec_concat_walk(s1, items, i + 1, acc + l, env, fuel),
            _ => (s1, SpecVal::Error("every argument to concat must be a list"@)),
        }
    }
}

/// Concatenation of evaluated list arguments.
pub open spec fn spec_apply_concat(s: SpecScope, items: Seq<SpecVal>, env: int, fuel: nat) -> (
    SpecScope,
    SpecVal,
)
    decreases fuel, 1int, 0int,
{
    if fuel == 0 {
        (s, depth_error())
    } else {
        spec_concat_walk(s, items, 1, Seq::empty(), env, fuel)
    }
}

} // verus!
