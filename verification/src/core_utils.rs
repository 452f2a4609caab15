//! Value utilities: copying a call's arguments into a list, meta-evaluation
//! in the root scope, rendering values as text, reading a string as a form,
//! and printing.
use std::io::Write;

use vstd::prelude::*;

use crate::ast::{
    lemma_views_of, lemma_wf_vals, lemma_wf_vals_grow, wf_val, wf_vals, LispValue, List, SpecVal,
};
use crate::env::{wf_scope, Scope};
use crate::eval::eval_ast;
use crate::semantics::{
    render_items, render_val, spec_apply_eval, spec_apply_prn, spec_apply_read_string,
    spec_apply_str, spec_str_walk,
};
use crate::text::{chars_to_string, int_to_string, push_chars, string_to_chars};
use crate::tokenizer::TokenType;

verus! {

/// Copy the arguments, unevaluated, into a fresh list.
pub fn apply_list(list: &List, scope: &mut Scope, env: usize, fuel: u64) -> (r: LispValue)
    requires
        wf_scope(old(scope)@),
        wf_vals(list@, old(scope)@.envs.len() as int, old(scope)@.atoms.len() as int),
        env < old(scope)@.envs.len(),
    ensures
        final(scope)@ == old(scope)@,
        wf_val(r@, final(scope)@.envs.len() as int, final(scope)@.atoms.len() as int),
        r@ == SpecVal::List(
            if list@.len() >= 1 {
                list@.skip(1)
            } else {
                Seq::empty()
            },
        ),
    decreases fuel, 1int, 0int,
{
    let mut copied = List::new();
    let n = list.len();
    let mut i: usize = 1;
    proof {
        lemma_wf_vals(list@, scope@.envs.len() as int, scope@.atoms.len() as int);
        if n >= 1 {
            assert(copied@ =~= list@.subrange(1, 1));
        } else {
            assert(copied@ =~= Seq::<SpecVal>::empty());
        }
    }
    while i < n
        invariant
            n == list@.len(),
            1 <= i,
            n >= 1 ==> i <= n,
            n >= 1 ==> copied@ == list@.subrange(1, i as int),
            n == 0 ==> copied@ == Seq::<SpecVal>::empty(),
        decreases n - i,
    {
        copied.push(list.get(i).duplicate());
        i += 1;
        proof {
            assert(copied@ =~= list@.subrange(1, i as int));
        }
    }
    proof {
        if n >= 1 {
            assert(copied@ =~= list@.skip(1));
        }
        lemma_wf_vals(list@, scope@.envs.len() as int, scope@.atoms.len() as int);
        lemma_wf_vals(copied@, scope@.envs.len() as int, scope@.atoms.len() as int);
    }
    LispValue::List(copied)
}

/// Meta-evaluation: evaluate the argument, then evaluate the result once
/// more in the root scope.
pub fn apply_eval(list: &List, scope: &mut Scope, env: usize, fuel: u64) -> (r: LispValue)
    requires
        wf_scope(old(scope)@),
        wf_vals(list@, old(scope)@.envs.len() as int, old(scope)@.atoms.len() as int),
        env < old(scope)@.envs.len(),
    ensures
        wf_scope(final(scope)@),
        old(scope)@.envs.len() <= final(scope)@.envs.len(),
        old(scope)@.atoms.len() <= final(scope)@.atoms.len(),
        wf_val(r@, final(scope)@.envs.len() as int, final(scope)@.atoms.len() as int),
        (final(scope)@, r@) == spec_apply_eval(old(scope)@, list@, env as int, fuel as nat),
    decreases fuel, 1int, 0int,
{
    if fuel == 0 {
        return LispValue::Error("evaluation depth exceeded".to_owned());
    }
    if list.len() != 2 {
        return LispValue::Error("eval can only be called on a single item".to_owned());
    }
    proof {
        lemma_wf_vals(list@, old(scope)@.envs.len() as int, old(scope)@.atoms.len() as int);
    }
    let first_result = eval_ast(list.get(1), scope, env, fuel - 1);
    let root = scope.root(env);
    eval_ast(&first_result, scope, root, fuel - 1)
}

/// Append the rendering of a value, following cells up to `fuel` reads.
pub fn render(v: &LispValue, scope: &Scope, fuel: u64, out: &mut Vec<char>)
    ensures
        final(out)@ == old(out)@ + render_val(scope@, v@, fuel as nat),
    decreases fuel, *v, 0int,
{
    match v {
        LispValue::Int(i) => {
            let s = int_to_string(*i);
            push_chars(out, s.as_str());
        },
        LispValue::Error(m) => {
            push_chars(out, "error - ");
            let mc = string_to_chars(m.as_str());
            let mut k: usize = 0;
            proof {
                assert(out@ =~= old(out)@ + "error - "@ + mc@.subrange(0, 0));
            }
            while k < mc.len()
                invariant
                    k <= mc@.len(),
                    mc@ == m@,
                    out@ == old(out)@ + "error - "@ + mc@.subrange(0, k as int),
                decreases mc@.len() - k,
            {
                out.push(mc[k]);
                k += 1;
                proof {
                    assert(out@ =~= old(out)@ + "error - "@ + mc@.subrange(0, k as int));
                }
            }
            proof {
                assert(out@ =~= old(out)@ + ("error - "@ + m@));
            }
        },
        LispValue::Boolean(b) => {
            if *b {
                push_chars(out, "true");
            } else {
                push_chars(out, "false");
            }
        },
        LispValue::Nil => {
            push_chars(out, "nil");
        },
        LispValue::Function(_) => {
            push_chars(out, "#<lambda>");
        },
        LispValue::Macro(_) => {
            push_chars(out, "#<lambda>");
        },
        LispValue::Str(t) => {
            let tc = string_to_chars(t.as_str());
            let mut k: usize = 0;
            proof {
                assert(out@ =~= old(out)@ + tc@.subrange(0, 0));
            }
            while k < tc.len()
                invariant
                    k <= tc@.len(),
                    tc@ == t@,
                    out@ == old(out)@ + tc@.subrange(0, k as int),
                decreases tc@.len() - k,
            {
                out.push(tc[k]);
                k += 1;
                proof {
                    assert(out@ =~= old(out)@ + tc@.subrange(0, k as int));
                }
            }
            proof {
                assert(out@ =~= old(out)@ + t@);
            }
        },
        LispValue::Unit(u) => {
            let token = u.token();
            match token.get_type() {
                TokenType::Text => push_chars(out, "string"),
                TokenType::SpecialOne => push_chars(out, "special"),
                TokenType::SpecialTwo => push_chars(out, "special_two"),
                TokenType::Comment => push_chars(out, "comment"),
                TokenType::Symbol => push_chars(out, "symbol"),
            }
            push_chars(out, ": ");
            let tc = string_to_chars(token.get_text().as_str());
            let ghost pre = crate::semantics::kind_prefix(u@.kind) + ": "@;
            let mut k: usize = 0;
            proof {
                assert(out@ =~= old(out)@ + pre + tc@.subrange(0, 0));
            }
            while k < tc.len()
                invariant
                    k <= tc@.len(),
                    tc@ == u@.text,
                    pre == crate::semantics::kind_prefix(u@.kind) + ": "@,
                    out@ == old(out)@ + pre + tc@.subrange(0, k as int),
                decreases tc@.len() - k,
            {
                out.push(tc[k]);
                k += 1;
                proof {
                    assert(out@ =~= old(out)@ + pre + tc@.subrange(0, k as int));
                }
            }
            proof {
                assert(out@ =~= old(out)@ + (crate::semantics::kind_prefix(u@.kind) + ": "@
                    + u@.text));
            }
        },
        LispValue::List(l) => {
            out.push('(');
            let ghost itemsv = l@;
            let ghost base = old(out)@;
            let n = l.items.len();
            proof {
                lemma_views_of(l.items@);
                assert(itemsv.skip(0) =~= itemsv);
                assert(out@ =~= base + seq!['(']);
            }
            let mut k: usize = 0;
            while k < n
                invariant
                    *v == LispValue::List(*l),
                    base == old(out)@,
                    itemsv == l@,
                    n == l.items@.len(),
                    n == itemsv.len(),
                    k <= n,
                    out@ + render_items(scope@, itemsv.skip(k as int), fuel as nat) == base + seq![
                        '(',
                    ] + render_items(scope@, itemsv, fuel as nat),
                decreases n - k,
            {
                proof {
                    lemma_views_of(l.items@);
                    assert(decreases_to!(*v => v->List_0));
                    assert(v->List_0 == *l);
                    assert(decreases_to!(*l => l.items));
                    assert(decreases_to!(l.items => l.items@));
                    assert(decreases_to!(l.items@ => l.items@[k as int]));
                    assert(decreases_to!(*v => l.items@[k as int]));
                }
                render(&l.items[k], scope, fuel, out);
                push_chars(out, ", ");
                proof {
                    assert(itemsv.skip(k as int)[0] == itemsv[k as int]);
                    assert(itemsv.skip(k as int).drop_first() =~= itemsv.skip(k + 1));
                    assert(render_items(scope@, itemsv.skip(k as int), fuel as nat) == render_val(
                        scope@,
                        itemsv[k as int],
                        fuel as nat,
                    ) + ", "@ + render_items(scope@, itemsv.skip(k + 1), fuel as nat));
                }
                k += 1;
            }
            out.push(')');
            proof {
                assert(itemsv.skip(n as int) =~= Seq::<SpecVal>::empty());
                assert(render_items(scope@, itemsv.skip(n as int), fuel as nat)
                    =~= Seq::<char>::empty());
                assert(out@ =~= base + render_val(scope@, SpecVal::List(itemsv), fuel as nat));
            }
        },
        LispValue::Atom(id) => {
            push_chars(out, "Atom <");
            if fuel > 0 && *id < scope.atom_count() {
                let content = scope.atom_read(*id);
                render(&content, scope, fuel - 1, out);
                push_chars(out, ">");
                proof {
                    assert(out@ =~= old(out)@ + ("Atom <"@ + render_val(
                        scope@,
                        scope@.atoms[*id as int],
                        (fuel - 1) as nat,
                    ) + ">"@));
                }
            } else {
                push_chars(out, "...>");
                proof {
                    assert("Atom <"@ + "...>"@ =~= "Atom <...>"@) by {
                        reveal_strlit("Atom <");
                        reveal_strlit("...>");
                        reveal_strlit("Atom <...>");
                    }
                    assert(out@ =~= old(out)@ + "Atom <...>"@);
                }
            }
        },
    }
}

/// Relies on writeln to standard output: prints the line; nothing is
/// promised of the write.
#[verifier::external_body]
fn print_line(s: &String) {
    let _ = writeln!(std::io::stdout(), "{}", s);
}

/// Join the evaluated arguments' renderings with spaces.
pub fn apply_str(list: &List, scope: &mut Scope, env: usize, fuel: u64) -> (r: LispValue)
    requires
        wf_scope(old(scope)@),
        wf_vals(list@, old(scope)@.envs.len() as int, old(scope)@.atoms.len() as int),
        env < old(scope)@.envs.len(),
    ensures
        wf_scope(final(scope)@),
        old(scope)@.envs.len() <= final(scope)@.envs.len(),
        old(scope)@.atoms.len() <= final(scope)@.atoms.len(),
        wf_val(r@, final(scope)@.envs.len() as int, final(scope)@.atoms.len() as int),
        (final(scope)@, r@) == spec_apply_str(old(scope)@, list@, env as int, fuel as nat),
    decreases fuel, 1int, 0int,
{
    if fuel == 0 {
        return LispValue::Error("evaluation depth exceeded".to_owned());
    }
    let ghost s0 = old(scope)@;
    let mut out: Vec<char> = Vec::new();
    let n = list.len();
    let mut i: usize = 1;
    proof {
        assert(out@ =~= Seq::<char>::empty());
    }
    while i < n
        invariant
            s0 == old(scope)@,
            wf_scope(scope@),
            wf_vals(list@, scope@.envs.len() as int, scope@.atoms.len() as int),
            n == list@.len(),
            1 <= i,
            i <= n || n <= 1,
            env < scope@.envs.len(),
            s0.envs.len() <= scope@.envs.len(),
            s0.atoms.len() <= scope@.atoms.len(),
            fuel >= 1,
            spec_str_walk(s0, list@, 1, Seq::empty(), env as int, fuel as nat) == spec_str_walk(
                scope@,
                list@,
                i as int,
                out@,
                env as int,
                fuel as nat,
            ),
        decreases n - i,
    {
        proof {
            lemma_wf_vals(list@, scope@.envs.len() as int, scope@.atoms.len() as int);
        }
        let ghost s_before = scope@;
        let converted = eval_ast(list.get(i), scope, env, fuel - 1);
        proof {
            lemma_wf_vals_grow(
                list@,
                s_before.envs.len() as int,
                s_before.atoms.len() as int,
                scope@.envs.len() as int,
                scope@.atoms.len() as int,
            );
        }
        let ghost out_before = out@;
        render(&converted, scope, fuel, &mut out);
        out.push(' ');
        proof {
            assert(out@ =~= out_before + render_val(scope@, converted@, fuel as nat) + seq![' ']);
        }
        i += 1;
    }
    let _ = out.pop();
    LispValue::Str(chars_to_string(&out))
}

/// Read the evaluated string argument as a form.
pub fn apply_read_string(list: &List, scope: &mut Scope, env: usize, fuel: u64) -> (r: LispValue)
    requires
        wf_scope(old(scope)@),
        wf_vals(list@, old(scope)@.envs.len() as int, old(scope)@.atoms.len() as int),
        env < old(scope)@.envs.len(),
    ensures
        wf_scope(final(scope)@),
        old(scope)@.envs.len() <= final(scope)@.envs.len(),
        old(scope)@.atoms.len() <= final(scope)@.atoms.len(),
        wf_val(r@, final(scope)@.envs.len() as int, final(scope)@.atoms.len() as int),
        (final(scope)@, r@) == spec_apply_read_string(old(scope)@, list@, env as int, fuel as nat),
    decreases fuel, 1int, 0int,
{
    if fuel == 0 {
        return LispValue::Error("evaluation depth exceeded".to_owned());
    }
    if list.len() != 2 {
        return LispValue::Error("read_string takes a single argument".to_owned());
    }
    proof {
        lemma_wf_vals(list@, old(scope)@.envs.len() as int, old(scope)@.atoms.len() as int);
    }
    let second = eval_ast(list.get(1), scope, env, fuel - 1);
    match second {
        LispValue::Str(s) => {
            let ghost text = s@;
            proof {
                crate::parser::lemma_spec_read_wf(
                    text,
                    scope@.envs.len() as int,
                    scope@.atoms.len() as int,
                );
            }
            let tokenizer = crate::tokenizer::Tokenizer::new();
            match crate::parser::try_read_string(&tokenizer, s) {
                Some(v) => v,
                None => LispValue::Error("no input to read".to_owned()),
            }
        },
        _ => LispValue::Error("read string needs a string argument".to_owned()),
    }
}

/// Evaluate and print the argument; the value of the form is nil.
pub fn apply_prn(list: &List, scope: &mut Scope, env: usize, fuel: u64) -> (r: LispValue)
    requires
        wf_scope(old(scope)@),
        wf_vals(list@, old(scope)@.envs.len() as int, old(scope)@.atoms.len() as int),
        env < old(scope)@.envs.len(),
    ensures
        wf_scope(final(scope)@),
        old(scope)@.envs.len() <= final(scope)@.envs.len(),
        old(scope)@.atoms.len() <= final(scope)@.atoms.len(),
        wf_val(r@, final(scope)@.envs.len() as int, final(scope)@.atoms.len() as int),
        (final(scope)@, r@) == spec_apply_prn(old(scope)@, list@, env as int, fuel as nat),
    decreases fuel, 1int, 0int,
{
    if fuel == 0 {
        return LispValue::Error("evaluation depth exceeded".to_owned());
    }
    if list.len() != 2 {
        return LispValue::Error("prn takes a single argument".to_owned());
    }
    proof {
        lemma_wf_vals(list@, old(scope)@.envs.len() as int, old(scope)@.atoms.len() as int);
    }
    let v = eval_ast(list.get(1), scope, env, fuel - 1);
    let mut out: Vec<char> = Vec::new();
    render(&v, scope, fuel, &mut out);
    let line = chars_to_string(&out);
    print_line(&line);
    LispValue::Nil
}

} // verus!
