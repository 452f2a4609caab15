//! List construction: prepending to a list and concatenating lists.
use vstd::prelude::*;

use crate::ast::{
    lemma_views_of, lemma_wf_vals, lemma_wf_vals_grow, views_of, wf_val, wf_vals, LispValue, List,
    SpecVal,
};
use crate::env::{wf_scope, Scope};
use crate::eval::eval_ast;
use crate::semantics::{spec_apply_cons, spec_apply_concat, spec_concat_walk};

verus! {

/// Prepend the evaluated head to the evaluated tail list.  The tail is
/// evaluated first and must be a list before the head is evaluated at all.
pub fn apply_cons(list: &List, scope: &mut Scope, env: usize, fuel: u64) -> (r: LispValue)
    requires
        wf_scope(old(scope)@),
        wf_vals(list@, old(scope)@.envs.len() as int, old(scope)@.atoms.len() as int),
        env < old(scope)@.envs.len(),
    ensures
        wf_scope(final(scope)@),
        old(scope)@.envs.len() <= final(scope)@.envs.len(),
        old(scope)@.atoms.len() <= final(scope)@.atoms.len(),
        wf_val(r@, final(scope)@.envs.len() as int, final(scope)@.atoms.len() as int),
        (final(scope)@, r@) == spec_apply_cons(old(scope)@, list@, env as int, fuel as nat),
    decreases fuel, 1int, 0int,
{
    if fuel == 0 {
        return LispValue::Error("evaluation depth exceeded".to_owned());
    }
    if list.len() != 3 {
        return LispValue::Error("cons takes exactly 2 arguments".to_owned());
    }
    let ghost s0 = old(scope)@;
    proof {
        lemma_wf_vals(list@, s0.envs.len() as int, s0.atoms.len() as int);
    }
    let tail = eval_ast(list.get(2), scope, env, fuel - 1);
    proof {
        lemma_wf_vals_grow(
            list@,
            s0.envs.len() as int,
            s0.atoms.len() as int,
            scope@.envs.len() as int,
            scope@.atoms.len() as int,
        );
        lemma_wf_vals(list@, scope@.envs.len() as int, scope@.atoms.len() as int);
    }
    match tail {
        LispValue::List(l) => {
            let ghost s1 = scope@;
            let ghost tailv = views_of(l.items@);
            let head = eval_ast(list.get(1), scope, env, fuel - 1);
            let mut out = List::new();
            let ghost headv = head@;
            out.push(head);
            let n = l.items.len();
            proof {
                lemma_views_of(l.items@);
                assert(out@ =~= seq![headv] + tailv.subrange(0, 0));
            }
            let mut i: usize = 0;
            while i < n
                invariant
                    n == l.items@.len(),
                    tailv == views_of(l.items@),
                    tailv.len() == n,
                    i <= n,
                    out@ == seq![headv] + tailv.subrange(0, i as int),
                decreases n - i,
            {
                proof {
                    lemma_views_of(l.items@);
                }
                out.push(l.items[i].duplicate());
                i += 1;
                proof {
                    assert(out@ =~= seq![headv] + tailv.subrange(0, i as int));
                }
            }
            proof {
                assert(tailv.subrange(0, n as int) =~= tailv);
                lemma_wf_vals(tailv, s1.envs.len() as int, s1.atoms.len() as int);
                lemma_wf_vals_grow(
                    tailv,
                    s1.envs.len() as int,
                    s1.atoms.len() as int,
                    scope@.envs.len() as int,
                    scope@.atoms.len() as int,
                );
                lemma_wf_vals(tailv, scope@.envs.len() as int, scope@.atoms.len() as int);
                lemma_wf_vals(out@, scope@.envs.len() as int, scope@.atoms.len() as int);
            }
            LispValue::List(out)
        },
        _ => LispValue::Error("second argument to cons needs to be list".to_owned()),
    }
}

/// Concatenate the evaluated arguments; every one of them must be a list.
pub fn apply_concat(list: &List, scope: &mut Scope, env: usize, fuel: u64) -> (r: LispValue)
    requires
        wf_scope(old(scope)@),
        wf_vals(list@, old(scope)@.envs.len() as int, old(scope)@.atoms.len() as int),
        env < old(scope)@.envs.len(),
    ensures
        wf_scope(final(scope)@),
        old(scope)@.envs.len() <= final(scope)@.envs.len(),
        old(scope)@.atoms.len() <= final(scope)@.atoms.len(),
        wf_val(r@, final(scope)@.envs.len() as int, final(scope)@.atoms.len() as int),
        (final(scope)@, r@) == spec_apply_concat(old(scope)@, list@, env as int, fuel as nat),
    decreases fuel, 1int, 0int,
{
    if fuel == 0 {
        return LispValue::Error("evaluation depth exceeded".to_owned());
    }
    let ghost s0 = old(scope)@;
    let mut out = List::new();
    let n = list.len();
    let mut i: usize = 1;
    proof {
        assert(out@ =~= Seq::<SpecVal>::empty());
    }
    while i < n
        invariant
            s0 == old(scope)@,
            wf_scope(scope@),
            wf_vals(list@, scope@.envs.len() as int, scope@.atoms.len() as int),
            wf_vals(out@, scope@.envs.len() as int, scope@.atoms.len() as int),
            n == list@.len(),
            1 <= i,
            i <= n || n <= 1,
            env < scope@.envs.len(),
            s0.envs.len() <= scope@.envs.len(),
            s0.atoms.len() <= scope@.atoms.len(),
            fuel >= 1,
            spec_apply_concat(s0, list@, env as int, fuel as nat) == spec_concat_walk(
                scope@,
                list@,
                i as int,
                out@,
                env as int,
                fuel as nat,
            ),
        decreases n - i,
    {
        proof {
            lemma_wf_vals(list@, scope@.envs.len() as int, scope@.atoms.len() as int);
        }
        let ghost s_before = scope@;
        let ghost out_before = out@;
        let v = eval_ast(list.get(i), scope, env, fuel - 1);
        proof {
            lemma_wf_vals_grow(
                list@,
                s_before.envs.len() as int,
                s_before.atoms.len() as int,
                scope@.envs.len() as int,
                scope@.atoms.len() as int,
            );
            lemma_wf_vals_grow(
                out_before,
                s_before.envs.len() as int,
                s_before.atoms.len() as int,
                scope@.envs.len() as int,
                scope@.atoms.len() as int,
            );
        }
        match v {
            LispValue::List(l) => {
                let m = l.items.len();
                proof {
                    lemma_views_of(l.items@);
                    lemma_wf_vals(views_of(l.items@), scope@.envs.len() as int, scope@.atoms.len() as int);
                    lemma_wf_vals(out@, scope@.envs.len() as int, scope@.atoms.len() as int);
                    assert(out@ + views_of(l.items@).subrange(0, 0) =~= out@);
                }
                let ghost base = out@;
                let ghost lv = views_of(l.items@);
                let mut j: usize = 0;
                while j < m
                    invariant
                        m == l.items@.len(),
                        lv == views_of(l.items@),
                        lv.len() == m,
                        j <= m,
                        out@ == base + lv.subrange(0, j as int),
                    decreases m - j,
                {
                    proof {
                        lemma_views_of(l.items@);
                    }
                    out.push(l.items[j].duplicate());
                    j += 1;
                    proof {
                        assert(out@ =~= base + lv.subrange(0, j as int));
                    }
                }
                proof {
                    assert(base + lv.subrange(0, m as int) =~= base + lv);
                    lemma_wf_vals(lv, scope@.envs.len() as int, scope@.atoms.len() as int);
                    lemma_wf_vals(out@, scope@.envs.len() as int, scope@.atoms.len() as int);
                }
            },
            _ => {
                return LispValue::Error("every argument to concat must be a list".to_owned());
            },
        }
        i += 1;
    }
    proof {
        lemma_wf_vals(out@, scope@.envs.len() as int, scope@.atoms.len() as int);
    }
    LispValue::List(out)
}

} // verus!
