//! The file-reading builtin.  Reading files is host work: the evaluator
//! exchanges it with the host through the store's file table.  A path whose
//! outcome the host has supplied yields the file's text, or the host's own
//! failure message; a path not yet read is requested, and the host answers
//! with [`crate::env::Scope::supply_file`] before the next attempt.
use vstd::prelude::*;

use crate::ast::{lemma_wf_vals, wf_val, wf_vals, LispValue, List};
use crate::env::{wf_scope, FileRead, Scope};
use crate::eval::eval_ast;
use crate::semantics::{scope_request_file, spec_apply_slurp};

verus! {

/// Evaluate the filename argument and resolve the read through the store's
/// file table.
pub fn apply_slurp(list: &List, scope: &mut Scope, env: usize, fuel: u64) -> (r: LispValue)
    requires
        wf_scope(old(scope)@),
        wf_vals(list@, old(scope)@.envs.len() as int, old(scope)@.atoms.len() as int),
        env < old(scope)@.envs.len(),
    ensures
        wf_scope(final(scope)@),
        old(scope)@.envs.len() <= final(scope)@.envs.len(),
        old(scope)@.atoms.len() <= final(scope)@.atoms.len(),
        wf_val(r@, final(scope)@.envs.len() as int, final(scope)@.atoms.len() as int),
        (final(scope)@, r@) == spec_apply_slurp(old(scope)@, list@, env as int, fuel as nat),
    decreases fuel, 1int, 0int,
{
    if fuel == 0 {
        return LispValue::Error("evaluation depth exceeded".to_owned());
    }
    if list.len() != 2 {
        return LispValue::Error("slurp takes only one argument".to_owned());
    }
    proof {
        lemma_wf_vals(list@, old(scope)@.envs.len() as int, old(scope)@.atoms.len() as int);
    }
    let v = eval_ast(list.get(1), scope, env, fuel - 1);
    match v {
        LispValue::Error(m) => LispValue::Error(m),
        LispValue::Str(path) => {
            let ghost pathv = path@;
            match scope.file_get(&path) {
                Some(FileRead::Content(text)) => LispValue::Str(text),
                Some(FileRead::Failure(m)) => LispValue::Error(m),
                None => {
                    let ghost s1 = scope@;
                    scope.request_file(path);
                    proof {
                        assert(scope@ =~~= scope_request_file(s1, pathv));
                    }
                    LispValue::Error("slurp: file not read yet".to_owned())
                },
            }
        },
        _ => LispValue::Error("slurp needs a filename!".to_owned()),
    }
}

} // verus!
