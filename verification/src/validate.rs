//! The checks a configuration must pass before a script is made from it.
use vstd::prelude::*;

use crate::config::{
    dup_string, effective_pane, effective_pane_spec, first_task_index, tasks_view, Config,
    PaneSpec, SpecConfig, SpecPane, SpecTask,
};
use crate::env::{check_name, env_name_check};
use crate::error::{res_view, DevoError, SpecError};
use crate::order::{pane_base, pane_order, topo_sort};
use crate::text::to_chars;

verus! {

/// The first refusal among the variable names, in order.
pub open spec fn env_names_check(names: Seq<Seq<char>>) -> Result<(), SpecError>
    decreases names.len(),
{
    if names.len() == 0 {
        Ok(())
    } else {
        match env_name_check(names[0]) {
            Err(e) => Err(e),
            Ok(_) => env_names_check(names.drop_first()),
        }
    }
}

/// Some task is called `id`.
pub open spec fn has_task_id(tasks: Seq<SpecTask>, id: Seq<char>) -> bool {
    exists|i: int| 0 <= i < tasks.len() && tasks[i].id == id
}

/// Task `j` repeats the id of an earlier task, and no task before it does.
pub open spec fn is_first_duplicate(tasks: Seq<SpecTask>, j: int) -> bool {
    &&& 0 <= j < tasks.len()
    &&& exists|i: int| 0 <= i < j && tasks[i].id == tasks[j].id
    &&& forall|k: int, i: int| 0 <= i < k < j ==> tasks[i].id != tasks[k].id
}

/// Task `i` uses the root pane.
#[verifier::opaque]
pub open spec fn is_root_at(cfg: SpecConfig, i: int) -> bool {
    effective_pane(cfg, cfg.tasks[i]) matches Ok(SpecPane::Root)
}

/// How many of the first `n` tasks use the root pane.
pub open spec fn root_count_upto(cfg: SpecConfig, n: int) -> nat
    decreases n,
{
    if n <= 0 {
        0
    } else {
        root_count_upto(cfg, n - 1) + if is_root_at(cfg, n - 1) {
            1nat
        } else {
            0nat
        }
    }
}

/// How many tasks use the root pane.
pub open spec fn root_count(cfg: SpecConfig) -> nat {
    root_count_upto(cfg, cfg.tasks.len() as int)
}

/// From task `k` on, the first task whose pane cannot be read or is placed
/// next to an unknown task.
pub open spec fn pane_refs_check(cfg: SpecConfig, k: int) -> Result<(), SpecError>
    decreases cfg.tasks.len() - k,
{
    if k < 0 || k >= cfg.tasks.len() {
        Ok(())
    } else {
        match effective_pane(cfg, cfg.tasks[k]) {
            Err(e) => Err(e),
            Ok(p) => match pane_base(p) {
                None => pane_refs_check(cfg, k + 1),
                Some(b) => if has_task_id(cfg.tasks, b) {
                    pane_refs_check(cfg, k + 1)
                } else {
                    Err(SpecError::UnknownPaneBase(cfg.tasks[k].id, b))
                },
            },
        }
    }
}

/// What checking a configuration gives: the first of these that fails,
/// in this order: there are tasks; the variable names to pass on are
/// valid; task ids are distinct; exactly one task uses the root pane; every
/// pane can be read and names a known task; `focus` names a task; the
/// panes can be ordered.
pub open spec fn config_check(cfg: SpecConfig) -> Result<(), SpecError> {
    if cfg.tasks.len() == 0 {
        Err(SpecError::EmptyTasks)
    } else {
        match env_names_check(cfg.inherit_env) {
            Err(e) => Err(e),
            Ok(_) => {
                if exists|j: int| is_first_duplicate(cfg.tasks, j) {
                    let j = choose|j: int| is_first_duplicate(cfg.tasks, j);
                    Err(SpecError::DuplicateTaskId(cfg.tasks[j].id))
                } else if root_count(cfg) != 1 {
                    Err(SpecError::RootCount(root_count(cfg)))
                } else {
                    match pane_refs_check(cfg, 0) {
                        Err(e) => Err(e),
                        Ok(_) => {
                            if cfg.focus is Some && !has_task_id(cfg.tasks, cfg.focus->Some_0) {
                                Err(SpecError::UnknownFocus(cfg.focus->Some_0))
                            } else {
                                match pane_order(cfg) {
                                    Err(e) => Err(e),
                                    Ok(_) => Ok(()),
                                }
                            }
                        },
                    }
                }
            },
        }
    }
}

fn check_env_names(names: &Vec<String>) -> (res: Result<(), DevoError>)
    ensures
        res_view(res, |u: ()| u) == env_names_check(names@.map_values(|s: String| s@)),
{
    let ghost all = names@.map_values(|s: String| s@);
    let mut i: usize = 0;
    assert(all.skip(0) == all);
    while i < names.len()
        invariant
            i <= names.len(),
            all == names@.map_values(|s: String| s@),
            env_names_check(all) == env_names_check(all.skip(i as int)),
        decreases names.len() - i,
    {
        let cs = to_chars(names[i].as_str());
        assert(all.skip(i as int)[0] == cs@);
        assert(all.skip(i as int).drop_first() == all.skip(i + 1));
        match check_name(cs.as_slice()) {
            Err(e) => {
                return Err(e);
            },
            Ok(()) => {},
        }
        i = i + 1;
    }
    Ok(())
}

/// Position of the first task repeating an earlier id, or `tasks.len()`.
fn first_duplicate(tasks: &Vec<crate::config::Task>) -> (res: usize)
    ensures
        res <= tasks.len(),
        res < tasks.len() ==> is_first_duplicate(tasks_view(tasks@), res as int),
        res == tasks.len() ==> !exists|j: int| is_first_duplicate(tasks_view(tasks@), j),
{
    let ghost ts = tasks_view(tasks@);
    let mut j: usize = 0;
    while j < tasks.len()
        invariant
            j <= tasks.len(),
            ts == tasks_view(tasks@),
            forall|k: int, i: int| 0 <= i < k < j ==> ts[i].id != ts[k].id,
        decreases tasks.len() - j,
    {
        let mut i: usize = 0;
        while i < j
            invariant
                i <= j < tasks.len(),
                ts == tasks_view(tasks@),
                forall|k: int, l: int| 0 <= l < k < j ==> ts[l].id != ts[k].id,
                forall|l: int| 0 <= l < i ==> ts[l].id != ts[j as int].id,
            decreases j - i,
        {
            if tasks[i].id == tasks[j].id {
                assert(ts[i as int].id == ts[j as int].id);
                return j;
            }
            i = i + 1;
        }
        j = j + 1;
    }
    proof {
        assert forall|j: int| !is_first_duplicate(ts, j) by {
            if is_first_duplicate(ts, j) {
                let i = choose|i: int| 0 <= i < j && ts[i].id == ts[j].id;
            }
        }
    }
    tasks.len()
}

/// Whether some task is called `id`.
pub(crate) fn task_id_known(tasks: &Vec<crate::config::Task>, id: &String) -> (res: bool)
    ensures
        res == has_task_id(tasks_view(tasks@), id@),
{
    let i = first_task_index(tasks, id);
    proof {
        if i == tasks.len() {
            assert forall|j: int| 0 <= j < tasks.len() implies tasks_view(tasks@)[j].id != id@ by {
                assert(tasks_view(tasks@)[j].id == tasks@[j].id@);
            }
        }
    }
    i < tasks.len()
}

fn count_roots(cfg: &Config) -> (res: usize)
    ensures
        res == root_count(cfg@),
{
    let mut count: usize = 0;
    let mut i: usize = 0;
    while i < cfg.tasks.len()
        invariant
            i <= cfg.tasks.len(),
            count == root_count_upto(cfg@, i as int),
            count <= i,
        decreases cfg.tasks.len() - i,
    {
        proof {
            reveal(is_root_at);
        }
        match effective_pane_spec(cfg, &cfg.tasks[i]) {
            Ok(PaneSpec::Root) => {
                count = count + 1;
            },
            _ => {},
        }
        i = i + 1;
    }
    count
}

fn check_pane_refs(cfg: &Config) -> (res: Result<(), DevoError>)
    ensures
        res_view(res, |u: ()| u) == pane_refs_check(cfg@, 0),
{
    let mut i: usize = 0;
    while i < cfg.tasks.len()
        invariant
            i <= cfg.tasks.len(),
            pane_refs_check(cfg@, 0) == pane_refs_check(cfg@, i as int),
        decreases cfg.tasks.len() - i,
    {
        match effective_pane_spec(cfg, &cfg.tasks[i]) {
            Err(e) => {
                return Err(e);
            },
            Ok(PaneSpec::Root) => {},
            Ok(PaneSpec::RightOf(base)) | Ok(PaneSpec::DownOf(base)) => {
                if !task_id_known(&cfg.tasks, &base) {
                    return Err(DevoError::UnknownPaneBase(dup_string(&cfg.tasks[i].id), base));
                }
            },
        }
        i = i + 1;
    }
    Ok(())
}

/// Checks a configuration; see `config_check`.
pub fn validate_config(cfg: &Config) -> (res: Result<(), DevoError>)
    ensures
        res_view(res, |u: ()| u) == config_check(cfg@),
{
    if cfg.tasks.len() == 0 {
        return Err(DevoError::EmptyTasks);
    }
    match check_env_names(&cfg.inherit_env) {
        Err(e) => {
            return Err(e);
        },
        Ok(()) => {},
    }
    let d = first_duplicate(&cfg.tasks);
    if d < cfg.tasks.len() {
        proof {
            let j = choose|j: int| is_first_duplicate(cfg@.tasks, j);
            if j < d {
                let i = choose|i: int| 0 <= i < j && cfg@.tasks[i].id == cfg@.tasks[j].id;
            } else if d < j {
                let i = choose|i: int| 0 <= i < d && cfg@.tasks[i].id == cfg@.tasks[d as int].id;
            }
        }
        return Err(DevoError::DuplicateTaskId(dup_string(&cfg.tasks[d].id)));
    }
    let roots = count_roots(cfg);
    if roots != 1 {
        return Err(DevoError::RootCount(roots));
    }
    match check_pane_refs(cfg) {
        Err(e) => {
            return Err(e);
        },
        Ok(()) => {},
    }
    match &cfg.focus {
        Some(focus) => {
            if !task_id_known(&cfg.tasks, focus) {
                return Err(DevoError::UnknownFocus(dup_string(focus)));
            }
        },
        None => {},
    }
    match topo_sort(cfg) {
        Err(e) => Err(e),
        Ok(_) => Ok(()),
    }
}

proof fn lemma_env_names_check_ok(names: Seq<Seq<char>>)
    requires
        env_names_check(names) is Ok,
    ensures
        forall|k: int| 0 <= k < names.len() ==> crate::env::valid_env_name(#[trigger] names[k]),
    decreases names.len(),
{
    if names.len() > 0 {
        lemma_env_names_check_ok(names.drop_first());
        assert forall|k: int| 0 <= k < names.len() implies crate::env::valid_env_name(
            #[trigger] names[k],
        ) by {
            if k > 0 {
                assert(names[k] == names.drop_first()[k - 1]);
            }
        }
    }
}

/// A configuration passes the checks only if every variable name it passes
/// on is non-empty, starts with an ASCII letter or `_`, and holds only
/// ASCII letters, digits and `_`.
pub proof fn lemma_checked_env_names_are_valid(cfg: SpecConfig)
    requires
        config_check(cfg) is Ok,
    ensures
        forall|k: int|
            0 <= k < cfg.inherit_env.len() ==> {
                let n = #[trigger] cfg.inherit_env[k];
                &&& n.len() > 0
                &&& ('a' <= n[0] && n[0] <= 'z') || ('A' <= n[0] && n[0] <= 'Z') || n[0] == '_'
                &&& forall|i: int|
                    0 <= i < n.len() ==> ('a' <= #[trigger] n[i] && n[i] <= 'z') || ('A' <= n[i]
                        && n[i] <= 'Z') || ('0' <= n[i] && n[i] <= '9') || n[i] == '_'
            },
{
    lemma_env_names_check_ok(cfg.inherit_env);
    assert forall|k: int| 0 <= k < cfg.inherit_env.len() implies {
        let n = #[trigger] cfg.inherit_env[k];
        &&& n.len() > 0
        &&& ('a' <= n[0] && n[0] <= 'z') || ('A' <= n[0] && n[0] <= 'Z') || n[0] == '_'
        &&& forall|i: int|
            0 <= i < n.len() ==> ('a' <= #[trigger] n[i] && n[i] <= 'z') || ('A' <= n[i] && n[i]
                <= 'Z') || ('0' <= n[i] && n[i] <= '9') || n[i] == '_'
    } by {
        let n = cfg.inherit_env[k];
        assert(crate::env::valid_env_name(n));
        assert forall|i: int| 0 <= i < n.len() implies ('a' <= #[trigger] n[i] && n[i] <= 'z')
            || ('A' <= n[i] && n[i] <= 'Z') || ('0' <= n[i] && n[i] <= '9') || n[i] == '_' by {
            assert(crate::quote::is_ascii_alnum(n[i]) || n[i] == '_');
        }
    }
}

proof fn lemma_root_count_upto(cfg: SpecConfig, n: int)
    requires
        0 <= n <= cfg.tasks.len(),
    ensures
        root_count_upto(cfg, n) == 0 ==> forall|i: int| 0 <= i < n ==> !#[trigger] is_root_at(cfg, i),
        root_count_upto(cfg, n) == 1 ==> exists|r: int|
            0 <= r < n && #[trigger] is_root_at(cfg, r) && forall|i: int|
                0 <= i < n && i != r ==> !#[trigger] is_root_at(cfg, i),
    decreases n,
{
    if n > 0 {
        lemma_root_count_upto(cfg, n - 1);
        if is_root_at(cfg, n - 1) {
            if root_count_upto(cfg, n) == 1 {
                assert(is_root_at(cfg, n - 1));
            }
        } else if root_count_upto(cfg, n) == 1 {
            let r = choose|r: int|
                0 <= r < n - 1 && #[trigger] is_root_at(cfg, r) && forall|i: int|
                    0 <= i < n - 1 && i != r ==> !#[trigger] is_root_at(cfg, i);
            assert(is_root_at(cfg, r));
        }
    }
}

proof fn lemma_pane_refs_check(cfg: SpecConfig, k: int)
    requires
        0 <= k,
        pane_refs_check(cfg, k) is Ok,
    ensures
        forall|i: int|
            k <= i < cfg.tasks.len() ==> (effective_pane(cfg, #[trigger] cfg.tasks[i]) is Ok
                && match pane_base(effective_pane(cfg, cfg.tasks[i])->Ok_0) {
                None => true,
                Some(b) => has_task_id(cfg.tasks, b),
            }),
    decreases cfg.tasks.len() - k,
{
    if k < cfg.tasks.len() {
        lemma_pane_refs_check(cfg, k + 1);
    }
}

/// What a configuration that passes the checks is: it has tasks, its task
/// ids are distinct, exactly one task uses the root pane, every pane can be
/// read and every base names a task, `focus` names a task, and the panes
/// can be ordered.
pub proof fn lemma_checked_config_shape(cfg: SpecConfig)
    requires
        config_check(cfg) is Ok,
    ensures
        cfg.tasks.len() > 0,
        forall|i: int, j: int|
            0 <= i < j < cfg.tasks.len() ==> cfg.tasks[i].id != cfg.tasks[j].id,
        exists|r: int|
            0 <= r < cfg.tasks.len() && #[trigger] is_root_at(cfg, r) && forall|i: int|
                0 <= i < cfg.tasks.len() && i != r ==> !#[trigger] is_root_at(cfg, i),
        forall|i: int|
            0 <= i < cfg.tasks.len() ==> (effective_pane(cfg, #[trigger] cfg.tasks[i]) is Ok
                && match pane_base(effective_pane(cfg, cfg.tasks[i])->Ok_0) {
                None => true,
                Some(b) => has_task_id(cfg.tasks, b),
            }),
        cfg.focus matches Some(f) ==> has_task_id(cfg.tasks, f),
        pane_order(cfg) is Ok,
{
    let ts = cfg.tasks;
    assert forall|i: int, j: int| 0 <= i < j < ts.len() implies ts[i].id != ts[j].id by {
        if ts[i].id == ts[j].id {
            // the first repeated id gives a duplicate that the check refuses
            let j0 = first_dup_at_or_before(ts, j);
            assert(is_first_duplicate(ts, j0));
        }
    }
    lemma_root_count_upto(cfg, ts.len() as int);
    lemma_pane_refs_check(cfg, 0);
}

/// The first position at or before `j` that repeats an earlier id, given
/// that `j` does.
proof fn first_dup_at_or_before(ts: Seq<SpecTask>, j: int) -> (d: int)
    requires
        0 <= j < ts.len(),
        exists|i: int| 0 <= i < j && ts[i].id == ts[j].id,
    ensures
        0 <= d <= j,
        is_first_duplicate(ts, d),
    decreases j,
{
    if exists|k: int, i: int| 0 <= i < k < j && ts[i].id == ts[k].id {
        let (k, i) = choose|k: int, i: int| 0 <= i < k < j && ts[i].id == ts[k].id;
        first_dup_at_or_before(ts, k)
    } else {
        j
    }
}

} // verus!
