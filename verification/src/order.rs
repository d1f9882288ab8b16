//! The order in which panes are created: a task after the task whose pane
//! it splits, and among the tasks that can go next, the one listed first.
//!
//! Tasks are found by id with a scan of the task list, and the next task
//! is found by scanning for the first ready position, instead of a map
//! keyed by id and an ordered set of ready positions: vstd specifies
//! neither `BTreeSet::pop_first` nor much of a map keyed by `String`, and a
//! scan gives the same order (the smallest ready position comes next) with
//! every step proved. The pane order is defined by `greedy_order` and its
//! properties are proved below.
use vstd::prelude::*;

use crate::config::{
    effective_pane, effective_pane_spec, tasks_view, Config, PaneSpec, SpecConfig, SpecPane,
    SpecTask, Task,
};
use crate::error::{res_view, DevoError, SpecError};

verus! {

/// The task a pane is placed next to, if any.
pub open spec fn pane_base(p: SpecPane) -> Option<Seq<char>> {
    match p {
        SpecPane::Root => None,
        SpecPane::RightOf(b) => Some(b),
        SpecPane::DownOf(b) => Some(b),
    }
}

/// `d` is the last position of a task with this id.
pub open spec fn is_last_with_id(tasks: Seq<SpecTask>, id: Seq<char>, d: int) -> bool {
    &&& 0 <= d < tasks.len()
    &&& tasks[d].id == id
    &&& forall|j: int| d < j < tasks.len() ==> tasks[j].id != id
}

/// The position of the task whose pane task `i` splits (`None` for the root
/// pane); a base id shared by several tasks names the last of them.
pub open spec fn pane_parent(cfg: SpecConfig, i: int) -> Result<Option<int>, SpecError> {
    match effective_pane(cfg, cfg.tasks[i]) {
        Err(e) => Err(e),
        Ok(p) => match pane_base(p) {
            None => Ok(None),
            Some(b) => if exists|d: int| is_last_with_id(cfg.tasks, b, d) {
                Ok(Some(choose|d: int| is_last_with_id(cfg.tasks, b, d)))
            } else {
                Err(SpecError::UnknownPaneReference(b))
            },
        },
    }
}

/// The parents of the first `n` tasks, or the error of the first task that
/// has none.
pub open spec fn parents_upto(cfg: SpecConfig, n: int) -> Result<Seq<Option<int>>, SpecError>
    decreases n,
{
    if n <= 0 {
        Ok(Seq::empty())
    } else {
        match parents_upto(cfg, n - 1) {
            Err(e) => Err(e),
            Ok(ps) => match pane_parent(cfg, n - 1) {
                Err(e) => Err(e),
                Ok(p) => Ok(ps.push(p)),
            },
        }
    }
}

/// The parent of every task.
pub open spec fn pane_parents(cfg: SpecConfig) -> Result<Seq<Option<int>>, SpecError> {
    parents_upto(cfg, cfg.tasks.len() as int)
}

/// Task `i` is not placed yet and its parent, if any, is.
pub open spec fn is_ready(parents: Seq<Option<int>>, placed: Seq<int>, i: int) -> bool {
    &&& 0 <= i < parents.len()
    &&& !placed.contains(i)
    &&& match parents[i] {
        None => true,
        Some(p) => placed.contains(p),
    }
}

/// The first ready task at or after `k`, or `parents.len()`.
pub open spec fn first_ready_from(parents: Seq<Option<int>>, placed: Seq<int>, k: int) -> int
    decreases parents.len() - k,
{
    if k < 0 || k >= parents.len() {
        parents.len() as int
    } else if is_ready(parents, placed, k) {
        k
    } else {
        first_ready_from(parents, placed, k + 1)
    }
}

/// `placed`, then the ready task listed first, again and again until no
/// task is ready.
pub open spec fn greedy_from(parents: Seq<Option<int>>, placed: Seq<int>) -> Seq<int>
    decreases parents.len() - placed.len(),
{
    let r = first_ready_from(parents, placed, 0);
    if placed.len() < parents.len() && r < parents.len() {
        greedy_from(parents, placed.push(r))
    } else {
        placed
    }
}

pub open spec fn greedy_order(parents: Seq<Option<int>>) -> Seq<int> {
    greedy_from(parents, Seq::empty())
}

/// The positions of the tasks in the order their panes are made, or why
/// there is none.
pub open spec fn pane_order(cfg: SpecConfig) -> Result<Seq<int>, SpecError> {
    match pane_parents(cfg) {
        Err(e) => Err(e),
        Ok(ps) => {
            let ord = greedy_order(ps);
            if ord.len() == ps.len() {
                Ok(ord)
            } else {
                Err(SpecError::PaneCycle)
            }
        },
    }
}

/// The tasks in the order their panes are made.
pub open spec fn sorted_tasks(cfg: SpecConfig) -> Result<Seq<SpecTask>, SpecError> {
    match pane_order(cfg) {
        Err(e) => Err(e),
        Ok(ord) => Ok(ord.map_values(|i: int| cfg.tasks[i])),
    }
}

/// Position of the last task whose id is `id`, or `tasks.len()`.
pub fn last_task_index(tasks: &Vec<Task>, id: &String) -> (res: usize)
    ensures
        res <= tasks.len(),
        res < tasks.len() ==> is_last_with_id(tasks_view(tasks@), id@, res as int),
        res == tasks.len() ==> forall|j: int| 0 <= j < tasks.len() ==> tasks@[j].id@ != id@,
{
    let mut i: usize = tasks.len();
    while i > 0
        invariant
            i <= tasks.len(),
            forall|j: int| i <= j < tasks.len() ==> tasks@[j].id@ != id@,
        decreases i,
    {
        if tasks[i - 1].id == *id {
            return i - 1;
        }
        i = i - 1;
    }
    tasks.len()
}

pub open spec fn parents_view(v: Seq<Option<usize>>) -> Seq<Option<int>> {
    v.map_values(
        |o: Option<usize>|
            match o {
                Some(p) => Some(p as int),
                None => None,
            },
    )
}

pub open spec fn indices_view(v: Seq<usize>) -> Seq<int> {
    v.map_values(|k: usize| k as int)
}

/// The parent of every task, or the error of the first task without one.
fn compute_parents(cfg: &Config) -> (res: Result<Vec<Option<usize>>, DevoError>)
    ensures
        res_view(res, |v: Vec<Option<usize>>| parents_view(v@)) == pane_parents(cfg@),
        res matches Ok(v) ==> v.len() == cfg.tasks.len() && forall|i: int|
            0 <= i < v.len() ==> (#[trigger] v@[i] matches Some(p) ==> p < cfg.tasks.len()),
{
    let n = cfg.tasks.len();
    let mut parents: Vec<Option<usize>> = Vec::new();
    let mut i: usize = 0;
    assert(parents_view(parents@) == Seq::<Option<int>>::empty());
    while i < n
        invariant
            n == cfg.tasks.len(),
            i <= n,
            parents.len() == i,
            parents_upto(cfg@, i as int) == Ok::<_, SpecError>(parents_view(parents@)),
            forall|k: int| 0 <= k < i ==> (#[trigger] parents@[k] matches Some(p) ==> p < n),
        decreases n - i,
    {
        let ghost ps = parents_view(parents@);
        match effective_pane_spec(cfg, &cfg.tasks[i]) {
            Err(e) => {
                proof {
                    lemma_parents_upto_err(cfg@, i as int + 1, n as int);
                }
                return Err(e);
            },
            Ok(PaneSpec::Root) => {
                parents.push(None);
            },
            Ok(PaneSpec::RightOf(base)) | Ok(PaneSpec::DownOf(base)) => {
                let d = last_task_index(&cfg.tasks, &base);
                if d == n {
                    proof {
                        assert(!exists|d: int| is_last_with_id(cfg@.tasks, base@, d));
                        lemma_parents_upto_err(cfg@, i as int + 1, n as int);
                    }
                    return Err(DevoError::UnknownPaneReference(base));
                }
                proof {
                    let c = choose|c: int| is_last_with_id(cfg@.tasks, base@, c);
                    assert(c == d);
                }
                parents.push(Some(d));
            },
        }
        assert(parents_view(parents@) == ps.push(parents_view(parents@)[i as int]));
        i = i + 1;
    }
    Ok(parents)
}

proof fn lemma_parents_upto_err(cfg: SpecConfig, k: int, n: int)
    requires
        0 < k <= n,
        parents_upto(cfg, k) is Err,
    ensures
        parents_upto(cfg, n) == parents_upto(cfg, k),
    decreases n - k,
{
    if k < n {
        lemma_parents_upto_err(cfg, k, n - 1);
    }
}

pub proof fn lemma_push_contains(s: Seq<int>, x: int, j: int)
    ensures
        s.push(x).contains(j) == (s.contains(j) || j == x),
{
    if s.contains(j) {
        let k = choose|k: int| 0 <= k < s.len() && s[k] == j;
        assert(s.push(x)[k] == j);
    }
    if s.push(x).contains(j) && j != x {
        let k = choose|k: int| 0 <= k < s.len() + 1 && s.push(x)[k] == j;
        assert(s[k] == j);
    }
    if j == x {
        assert(s.push(x)[s.len() as int] == x);
    }
}

fn ready_at(done: &Vec<bool>, parents: &Vec<Option<usize>>, r: usize) -> (b: bool)
    requires
        r < parents.len(),
        parents.len() == done.len(),
        parents@[r as int] matches Some(p) ==> p < done.len(),
    ensures
        b == (!done@[r as int] && match parents@[r as int] {
            None => true,
            Some(p) => done@[p as int],
        }),
{
    if done[r] {
        return false;
    }
    match parents[r] {
        None => true,
        Some(p) => done[p],
    }
}

/// Orders the tasks so that each comes after the task whose pane it
/// splits, taking among the tasks that can go next the one listed first.
pub fn topo_sort(cfg: &Config) -> (res: Result<Vec<Task>, DevoError>)
    ensures
        res_view(res, |v: Vec<Task>| tasks_view(v@)) == sorted_tasks(cfg@),
{
    let parents = match compute_parents(cfg) {
        Err(e) => {
            return Err(e);
        },
        Ok(p) => p,
    };
    let n = cfg.tasks.len();
    let ghost ps = parents_view(parents@);
    let mut placed: Vec<usize> = Vec::new();
    let mut done: Vec<bool> = Vec::new();
    let mut k: usize = 0;
    while k < n
        invariant
            k <= n,
            done.len() == k,
            forall|j: int| 0 <= j < k ==> !done@[j],
        decreases n - k,
    {
        done.push(false);
        k = k + 1;
    }
    assert(indices_view(placed@) == Seq::<int>::empty());
    loop
        invariant
            n == cfg.tasks.len(),
            parents.len() == n,
            ps == parents_view(parents@),
            forall|i: int| 0 <= i < n ==> (#[trigger] parents@[i] matches Some(p) ==> p < n),
            done.len() == n,
            placed.len() <= n,
            forall|j: int| 0 <= j < n ==> done@[j] == indices_view(placed@).contains(j),
            greedy_order(ps) == greedy_from(ps, indices_view(placed@)),
            forall|j: int| 0 <= j < placed.len() ==> (#[trigger] placed@[j]) < n,
        ensures
            greedy_order(ps) == indices_view(placed@),
            placed.len() <= n,
            forall|j: int| 0 <= j < placed.len() ==> (#[trigger] placed@[j]) < n,
        decreases n - placed.len(),
    {
        let ghost pl = indices_view(placed@);
        if placed.len() >= n {
            break;
        }
        let mut r: usize = 0;
        while r < n && !ready_at(&done, &parents, r)
            invariant
                r <= n,
                done.len() == n,
                parents.len() == n,
                forall|i: int| 0 <= i < n ==> (#[trigger] parents@[i] matches Some(p) ==> p < n),
                forall|j: int| 0 <= j < n ==> done@[j] == pl.contains(j),
                ps == parents_view(parents@),
                first_ready_from(ps, pl, r as int) == first_ready_from(ps, pl, 0),
            decreases n - r,
        {
            proof {
                assert(!is_ready(ps, pl, r as int));
            }
            r = r + 1;
        }
        proof {
            if r < n {
                assert(is_ready(ps, pl, r as int));
            }
        }
        if r == n {
            break;
        }
        placed.push(r);
        done.set(r, true);
        proof {
            assert(indices_view(placed@) == pl.push(r as int));
            assert forall|j: int| 0 <= j < n implies done@[j] == indices_view(placed@).contains(
                j,
            ) by {
                if j == r {
                    assert(indices_view(placed@)[pl.len() as int] == r);
                } else {
                    lemma_push_contains(pl, r as int, j);
                }
            }
        }
    }
    if placed.len() != n {
        return Err(DevoError::PaneCycle);
    }
    let mut out: Vec<Task> = Vec::new();
    let mut i: usize = 0;
    let ghost ord = indices_view(placed@);
    while i < n
        invariant
            i <= n,
            placed.len() == n,
            n == cfg.tasks.len(),
            ord == indices_view(placed@),
            forall|j: int| 0 <= j < n ==> (#[trigger] placed@[j]) < n,
            tasks_view(out@) == ord.take(i as int).map_values(|t: int| cfg@.tasks[t]),
        decreases n - i,
    {
        let ghost before = out@;
        let t = cfg.tasks[placed[i]].duplicate();
        out.push(t);
        assert(tasks_view(out@) == tasks_view(before).push(t@));
        i = i + 1;
        assert(ord.take(i as int) == ord.take(i - 1).push(ord[i - 1]));
        assert(tasks_view(out@) == ord.take(i as int).map_values(|t: int| cfg@.tasks[t]));
    }
    assert(ord.take(n as int) == ord);
    Ok(out)
}

/// Every parent named in `parents` is a position among them.
pub open spec fn parents_in_range(parents: Seq<Option<int>>) -> bool {
    forall|i: int|
        0 <= i < parents.len() ==> (#[trigger] parents[i] matches Some(p) ==> 0 <= p
            < parents.len())
}

/// `ord` lists each of the `n` tasks exactly once.
pub open spec fn is_permutation(ord: Seq<int>, n: int) -> bool {
    &&& ord.len() == n
    &&& forall|k: int| 0 <= k < n ==> 0 <= #[trigger] ord[k] < n
    &&& forall|k: int, m: int| 0 <= k < m < n ==> ord[k] != ord[m]
}

/// In `ord`, each task comes after the task whose pane it splits.
pub open spec fn respects_parents(parents: Seq<Option<int>>, ord: Seq<int>) -> bool {
    forall|k: int|
        0 <= k < ord.len() ==> (#[trigger] parents[ord[k]] matches Some(p) ==> ord.take(
            k,
        ).contains(p))
}

/// Each task of `ord` is, among the tasks that could go at its place, the
/// one listed first.
pub open spec fn takes_first_ready(parents: Seq<Option<int>>, ord: Seq<int>) -> bool {
    forall|k: int|
        0 <= k < ord.len() ==> {
            &&& is_ready(parents, ord.take(k), #[trigger] ord[k])
            &&& forall|j: int| 0 <= j < ord[k] ==> !is_ready(parents, ord.take(k), j)
        }
}

proof fn lemma_first_ready(parents: Seq<Option<int>>, placed: Seq<int>, k: int)
    requires
        0 <= k,
    ensures
        ({
            let r = first_ready_from(parents, placed, k);
            ||| r == parents.len() && forall|j: int| k <= j < parents.len() ==> !is_ready(
                parents,
                placed,
                j,
            )
            ||| k <= r < parents.len() && is_ready(parents, placed, r) && forall|j: int|
                k <= j < r ==> !is_ready(parents, placed, j)
        }),
    decreases parents.len() - k,
{
    if k < parents.len() && !is_ready(parents, placed, k) {
        lemma_first_ready(parents, placed, k + 1);
    }
}

proof fn lemma_greedy_from(parents: Seq<Option<int>>, placed: Seq<int>)
    requires
        takes_first_ready(parents, placed),
    ensures
        takes_first_ready(parents, greedy_from(parents, placed)),
        greedy_from(parents, placed).len() >= parents.len() || forall|j: int|
            !is_ready(parents, greedy_from(parents, placed), j),
    decreases parents.len() - placed.len(),
{
    let r = first_ready_from(parents, placed, 0);
    lemma_first_ready(parents, placed, 0);
    if placed.len() < parents.len() && r < parents.len() {
        let next = placed.push(r);
        assert forall|k: int| 0 <= k < next.len() implies {
            &&& is_ready(parents, next.take(k), #[trigger] next[k])
            &&& forall|j: int| 0 <= j < next[k] ==> !is_ready(parents, next.take(k), j)
        } by {
            if k < placed.len() {
                assert(next.take(k) == placed.take(k));
                assert(next[k] == placed[k]);
            } else {
                assert(next.take(k) == placed);
            }
        }
        lemma_greedy_from(parents, next);
    }
}

proof fn lemma_first_ready_orders(parents: Seq<Option<int>>, ord: Seq<int>)
    requires
        takes_first_ready(parents, ord),
    ensures
        respects_parents(parents, ord),
        forall|k: int| 0 <= k < ord.len() ==> 0 <= #[trigger] ord[k] < parents.len(),
        forall|k: int, m: int| 0 <= k < m < ord.len() ==> ord[k] != ord[m],
{
    assert forall|k: int| 0 <= k < ord.len() implies 0 <= #[trigger] ord[k] < parents.len() by {
        assert(is_ready(parents, ord.take(k), ord[k]));
    }
    assert forall|k: int, m: int| 0 <= k < m < ord.len() implies ord[k] != ord[m] by {
        assert(is_ready(parents, ord.take(m), ord[m]));
        assert(ord.take(m)[k] == ord[k]);
    }
    assert forall|k: int| 0 <= k < ord.len() implies (#[trigger] parents[ord[k]] matches Some(p)
        ==> ord.take(k).contains(p)) by {
        assert(is_ready(parents, ord.take(k), ord[k]));
    }
}

/// The greedy order lists distinct tasks, each after its parent and each
/// the first task that could go at its place; it stops only when it lists
/// every task or no further task can go.
pub proof fn lemma_greedy_order(parents: Seq<Option<int>>)
    ensures
        takes_first_ready(parents, greedy_order(parents)),
        respects_parents(parents, greedy_order(parents)),
        forall|k: int|
            0 <= k < greedy_order(parents).len() ==> 0 <= #[trigger] greedy_order(parents)[k]
                < parents.len(),
        forall|k: int, m: int|
            0 <= k < m < greedy_order(parents).len() ==> greedy_order(parents)[k]
                != greedy_order(parents)[m],
        greedy_order(parents).len() >= parents.len() || forall|j: int|
            !is_ready(parents, greedy_order(parents), j),
{
    lemma_greedy_from(parents, Seq::empty());
    lemma_first_ready_orders(parents, greedy_order(parents));
}

/// Distinct positions below `n`, fewer than `n` of them, miss one.
proof fn lemma_missing_index(g: Seq<int>, n: int)
    requires
        g.len() < n,
        forall|k: int| 0 <= k < g.len() ==> 0 <= #[trigger] g[k] < n,
    ensures
        exists|i: int| 0 <= i < n && !g.contains(i),
{
    vstd::set_lib::lemma_int_range(0, n);
    g.lemma_cardinality_of_set();
    if forall|i: int| 0 <= i < n ==> g.contains(i) {
        assert(vstd::set_lib::set_int_range(0, n).subset_of(g.to_set())) by {
            assert forall|i: int| vstd::set_lib::set_int_range(0, n).contains(i) implies g.to_set().contains(i) by {
                assert(g.contains(i));
            }
        }
        vstd::seq_lib::seq_to_set_is_finite(g);
        vstd::set_lib::lemma_len_subset(vstd::set_lib::set_int_range(0, n), g.to_set());
    }
}

/// When the greedy order stops short, no order of all the tasks puts each
/// after its parent.
proof fn lemma_stuck_means_no_order(parents: Seq<Option<int>>, ord: Seq<int>)
    requires
        parents_in_range(parents),
        greedy_order(parents).len() < parents.len(),
    ensures
        !(is_permutation(ord, parents.len() as int) && respects_parents(parents, ord)),
{
    let g = greedy_order(parents);
    let n = parents.len() as int;
    if is_permutation(ord, n) && respects_parents(parents, ord) {
        lemma_greedy_order(parents);
        lemma_missing_index(g, n);
        let i = choose|i: int| 0 <= i < n && !g.contains(i);
        lemma_permutation_holds(ord, n, i);
        let m0 = choose|m: int| 0 <= m < ord.len() && ord[m] == i;
        let m = first_missing(g, ord, m0);
        let t = ord[m];
        assert(!is_ready(parents, g, t));
        assert(0 <= t < n);
        match parents[t] {
            None => {},
            Some(p) => {
                assert(!g.contains(p));
                assert(ord.take(m).contains(p));
                let q = choose|q: int| 0 <= q < ord.take(m).len() && ord.take(m)[q] == p;
                assert(ord[q] == p);
            },
        }
    }
}

/// The first position at or before `m0` whose task the greedy order lacks.
proof fn first_missing(g: Seq<int>, ord: Seq<int>, m0: int) -> (m: int)
    requires
        0 <= m0 < ord.len(),
        !g.contains(ord[m0]),
    ensures
        0 <= m <= m0,
        !g.contains(ord[m]),
        forall|q: int| 0 <= q < m ==> g.contains(ord[q]),
    decreases m0,
{
    if exists|q: int| 0 <= q < m0 && !g.contains(ord[q]) {
        let q = choose|q: int| 0 <= q < m0 && !g.contains(ord[q]);
        first_missing(g, ord, q)
    } else {
        m0
    }
}

/// A permutation of `n` tasks holds every task below `n`.
proof fn lemma_permutation_holds(ord: Seq<int>, n: int, i: int)
    requires
        is_permutation(ord, n),
        0 <= i < n,
    ensures
        ord.contains(i),
{
    if !ord.contains(i) {
        // Map each value above `i` one down: `n` distinct values below `n - 1`.
        let shifted = Seq::new(n as nat, |k: int| if ord[k] > i { ord[k] - 1 } else { ord[k] });
        assert forall|k: int| 0 <= k < shifted.len() implies 0 <= #[trigger] shifted[k] < n - 1 by {
            assert(ord[k] != i);
        }
        lemma_distinct_below(shifted, n - 1);
        let (k, l) = choose|k: int, l: int| 0 <= k < l < shifted.len() && shifted[k] == shifted[l];
        assert(ord[k] != ord[l]);
        assert(ord[k] != i && ord[l] != i);
    }
}

/// `n + 1` or more distinct values cannot all lie below `n`.
proof fn lemma_distinct_below(s: Seq<int>, n: int)
    requires
        0 <= n,
        s.len() > n,
        forall|k: int| 0 <= k < s.len() ==> 0 <= #[trigger] s[k] < n,
    ensures
        exists|k: int, l: int| 0 <= k < l < s.len() && s[k] == s[l],
{
    vstd::set_lib::lemma_int_range(0, n);
    if forall|k: int, l: int| 0 <= k < l < s.len() ==> s[k] != s[l] {
        assert(s.no_duplicates()) by {
            assert forall|k: int, l: int| 0 <= k < s.len() && 0 <= l < s.len() && k != l implies s[k] != s[l] by {
                if k < l {
                } else {
                }
            }
        }
        s.unique_seq_to_set();
        assert(s.to_set().subset_of(vstd::set_lib::set_int_range(0, n))) by {
            assert forall|v: int| s.to_set().contains(v) implies vstd::set_lib::set_int_range(0, n).contains(v) by {
                assert(s.contains(v));
            }
        }
        vstd::set_lib::lemma_len_subset(s.to_set(), vstd::set_lib::set_int_range(0, n));
    }
}

proof fn lemma_parents_upto_in_range(cfg: SpecConfig, k: int)
    requires
        0 <= k <= cfg.tasks.len(),
        parents_upto(cfg, k) is Ok,
    ensures
        parents_upto(cfg, k)->Ok_0.len() == k,
        forall|i: int|
            0 <= i < k ==> (#[trigger] parents_upto(cfg, k)->Ok_0[i] matches Some(p) ==> 0 <= p
                < cfg.tasks.len()),
    decreases k,
{
    if k > 0 {
        lemma_parents_upto_in_range(cfg, k - 1);
        let ps = parents_upto(cfg, k - 1)->Ok_0;
        match pane_parent(cfg, k - 1) {
            Ok(Some(p)) => {
                let b = pane_base(effective_pane(cfg, cfg.tasks[k - 1])->Ok_0)->Some_0;
                assert(is_last_with_id(cfg.tasks, b, p));
            },
            _ => {},
        }
        assert forall|i: int| 0 <= i < k implies (#[trigger] parents_upto(cfg, k)->Ok_0[i] matches Some(p) ==> 0 <= p < cfg.tasks.len()) by {
            if i < k - 1 {
                assert(parents_upto(cfg, k)->Ok_0[i] == ps[i]);
            }
        }
    }
}

/// The parent positions of a configuration are positions of its tasks.
pub proof fn lemma_pane_parents_in_range(cfg: SpecConfig)
    requires
        pane_parents(cfg) is Ok,
    ensures
        pane_parents(cfg)->Ok_0.len() == cfg.tasks.len(),
        parents_in_range(pane_parents(cfg)->Ok_0),
{
    lemma_parents_upto_in_range(cfg, cfg.tasks.len() as int);
}

/// Pane order: when the tasks can be ordered, the order lists every task
/// exactly once, each after the task whose pane it splits, and at each
/// place the task listed first among those whose base pane already exists.
pub proof fn lemma_pane_order_is_topological(cfg: SpecConfig)
    requires
        pane_order(cfg) is Ok,
    ensures
        is_permutation(pane_order(cfg)->Ok_0, cfg.tasks.len() as int),
        respects_parents(pane_parents(cfg)->Ok_0, pane_order(cfg)->Ok_0),
        takes_first_ready(pane_parents(cfg)->Ok_0, pane_order(cfg)->Ok_0),
{
    let ps = pane_parents(cfg)->Ok_0;
    lemma_pane_parents_in_range(cfg);
    lemma_greedy_order(ps);
}

/// The pane references form a cycle exactly when no order of all the tasks
/// puts each after the task whose pane it splits.
pub proof fn lemma_cycle_iff_no_order(cfg: SpecConfig)
    requires
        pane_parents(cfg) is Ok,
    ensures
        (pane_order(cfg) == Err::<Seq<int>, SpecError>(SpecError::PaneCycle)) <==> !exists|ord: Seq<int>|
            is_permutation(ord, cfg.tasks.len() as int) && respects_parents(
                pane_parents(cfg)->Ok_0,
                ord,
            ),
{
    let ps = pane_parents(cfg)->Ok_0;
    let n = cfg.tasks.len() as int;
    lemma_pane_parents_in_range(cfg);
    lemma_greedy_order(ps);
    let g = greedy_order(ps);
    if g.len() > n {
        lemma_distinct_below(g, n);
    }
    if g.len() == ps.len() {
        assert(is_permutation(g, n));
    } else {
        assert forall|ord: Seq<int>| !(is_permutation(ord, n) && respects_parents(ps, ord)) by {
            lemma_stuck_means_no_order(ps, ord);
        }
    }
}

} // verus!
