//! What `status` reports: each task with its pane spec, and the panes that
//! tmux lists for the session.
use vstd::prelude::*;

use crate::config::{effective_pane, effective_pane_string, pane_text, Config, SpecConfig};
use crate::text::{chars_eq, lines_of, split_lines, string_of, to_chars};

verus! {

/// A task and where its pane goes.
pub struct TaskStatus {
    pub id: String,
    pub pane: String,
}

/// One pane as tmux lists it.
pub struct PaneStatus {
    pub id: String,
    pub index: String,
    pub task_id: String,
    pub title: String,
    pub active: bool,
    pub current_command: String,
    pub current_path: String,
}

/// The pane spec a task's status shows: as a `pane:` value, or
/// `<invalid>` when it cannot be read.
pub open spec fn status_pane(cfg: SpecConfig, i: int) -> Seq<char> {
    match effective_pane(cfg, cfg.tasks[i]) {
        Ok(p) => pane_text(p),
        Err(_) => "<invalid>"@,
    }
}

/// Every task of `cfg`, in order, with where its pane goes.
pub fn task_statuses(cfg: &Config) -> (res: Vec<TaskStatus>)
    ensures
        res.len() == cfg.tasks.len(),
        forall|i: int|
            0 <= i < res.len() ==> (#[trigger] res@[i]).id@ == cfg@.tasks[i].id && res@[i].pane@
                == status_pane(cfg@, i),
{
    let mut res: Vec<TaskStatus> = Vec::new();
    let mut i: usize = 0;
    while i < cfg.tasks.len()
        invariant
            i <= cfg.tasks.len(),
            res.len() == i,
            forall|k: int|
                0 <= k < i ==> (#[trigger] res@[k]).id@ == cfg@.tasks[k].id && res@[k].pane@
                    == status_pane(cfg@, k),
        decreases cfg.tasks.len() - i,
    {
        let task = &cfg.tasks[i];
        let pane = match effective_pane_string(cfg, task) {
            Ok(s) => s,
            Err(_) => String::from_str("<invalid>"),
        };
        res.push(TaskStatus { id: task.id.clone(), pane });
        i = i + 1;
    }
    res
}

/// `s` split at tabs into at most `n` fields, the last holding the rest,
/// as `str::splitn` splits it.
pub open spec fn split_tabs(s: Seq<char>, n: nat) -> Seq<Seq<char>>
    decreases s.len(),
{
    let t = crate::text::next_char(s, '\t', 0);
    if n <= 1 {
        seq![s]
    } else if t >= s.len() {
        seq![s]
    } else {
        proof {
            crate::text::lemma_next_char(s, '\t', 0);
        }
        seq![s.take(t)] + split_tabs(s.skip(t + 1), (n - 1) as nat)
    }
}

/// Field `k` of `fields`, empty when there are fewer.
pub open spec fn field(fields: Seq<Seq<char>>, k: int) -> Seq<char> {
    if 0 <= k < fields.len() {
        fields[k]
    } else {
        Seq::empty()
    }
}

/// A pane listing line read into its seven fields.
pub open spec fn pane_line_fields(line: Seq<char>) -> Seq<Seq<char>> {
    split_tabs(line, 7)
}

/// The pane that a listing line describes: id, index, task id, title,
/// whether it is active (the field is `1`), command and path, separated by
/// tabs; missing fields are empty.
pub open spec fn pane_status_ok(p: PaneStatus, line: Seq<char>) -> bool {
    let f = pane_line_fields(line);
    &&& p.id@ == field(f, 0)
    &&& p.index@ == field(f, 1)
    &&& p.task_id@ == field(f, 2)
    &&& p.title@ == field(f, 3)
    &&& p.active == (field(f, 4) == "1"@)
    &&& p.current_command@ == field(f, 5)
    &&& p.current_path@ == field(f, 6)
}

fn split_tab_fields(cs: &[char], n: usize) -> (res: Vec<Vec<char>>)
    requires
        n >= 1,
    ensures
        res@.map_values(|v: Vec<char>| v@) == split_tabs(cs@, n as nat),
    decreases cs.len(),
{
    let mut t: usize = 0;
    while t < cs.len() && cs[t] != '\t'
        invariant
            t <= cs.len(),
            forall|j: int| 0 <= j < t ==> cs@[j] != '\t',
        decreases cs.len() - t,
    {
        t = t + 1;
    }
    proof {
        crate::text::lemma_next_char_unique(cs@, '\t', 0, t as int);
    }
    let mut res: Vec<Vec<char>> = Vec::new();
    if n <= 1 || t >= cs.len() {
        let mut all: Vec<char> = Vec::new();
        crate::env::push_all(&mut all, cs);
        res.push(all);
        assert(res@.map_values(|v: Vec<char>| v@) == seq![cs@]);
        return res;
    }
    let mut first: Vec<char> = Vec::new();
    crate::env::push_all(&mut first, &cs[0..t]);
    let rest = split_tab_fields(&cs[t + 1..cs.len()], n - 1);
    res.push(first);
    let mut k: usize = 0;
    while k < rest.len()
        invariant
            k <= rest.len(),
            res@.map_values(|v: Vec<char>| v@) == seq![cs@.take(t as int)] + rest@.map_values(
                |v: Vec<char>| v@,
            ).take(k as int),
        decreases rest.len() - k,
    {
        let mut copy: Vec<char> = Vec::new();
        crate::env::push_all(&mut copy, rest[k].as_slice());
        let ghost before = res@.map_values(|v: Vec<char>| v@);
        res.push(copy);
        assert(res@.map_values(|v: Vec<char>| v@) == before.push(copy@));
        assert(rest@.map_values(|v: Vec<char>| v@).take(k + 1) == rest@.map_values(
            |v: Vec<char>| v@,
        ).take(k as int).push(rest@[k as int]@));
        k = k + 1;
    }
    assert(rest@.map_values(|v: Vec<char>| v@).take(rest.len() as int) == rest@.map_values(
        |v: Vec<char>| v@,
    ));
    assert(cs@.skip(t + 1) == cs@.subrange(t + 1, cs.len() as int));
    res
}

fn field_string(fields: &Vec<Vec<char>>, k: usize) -> (res: String)
    ensures
        res@ == field(fields@.map_values(|v: Vec<char>| v@), k as int),
{
    if k < fields.len() {
        string_of(fields[k].as_slice())
    } else {
        String::new()
    }
}

/// Reads one line of the pane listing.
pub fn parse_pane_line(line: &str) -> (res: PaneStatus)
    ensures
        pane_status_ok(res, line@),
{
    let cs = to_chars(line);
    let fields = split_tab_fields(cs.as_slice(), 7);
    let active_field = field_string(&fields, 4);
    let one = to_chars("1");
    let active = chars_eq(to_chars(active_field.as_str()).as_slice(), one.as_slice());
    PaneStatus {
        id: field_string(&fields, 0),
        index: field_string(&fields, 1),
        task_id: field_string(&fields, 2),
        title: field_string(&fields, 3),
        active,
        current_command: field_string(&fields, 5),
        current_path: field_string(&fields, 6),
    }
}

/// Reads the pane listing that tmux prints, one pane per line.
pub fn parse_pane_listing(text: &str) -> (res: Vec<PaneStatus>)
    ensures
        res.len() == split_lines(text@).len(),
        forall|i: int| 0 <= i < res.len() ==> pane_status_ok(#[trigger] res@[i], split_lines(text@)[i]),
{
    let ls = lines_of(to_chars(text).as_slice());
    let ghost lv = ls@.map_values(|l: Vec<char>| l@);
    let mut res: Vec<PaneStatus> = Vec::new();
    let mut i: usize = 0;
    while i < ls.len()
        invariant
            i <= ls.len(),
            lv == ls@.map_values(|l: Vec<char>| l@),
            lv == split_lines(text@),
            res.len() == i,
            forall|k: int| 0 <= k < i ==> pane_status_ok(#[trigger] res@[k], lv[k]),
        decreases ls.len() - i,
    {
        let l = string_of(ls[i].as_slice());
        res.push(parse_pane_line(l.as_str()));
        i = i + 1;
    }
    res
}

/// Fields joined with tabs between them.
pub open spec fn join_tabs(fs: Seq<Seq<char>>) -> Seq<char>
    decreases fs.len(),
{
    if fs.len() <= 1 {
        if fs.len() == 1 {
            fs[0]
        } else {
            Seq::empty()
        }
    } else {
        fs[0] + seq!['\t'] + join_tabs(fs.drop_first())
    }
}

proof fn lemma_split_join(fs: Seq<Seq<char>>, n: nat)
    requires
        n >= 1,
        fs.len() == n,
        forall|k: int| 0 <= k < n - 1 ==> !(#[trigger] fs[k]).contains('\t'),
    ensures
        split_tabs(join_tabs(fs), n) == fs,
    decreases n,
{
    let s = join_tabs(fs);
    if n == 1 {
        assert(seq![fs[0]] =~= fs);
    } else {
        let rest = fs.drop_first();
        let a = fs[0];
        assert(s == a + seq!['\t'] + join_tabs(rest));
        assert forall|j: int| 0 <= j < a.len() implies s[j] != '\t' by {
            assert(s[j] == a[j]);
            if a[j] == '\t' {
                assert(a.contains('\t'));
            }
        }
        crate::text::lemma_next_char_unique(s, '\t', 0, a.len() as int);
        assert(s.take(a.len() as int) =~= a);
        assert(s.skip(a.len() + 1int) =~= join_tabs(rest));
        assert forall|k: int| 0 <= k < n - 2 implies !(#[trigger] rest[k]).contains('\t') by {
            assert(rest[k] == fs[k + 1]);
        }
        lemma_split_join(rest, (n - 1) as nat);
        assert(seq![a] + rest =~= fs);
    }
}

/// A listing line made of the seven fields joined with tabs, the first six
/// without tabs, reads back as those seven fields: id, index, task id,
/// title, active flag, command and path.
pub proof fn lemma_pane_fields_read_back(fs: Seq<Seq<char>>)
    requires
        fs.len() == 7,
        forall|k: int| 0 <= k < 6 ==> !(#[trigger] fs[k]).contains('\t'),
    ensures
        pane_line_fields(join_tabs(fs)) == fs,
{
    lemma_split_join(fs, 7);
}

} // verus!
