//! The configuration: tasks, where their panes go, and the run options.
use vstd::prelude::*;

use crate::error::{res_view, DevoError, SpecError};
use crate::text::{chars_eq, has_prefix, starts_with, string_of, to_chars};
use crate::quote::is_ascii_upper;

verus! {

/// The command(s) typed into a task's pane: one line or several.
pub enum CmdSpec {
    One(String),
    Many(Vec<String>),
}

/// One task: an id, where its pane goes, and what runs in it.
pub struct Task {
    pub id: String,
    pub pane: Option<String>,
    pub cmd: CmdSpec,
}

/// The whole configuration file.
pub struct Config {
    pub session: Option<String>,
    pub hook_session_closed: Option<String>,
    pub hook_session_started: Option<String>,
    pub inherit_env: Vec<String>,
    pub tasks: Vec<Task>,
    pub focus: Option<String>,
}

/// Where a pane goes: the first pane of the session, or a split to the
/// right of / below the pane of another task.
pub enum PaneSpec {
    Root,
    RightOf(String),
    DownOf(String),
}

/// How the script is to be run.
pub struct RunOptions {
    pub session: Option<String>,
    pub attach: bool,
    pub attach_or_create: bool,
}

pub struct SpecTask {
    pub id: Seq<char>,
    pub pane: Option<Seq<char>>,
    pub cmd: Seq<Seq<char>>,
}

pub struct SpecConfig {
    pub session: Option<Seq<char>>,
    pub hook_session_closed: Option<Seq<char>>,
    pub hook_session_started: Option<Seq<char>>,
    pub inherit_env: Seq<Seq<char>>,
    pub tasks: Seq<SpecTask>,
    pub focus: Option<Seq<char>>,
}

pub enum SpecPane {
    Root,
    RightOf(Seq<char>),
    DownOf(Seq<char>),
}

pub struct SpecRunOptions {
    pub session: Option<Seq<char>>,
    pub attach: bool,
    pub attach_or_create: bool,
}

pub open spec fn opt_view(o: Option<String>) -> Option<Seq<char>> {
    match o {
        Some(s) => Some(s@),
        None => None,
    }
}

pub open spec fn strings_view(v: Seq<String>) -> Seq<Seq<char>> {
    v.map_values(|s: String| s@)
}

impl View for CmdSpec {
    /// The command lines, in order.
    type V = Seq<Seq<char>>;

    open spec fn view(&self) -> Seq<Seq<char>> {
        match self {
            CmdSpec::One(s) => seq![s@],
            CmdSpec::Many(items) => strings_view(items@),
        }
    }
}

impl View for Task {
    type V = SpecTask;

    open spec fn view(&self) -> SpecTask {
        SpecTask { id: self.id@, pane: opt_view(self.pane), cmd: self.cmd@ }
    }
}

pub open spec fn tasks_view(v: Seq<Task>) -> Seq<SpecTask> {
    v.map_values(|t: Task| t@)
}

impl View for Config {
    type V = SpecConfig;

    open spec fn view(&self) -> SpecConfig {
        SpecConfig {
            session: opt_view(self.session),
            hook_session_closed: opt_view(self.hook_session_closed),
            hook_session_started: opt_view(self.hook_session_started),
            inherit_env: strings_view(self.inherit_env@),
            tasks: tasks_view(self.tasks@),
            focus: opt_view(self.focus),
        }
    }
}

impl View for PaneSpec {
    type V = SpecPane;

    open spec fn view(&self) -> SpecPane {
        match self {
            PaneSpec::Root => SpecPane::Root,
            PaneSpec::RightOf(b) => SpecPane::RightOf(b@),
            PaneSpec::DownOf(b) => SpecPane::DownOf(b@),
        }
    }
}

impl View for RunOptions {
    type V = SpecRunOptions;

    open spec fn view(&self) -> SpecRunOptions {
        SpecRunOptions {
            session: opt_view(self.session),
            attach: self.attach,
            attach_or_create: self.attach_or_create,
        }
    }
}

impl RunOptions {
    pub fn new(session: Option<String>, attach: bool, attach_or_create: bool) -> (res: Self)
        ensures
            res.session == session,
            res.attach == attach,
            res.attach_or_create == attach_or_create,
    {
        RunOptions { session, attach, attach_or_create }
    }
}

impl CmdSpec {
    /// The command lines, in order.
    pub fn lines(&self) -> (res: Vec<&str>)
        ensures
            res@.map_values(|s: &str| s@) == self@,
    {
        match self {
            CmdSpec::One(s) => {
                let mut v: Vec<&str> = Vec::new();
                v.push(s.as_str());
                assert(v@.map_values(|s: &str| s@) == seq![s@]);
                v
            },
            CmdSpec::Many(items) => {
                let mut v: Vec<&str> = Vec::new();
                let mut i: usize = 0;
                while i < items.len()
                    invariant
                        i <= items.len(),
                        v@.map_values(|s: &str| s@) == strings_view(items@).take(i as int),
                    decreases items.len() - i,
                {
                    v.push(items[i].as_str());
                    i = i + 1;
                    assert(strings_view(items@).take(i as int) == strings_view(items@).take(
                        i - 1,
                    ).push(items@[i - 1]@));
                    assert(v@.map_values(|s: &str| s@) == strings_view(items@).take(
                        i - 1,
                    ).push(items@[i - 1]@));
                }
                assert(strings_view(items@).take(items.len() as int) == strings_view(items@));
                v
            },
        }
    }
}

/// The pane a `pane:` value names.
pub open spec fn parsed_pane(s: Seq<char>) -> Result<SpecPane, SpecError> {
    if s == "root"@ {
        Ok(SpecPane::Root)
    } else if starts_with(s, "right_of:"@) {
        if s.len() == 9 {
            Err(SpecError::RightOfMissingId)
        } else {
            Ok(SpecPane::RightOf(s.skip(9)))
        }
    } else if starts_with(s, "down_of:"@) {
        if s.len() == 8 {
            Err(SpecError::DownOfMissingId)
        } else {
            Ok(SpecPane::DownOf(s.skip(8)))
        }
    } else {
        Err(SpecError::InvalidPaneSpec(s))
    }
}

fn skip_chars(cs: &[char], n: usize) -> (res: String)
    requires
        n <= cs.len(),
    ensures
        res@ == cs@.skip(n as int),
{
    string_of(&cs[n..cs.len()])
}

/// Reads a `pane:` value: `root`, `right_of:<task>` or `down_of:<task>`.
pub fn parse_pane_spec(s: &str) -> (res: Result<PaneSpec, DevoError>)
    ensures
        res_view(res, |p: PaneSpec| p@) == parsed_pane(s@),
{
    proof {
        reveal_strlit("root");
        reveal_strlit("right_of:");
        reveal_strlit("down_of:");
    }
    let cs = to_chars(s);
    let root = to_chars("root");
    if chars_eq(cs.as_slice(), root.as_slice()) {
        return Ok(PaneSpec::Root);
    }
    if has_prefix(cs.as_slice(), "right_of:") {
        if cs.len() == 9 {
            return Err(DevoError::RightOfMissingId);
        }
        return Ok(PaneSpec::RightOf(skip_chars(cs.as_slice(), 9)));
    }
    if has_prefix(cs.as_slice(), "down_of:") {
        if cs.len() == 8 {
            return Err(DevoError::DownOfMissingId);
        }
        return Ok(PaneSpec::DownOf(skip_chars(cs.as_slice(), 8)));
    }
    Err(DevoError::InvalidPaneSpec(string_of(cs.as_slice())))
}

/// `i` is the first position of a task with this id.
pub open spec fn is_first_with_id(tasks: Seq<SpecTask>, id: Seq<char>, i: int) -> bool {
    &&& 0 <= i < tasks.len()
    &&& tasks[i].id == id
    &&& forall|j: int| 0 <= j < i ==> tasks[j].id != id
}

/// Where the pane of `task` goes: its `pane:` value when it has one;
/// otherwise the root pane for the first task and a split below the
/// previous task for any other.
pub open spec fn effective_pane(cfg: SpecConfig, task: SpecTask) -> Result<SpecPane, SpecError> {
    match task.pane {
        Some(p) => parsed_pane(p),
        None => {
            if exists|i: int| is_first_with_id(cfg.tasks, task.id, i) {
                let i = choose|i: int| is_first_with_id(cfg.tasks, task.id, i);
                if i == 0 {
                    Ok(SpecPane::Root)
                } else {
                    Ok(SpecPane::DownOf(cfg.tasks[i - 1].id))
                }
            } else {
                Err(SpecError::UnknownTask(task.id))
            }
        },
    }
}

pub proof fn lemma_first_with_id_unique(tasks: Seq<SpecTask>, id: Seq<char>, i: int, j: int)
    requires
        is_first_with_id(tasks, id, i),
        is_first_with_id(tasks, id, j),
    ensures
        i == j,
{
}

/// Position of the first task whose id is `id`, or `tasks.len()`.
pub fn first_task_index(tasks: &Vec<Task>, id: &String) -> (res: usize)
    ensures
        res <= tasks.len(),
        res < tasks.len() ==> is_first_with_id(tasks_view(tasks@), id@, res as int),
        res == tasks.len() ==> forall|j: int| 0 <= j < tasks.len() ==> tasks@[j].id@ != id@,
{
    let mut i: usize = 0;
    while i < tasks.len()
        invariant
            i <= tasks.len(),
            forall|j: int| 0 <= j < i ==> tasks@[j].id@ != id@,
        decreases tasks.len() - i,
    {
        if tasks[i].id == *id {
            return i;
        }
        i = i + 1;
    }
    tasks.len()
}

/// Where the pane of `task` goes; see `effective_pane`.
pub fn effective_pane_spec(cfg: &Config, task: &Task) -> (res: Result<PaneSpec, DevoError>)
    ensures
        res_view(res, |p: PaneSpec| p@) == effective_pane(cfg@, task@),
{
    match &task.pane {
        Some(pane) => parse_pane_spec(pane.as_str()),
        None => {
            let idx = first_task_index(&cfg.tasks, &task.id);
            if idx == cfg.tasks.len() {
                return Err(DevoError::UnknownTask(task.id.clone()));
            }
            proof {
                let i = choose|i: int| is_first_with_id(cfg@.tasks, task@.id, i);
                lemma_first_with_id_unique(cfg@.tasks, task@.id, i, idx as int);
            }
            if idx == 0 {
                Ok(PaneSpec::Root)
            } else {
                Ok(PaneSpec::DownOf(cfg.tasks[idx - 1].id.clone()))
            }
        },
    }
}

/// The pane of `task` written as a `pane:` value.
pub open spec fn pane_text(p: SpecPane) -> Seq<char> {
    match p {
        SpecPane::Root => "root"@,
        SpecPane::RightOf(b) => "right_of:"@ + b,
        SpecPane::DownOf(b) => "down_of:"@ + b,
    }
}

/// Where the pane of `task` goes, written as a `pane:` value.
pub fn effective_pane_string(cfg: &Config, task: &Task) -> (res: Result<String, DevoError>)
    ensures
        res_view(res, |s: String| s@) == match effective_pane(cfg@, task@) {
            Ok(p) => Ok(pane_text(p)),
            Err(e) => Err(e),
        },
{
    match effective_pane_spec(cfg, task) {
        Err(e) => Err(e),
        Ok(PaneSpec::Root) => Ok(String::from_str("root")),
        Ok(PaneSpec::RightOf(base)) => {
            let mut s = String::from_str("right_of:");
            s.append(base.as_str());
            Ok(s)
        },
        Ok(PaneSpec::DownOf(base)) => {
            let mut s = String::from_str("down_of:");
            s.append(base.as_str());
            Ok(s)
        },
    }
}

/// The same characters as `s`, in a new string.
pub fn dup_string(s: &String) -> (res: String)
    ensures
        res@ == s@,
{
    s.clone()
}

/// The strings of `v`, in new strings.
pub fn dup_strings(v: &Vec<String>) -> (res: Vec<String>)
    ensures
        strings_view(res@) == strings_view(v@),
{
    let mut res: Vec<String> = Vec::new();
    let mut i: usize = 0;
    while i < v.len()
        invariant
            i <= v.len(),
            strings_view(res@) == strings_view(v@).take(i as int),
        decreases v.len() - i,
    {
        res.push(dup_string(&v[i]));
        i = i + 1;
        assert(strings_view(v@).take(i as int) == strings_view(v@).take(i - 1).push(v@[i - 1]@));
    }
    assert(strings_view(v@).take(v.len() as int) == strings_view(v@));
    res
}

pub fn dup_opt_string(o: &Option<String>) -> (res: Option<String>)
    ensures
        opt_view(res) == opt_view(*o),
{
    match o {
        Some(s) => Some(dup_string(s)),
        None => None,
    }
}

impl Task {
    /// The same task, built anew.
    pub fn duplicate(&self) -> (res: Task)
        ensures
            res@ == self@,
    {
        let cmd = match &self.cmd {
            CmdSpec::One(s) => CmdSpec::One(dup_string(s)),
            CmdSpec::Many(items) => CmdSpec::Many(dup_strings(items)),
        };
        Task { id: dup_string(&self.id), pane: dup_opt_string(&self.pane), cmd }
    }
}

/// Writing a pane as a `pane:` value and reading it back gives the same
/// pane, as long as the task it is placed next to has a non-empty id.
pub proof fn lemma_pane_text_parses_back(p: SpecPane)
    requires
        match p {
            SpecPane::Root => true,
            SpecPane::RightOf(b) => b.len() > 0,
            SpecPane::DownOf(b) => b.len() > 0,
        },
    ensures
        parsed_pane(pane_text(p)) == Ok::<SpecPane, SpecError>(p),
{
    reveal_strlit("root");
    reveal_strlit("right_of:");
    reveal_strlit("down_of:");
    match p {
        SpecPane::Root => {
            assert(!starts_with("root"@, "right_of:"@));
        },
        SpecPane::RightOf(b) => {
            let t = "right_of:"@ + b;
            assert(t != "root"@) by {
                assert(t[1] == 'i');
            }
            assert(t.take(9) =~= "right_of:"@);
            assert(t.skip(9) =~= b);
        },
        SpecPane::DownOf(b) => {
            let t = "down_of:"@ + b;
            assert(t != "root"@) by {
                assert(t[0] == 'd');
            }
            assert(!starts_with(t, "right_of:"@)) by {
                if t.len() >= 9 {
                    assert(t.take(9)[0] == 'd');
                }
            }
            assert(t.take(8) =~= "down_of:"@);
            assert(t.skip(8) =~= b);
        },
    }
}

/// A task without a `pane:` value that is the first with its id goes in
/// the root pane when it is listed first, and below the task listed just
/// before it otherwise.
pub proof fn lemma_default_pane(cfg: SpecConfig, i: int)
    requires
        0 <= i < cfg.tasks.len(),
        cfg.tasks[i].pane is None,
        is_first_with_id(cfg.tasks, cfg.tasks[i].id, i),
    ensures
        effective_pane(cfg, cfg.tasks[i]) == if i == 0 {
            Ok::<SpecPane, SpecError>(SpecPane::Root)
        } else {
            Ok(SpecPane::DownOf(cfg.tasks[i - 1].id))
        },
{
    let j = choose|j: int| is_first_with_id(cfg.tasks, cfg.tasks[i].id, j);
    lemma_first_with_id_unique(cfg.tasks, cfg.tasks[i].id, i, j);
}

/// `char::to_ascii_lowercase`.
pub open spec fn ascii_lower(c: char) -> char {
    if is_ascii_upper(c) {
        ((c as u8) + 32u8) as char
    } else {
        c
    }
}

/// A configuration file's extension names YAML: `yaml` or `yml`, in any
/// ASCII case.
pub open spec fn is_yaml_ext(ext: Seq<char>) -> bool {
    let l = ext.map_values(|c: char| ascii_lower(c));
    l == "yaml"@ || l == "yml"@
}

fn lower_char(c: char) -> (r: char)
    ensures
        r == ascii_lower(c),
{
    if 'A' <= c && c <= 'Z' {
        ((c as u8) + 32u8) as char
    } else {
        c
    }
}

/// Whether a configuration file with this extension (`None` when it has
/// none) can be read.
pub fn config_extension_supported(ext: Option<&str>) -> (res: bool)
    ensures
        res == match ext {
            Some(e) => is_yaml_ext(e@),
            None => false,
        },
{
    let e = match ext {
        Some(e) => e,
        None => {
            return false;
        },
    };
    let cs = to_chars(e);
    let mut low: Vec<char> = Vec::new();
    let mut i: usize = 0;
    while i < cs.len()
        invariant
            i <= cs.len(),
            cs@ == e@,
            low@ == cs@.take(i as int).map_values(|c: char| ascii_lower(c)),
        decreases cs.len() - i,
    {
        low.push(lower_char(cs[i]));
        i = i + 1;
        assert(cs@.take(i as int).map_values(|c: char| ascii_lower(c)) == cs@.take(
            (i - 1) as int,
        ).map_values(|c: char| ascii_lower(c)).push(ascii_lower(cs@[i - 1])));
    }
    assert(cs@.take(cs.len() as int) == cs@);
    let yaml = to_chars("yaml");
    let yml = to_chars("yml");
    chars_eq(low.as_slice(), yaml.as_slice()) || chars_eq(low.as_slice(), yml.as_slice())
}

/// The three forms of a `pane:` value: `root`; `right_of:` and `down_of:`
/// followed by a non-empty task id, which names the base pane; the two
/// prefixes alone are refused.
pub proof fn lemma_pane_spec_forms(b: Seq<char>)
    ensures
        parsed_pane("root"@) == Ok::<SpecPane, SpecError>(SpecPane::Root),
        b.len() > 0 ==> parsed_pane("right_of:"@ + b) == Ok::<SpecPane, SpecError>(
            SpecPane::RightOf(b),
        ),
        b.len() > 0 ==> parsed_pane("down_of:"@ + b) == Ok::<SpecPane, SpecError>(
            SpecPane::DownOf(b),
        ),
        parsed_pane("right_of:"@) == Err::<SpecPane, SpecError>(SpecError::RightOfMissingId),
        parsed_pane("down_of:"@) == Err::<SpecPane, SpecError>(SpecError::DownOfMissingId),
{
    lemma_pane_text_parses_back(SpecPane::Root);
    if b.len() > 0 {
        lemma_pane_text_parses_back(SpecPane::RightOf(b));
        lemma_pane_text_parses_back(SpecPane::DownOf(b));
    }
    reveal_strlit("root");
    reveal_strlit("right_of:");
    reveal_strlit("down_of:");
    assert("right_of:"@ != "root"@);
    assert("right_of:"@.take(9) =~= "right_of:"@);
    assert("down_of:"@ != "root"@);
    assert(!starts_with("down_of:"@, "right_of:"@));
    assert("down_of:"@.take(8) =~= "down_of:"@);
}

} // verus!
