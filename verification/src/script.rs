//! The bash script that builds the tmux session.
use vstd::prelude::*;

use crate::config::{
    effective_pane, effective_pane_spec, opt_view, strings_view, tasks_view, Config, PaneSpec,
    RunOptions, SpecConfig, SpecPane, SpecRunOptions, SpecTask, Task,
};
use crate::error::{res_view, DevoError, SpecError};
use crate::order::{
    lemma_pane_order_is_topological, pane_order, pane_parent, pane_parents, parents_upto,
    sorted_tasks, topo_sort,
};
use crate::quote::{
    expand_quoted, normalize_session_closed_hook, normalized_hook, sanitize_var, sanitized,
    sh_expand_quote, sh_single_quote, single_quoted,
};
use crate::session::{session_shell_value, session_value};
use crate::text::{is_blank, is_ws_char, lines_of, push_char, split_lines, to_chars, string_of};
use crate::validate::{config_check, has_task_id};

verus! {

/// The lines joined, each followed by a newline.
pub open spec fn concat_lines(ls: Seq<Seq<char>>) -> Seq<char>
    decreases ls.len(),
{
    if ls.len() == 0 {
        Seq::empty()
    } else {
        concat_lines(ls.drop_last()) + ls.last() + seq!['\n']
    }
}

/// The script's lines built so far; `text` holds them, each followed by a
/// newline, after `base`.
struct Lines {
    text: String,
    lines: Ghost<Seq<Seq<char>>>,
    base: Ghost<Seq<char>>,
}

impl Lines {
    spec fn wf(&self) -> bool {
        self.text@ == self.base@ + concat_lines(self.lines@)
    }

    fn new() -> (res: Lines)
        ensures
            res.wf(),
            res.base@ == Seq::<char>::empty(),
            res.lines@ == Seq::<Seq<char>>::empty(),
    {
        let res = Lines { text: String::new(), lines: Ghost(Seq::empty()), base: Ghost(Seq::empty()) };
        assert(res.text@ == res.base@ + concat_lines(res.lines@));
        res
    }

    fn push_line(&mut self, l: &str)
        requires
            old(self).wf(),
        ensures
            final(self).wf(),
            final(self).lines@ == old(self).lines@.push(l@),
            final(self).base == old(self).base,
    {
        let ghost ls = self.lines@;
        self.text.append(l);
        push_char(&mut self.text, '\n');
        self.lines = Ghost(ls.push(l@));
        proof {
            assert(ls.push(l@).drop_last() == ls);
            assert(self.text@ == self.base@ + concat_lines(ls) + l@ + seq!['\n']);
            assert(concat_lines(ls.push(l@)) == concat_lines(ls) + l@ + seq!['\n']);
            assert(self.base@ + concat_lines(ls.push(l@)) == self.base@ + concat_lines(ls) + l@
                + seq!['\n']);
        }
    }
}

/// `"${var}"` as the scripts writes a reference to a pane variable.
pub open spec fn var_ref(var: Seq<char>) -> Seq<char> {
    "\"${"@ + var + "}\""@
}

/// The shell variable holding the pane id of the task called `id`.
pub open spec fn pane_var(id: Seq<char>) -> Seq<char> {
    "PANE_"@ + sanitized(id)
}

/// A `tmux send-keys` line typing `arg` into the pane of `var`, then Enter.
pub open spec fn send_keys_line(var: Seq<char>, arg: Seq<char>) -> Seq<char> {
    "tmux send-keys -t "@ + var_ref(var) + " "@ + arg + " Enter"@
}

/// The opening lines: shebang, shell options, removal of the script file
/// itself when it has a path, and the session name.
pub open spec fn header_lines(path: Option<Seq<char>>, session: Seq<char>) -> Seq<Seq<char>> {
    seq!["#!/usr/bin/env bash"@, "set -euxo pipefail -o posix"@] + match path {
        Some(p) => seq!["rm -f "@ + expand_quoted(p)],
        None => Seq::empty(),
    } + seq!["SESSION_NAME="@ + session]
}

/// With `--attach-or-create`: attach to the session when it exists already.
pub open spec fn attach_check_lines(attach_or_create: bool) -> Seq<Seq<char>> {
    if attach_or_create {
        seq![
            "if tmux has-session -t \"=$SESSION_NAME\" 2>/dev/null; then"@,
            "  exec tmux attach-session -t \"=$SESSION_NAME\""@,
            "fi"@,
        ]
    } else {
        Seq::empty()
    }
}

/// The line that records variable `name` in the environment snapshot.
pub open spec fn snapshot_line(name: Seq<char>) -> Seq<char> {
    "printf 'export %s=%q\\n' '"@ + name + "' \"${"@ + name + "-}\" >> \"$DEVO_ENV_SNAPSHOT\""@
}

pub open spec fn snapshot_var_lines(names: Seq<Seq<char>>) -> Seq<Seq<char>>
    decreases names.len(),
{
    if names.len() == 0 {
        Seq::empty()
    } else {
        snapshot_var_lines(names.drop_last()).push(snapshot_line(names.last()))
    }
}

/// With variables to pass on: a private snapshot file recording each.
pub open spec fn env_snapshot_lines(names: Seq<Seq<char>>) -> Seq<Seq<char>> {
    if names.len() == 0 {
        Seq::empty()
    } else {
        seq![
            "DEVO_ENV_SNAPSHOT=\"$(mktemp)\""@,
            ": > \"$DEVO_ENV_SNAPSHOT\""@,
            "chmod 600 \"$DEVO_ENV_SNAPSHOT\""@,
        ] + snapshot_var_lines(names)
    }
}

pub open spec fn new_session_line() -> Seq<char> {
    "tmux new-session -d -s \"$SESSION_NAME\""@
}

pub open spec fn root_pane_line() -> Seq<char> {
    "ROOT_PANE=\"$(tmux list-panes -t \"=$SESSION_NAME\" -F '#{pane_id}' | head -n1)\""@
}

pub open spec fn hook_head_lines() -> Seq<Seq<char>> {
    seq![
        "# tmux set-hook -t <session> session-closed may not fire due to tmux issue #4267"@,
        "# https://github.com/tmux/tmux/issues/4267"@,
        "# Workaround: use a global session-closed hook and filter by #{hook_session_name}."@,
        "DEVO_SESSION_CLEANUP_SCRIPT=\"$(mktemp)\""@,
        "cat > \"$DEVO_SESSION_CLEANUP_SCRIPT\" <<__DEVO_HOOK__"@,
        "#!/usr/bin/env bash"@,
        "set -euo pipefail -o posix"@,
        "hook_session_name=\"\\$1\""@,
        "target_session_name=\"\\$2\""@,
        "if [ \"\\$hook_session_name\" != \"\\$target_session_name\" ]; then"@,
        "  exit 0"@,
        "fi"@,
        "export SESSION_NAME=\"\\$target_session_name\""@,
    ]
}

pub open spec fn hook_tail_lines() -> Seq<Seq<char>> {
    seq![
        "__DEVO_HOOK__"@,
        "chmod +x \"$DEVO_SESSION_CLEANUP_SCRIPT\""@,
        "DEVO_HOOK_INDEX=$(( $(printf '%s' \"$SESSION_NAME\" | cksum | cut -d' ' -f1) % 2147483647 ))"@,
        "tmux set-hook -g \"session-closed[$DEVO_HOOK_INDEX]\" \"run-shell '$DEVO_SESSION_CLEANUP_SCRIPT #{hook_session_name} $SESSION_NAME'\""@,
    ]
}

/// With a `session-closed` hook: a cleanup script holding the hook's
/// lines, run by a global tmux hook when this session closes.
pub open spec fn closed_hook_lines(hook: Option<Seq<char>>) -> Seq<Seq<char>> {
    match hook {
        None => Seq::empty(),
        Some(h) => hook_head_lines() + split_lines(normalized_hook(h)) + hook_tail_lines(),
    }
}

/// The lines of `ls` that are not blank.
pub open spec fn nonblank(ls: Seq<Seq<char>>) -> Seq<Seq<char>>
    decreases ls.len(),
{
    if ls.len() == 0 {
        Seq::empty()
    } else if is_blank(ls.last()) {
        nonblank(ls.drop_last())
    } else {
        nonblank(ls.drop_last()).push(ls.last())
    }
}

/// One `send-keys` line for each command line that is not blank.
pub open spec fn command_lines(var: Seq<char>, cmds: Seq<Seq<char>>) -> Seq<Seq<char>>
    decreases cmds.len(),
{
    if cmds.len() == 0 {
        Seq::empty()
    } else if is_blank(cmds.last()) {
        command_lines(var, cmds.drop_last())
    } else {
        command_lines(var, cmds.drop_last()).push(send_keys_line(var, single_quoted(cmds.last())))
    }
}

/// The line that creates (or, for the root, names) the pane of a task.
pub open spec fn placement_line(var: Seq<char>, p: SpecPane) -> Seq<char> {
    match p {
        SpecPane::Root => var + "=\"$ROOT_PANE\""@,
        SpecPane::RightOf(b) => var + "=\"$(tmux split-window -t "@ + var_ref(pane_var(b))
            + " -h -P -F '#{pane_id}')\""@,
        SpecPane::DownOf(b) => var + "=\"$(tmux split-window -t "@ + var_ref(pane_var(b))
            + " -v -P -F '#{pane_id}')\""@,
    }
}

/// The `send-keys` line that sources the environment snapshot.
pub open spec fn source_line(var: Seq<char>) -> Seq<char> {
    send_keys_line(var, expand_quoted("source \"$DEVO_ENV_SNAPSHOT\""@))
}

/// The lines for one task: its pane, the pane's title and task id, the
/// snapshot when variables are passed on, then its commands.
pub open spec fn task_lines(cfg: SpecConfig, t: SpecTask, inherit: bool) -> Seq<Seq<char>> {
    let var = pane_var(t.id);
    seq![
        placement_line(var, effective_pane(cfg, t)->Ok_0),
        "tmux select-pane -t "@ + var_ref(var) + " -T "@ + single_quoted(t.id),
        "tmux set-option -p -t "@ + var_ref(var) + " @devo_task_id "@ + single_quoted(t.id),
    ] + (if inherit {
        seq![source_line(var)]
    } else {
        Seq::empty()
    }) + command_lines(var, t.cmd)
}

pub open spec fn all_task_lines(cfg: SpecConfig, ts: Seq<SpecTask>, inherit: bool) -> Seq<Seq<char>>
    decreases ts.len(),
{
    if ts.len() == 0 {
        Seq::empty()
    } else {
        all_task_lines(cfg, ts.drop_last(), inherit) + task_lines(cfg, ts.last(), inherit)
    }
}

/// With `focus`: select that task's pane.
pub open spec fn focus_lines(focus: Option<Seq<char>>) -> Seq<Seq<char>> {
    match focus {
        None => Seq::empty(),
        Some(f) => seq!["tmux select-pane -t "@ + var_ref(pane_var(f))],
    }
}

/// With a `session-started` hook: its lines that are not blank, run in the
/// script itself after the tasks' commands.
pub open spec fn started_hook_lines(hook: Option<Seq<char>>) -> Seq<Seq<char>> {
    match hook {
        None => Seq::empty(),
        Some(h) => seq![
            "# hook_session_started runs once after panes and task commands are started."@,
            "export SESSION_NAME"@,
        ] + nonblank(split_lines(h)),
    }
}

pub open spec fn attach_lines(opts: SpecRunOptions) -> Seq<Seq<char>> {
    if opts.attach || opts.attach_or_create {
        seq!["tmux attach-session -t \"=$SESSION_NAME\""@]
    } else {
        Seq::empty()
    }
}

/// The lines of the script, or why there is none: the tasks must be
/// orderable and `focus`, if given, must name a task.
pub open spec fn script_lines(cfg: SpecConfig, opts: SpecRunOptions, path: Option<Seq<char>>) -> Result<Seq<Seq<char>>, SpecError> {
    match sorted_tasks(cfg) {
        Err(e) => Err(e),
        Ok(order) => if cfg.focus is Some && !has_task_id(cfg.tasks, cfg.focus->Some_0) {
            Err(SpecError::UnknownFocus(cfg.focus->Some_0))
        } else {
            Ok(script_body(cfg, opts, path, order))
        },
    }
}

/// The lines of the script for the tasks in the order `order`, in turn:
/// header, attach check, environment snapshot, session creation,
/// `session-closed` hook, root pane, the tasks, focus, `session-started`
/// hook, attach.
pub open spec fn script_body(
    cfg: SpecConfig,
    opts: SpecRunOptions,
    path: Option<Seq<char>>,
    order: Seq<SpecTask>,
) -> Seq<Seq<char>> {
    header_lines(path, session_value(cfg, opts.session)) + attach_check_lines(opts.attach_or_create)
        + env_snapshot_lines(cfg.inherit_env) + seq![new_session_line()] + closed_hook_lines(
        cfg.hook_session_closed,
    ) + seq![root_pane_line()] + all_task_lines(cfg, order, cfg.inherit_env.len() > 0)
        + focus_lines(cfg.focus) + started_hook_lines(cfg.hook_session_started) + attach_lines(
        opts,
    )
}

/// The text of the script: its lines, each ending in a newline.
pub open spec fn script_text(cfg: SpecConfig, opts: SpecRunOptions, path: Option<Seq<char>>) -> Result<Seq<char>, SpecError> {
    match script_lines(cfg, opts, path) {
        Err(e) => Err(e),
        Ok(ls) => Ok(concat_lines(ls)),
    }
}

fn blank_str(s: &str) -> (b: bool)
    ensures
        b == is_blank(s@),
{
    let cs = to_chars(s);
    let mut i: usize = 0;
    while i < cs.len()
        invariant
            i <= cs.len(),
            cs@ == s@,
            forall|j: int| 0 <= j < i ==> crate::text::is_ws(#[trigger] cs@[j]),
        decreases cs.len() - i,
    {
        if !is_ws_char(cs[i]) {
            return false;
        }
        i = i + 1;
    }
    true
}

fn pane_var_name(id: &str) -> (res: String)
    ensures
        res@ == pane_var(id@),
{
    let mut s = String::from_str("PANE_");
    s.append(sanitize_var(id).as_str());
    s
}

fn var_ref_string(var: &str) -> (res: String)
    ensures
        res@ == var_ref(var@),
{
    let mut s = String::from_str("\"${");
    s.append(var);
    s.append("}\"");
    s
}

fn send_keys_string(var: &str, arg: &str) -> (res: String)
    ensures
        res@ == send_keys_line(var@, arg@),
{
    let mut s = String::from_str("tmux send-keys -t ");
    s.append(var_ref_string(var).as_str());
    s.append(" ");
    s.append(arg);
    s.append(" Enter");
    s
}

fn emit_header(w: &mut Lines, path: Option<&str>, session: &String)
    requires
        old(w).wf(),
    ensures
        final(w).wf(),
        final(w).base == old(w).base,
        final(w).lines@ == old(w).lines@ + header_lines(
            match path {
                Some(p) => Some(p@),
                None => None,
            },
            session@,
        ),
{
    let ghost l0 = w.lines@;
    w.push_line("#!/usr/bin/env bash");
    w.push_line("set -euxo pipefail -o posix");
    match path {
        Some(p) => {
            let mut l = String::from_str("rm -f ");
            l.append(sh_expand_quote(p).as_str());
            w.push_line(l.as_str());
        },
        None => {},
    }
    let mut l = String::from_str("SESSION_NAME=");
    l.append(session.as_str());
    w.push_line(l.as_str());
    assert(w.lines@ =~= l0 + header_lines(
        match path {
            Some(p) => Some(p@),
            None => None,
        },
        session@,
    ));
}

fn emit_attach_check(w: &mut Lines, attach_or_create: bool)
    requires
        old(w).wf(),
    ensures
        final(w).wf(),
        final(w).base == old(w).base,
        final(w).lines@ == old(w).lines@ + attach_check_lines(attach_or_create),
{
    let ghost l0 = w.lines@;
    if attach_or_create {
        w.push_line("if tmux has-session -t \"=$SESSION_NAME\" 2>/dev/null; then");
        w.push_line("  exec tmux attach-session -t \"=$SESSION_NAME\"");
        w.push_line("fi");
        assert(w.lines@ =~= l0 + attach_check_lines(true));
    } else {
        assert(l0 + Seq::<Seq<char>>::empty() == l0);
    }
}

fn emit_env_snapshot(w: &mut Lines, names: &Vec<String>)
    requires
        old(w).wf(),
    ensures
        final(w).wf(),
        final(w).base == old(w).base,
        final(w).lines@ == old(w).lines@ + env_snapshot_lines(strings_view(names@)),
{
    let ghost l0 = w.lines@;
    let ghost nv = strings_view(names@);
    if names.len() == 0 {
        assert(l0 + Seq::<Seq<char>>::empty() == l0);
        return;
    }
    w.push_line("DEVO_ENV_SNAPSHOT=\"$(mktemp)\"");
    w.push_line(": > \"$DEVO_ENV_SNAPSHOT\"");
    w.push_line("chmod 600 \"$DEVO_ENV_SNAPSHOT\"");
    let ghost head = seq![
        "DEVO_ENV_SNAPSHOT=\"$(mktemp)\""@,
        ": > \"$DEVO_ENV_SNAPSHOT\""@,
        "chmod 600 \"$DEVO_ENV_SNAPSHOT\""@,
    ];
    assert(w.lines@ =~= l0 + head + snapshot_var_lines(nv.take(0)));
    let mut i: usize = 0;
    while i < names.len()
        invariant
            w.wf(),
            w.base == old(w).base,
            i <= names.len(),
            nv == strings_view(names@),
            w.lines@ == l0 + head + snapshot_var_lines(nv.take(i as int)),
        decreases names.len() - i,
    {
        let name = names[i].as_str();
        let mut l = String::from_str("printf 'export %s=%q\\n' '");
        l.append(name);
        l.append("' \"${");
        l.append(name);
        l.append("-}\" >> \"$DEVO_ENV_SNAPSHOT\"");
        w.push_line(l.as_str());
        proof {
            assert(nv.take(i + 1).drop_last() == nv.take(i as int));
            assert(nv.take(i + 1).last() == name@);
        }
        i = i + 1;
    }
    assert(nv.take(names.len() as int) == nv);
    assert(w.lines@ =~= l0 + env_snapshot_lines(nv));
}

fn emit_lines(w: &mut Lines, ls: &Vec<Vec<char>>, all: bool)
    requires
        old(w).wf(),
    ensures
        final(w).wf(),
        final(w).base == old(w).base,
        all ==> final(w).lines@ == old(w).lines@ + ls@.map_values(|l: Vec<char>| l@),
        !all ==> final(w).lines@ == old(w).lines@ + nonblank(ls@.map_values(|l: Vec<char>| l@)),
{
    let ghost l0 = w.lines@;
    let ghost lv = ls@.map_values(|l: Vec<char>| l@);
    let mut i: usize = 0;
    assert(l0 + lv.take(0) == l0);
    assert(l0 + nonblank(lv.take(0)) == l0);
    while i < ls.len()
        invariant
            w.wf(),
            w.base == old(w).base,
            i <= ls.len(),
            lv == ls@.map_values(|l: Vec<char>| l@),
            all ==> w.lines@ == l0 + lv.take(i as int),
            !all ==> w.lines@ == l0 + nonblank(lv.take(i as int)),
        decreases ls.len() - i,
    {
        let l = string_of(ls[i].as_slice());
        proof {
            assert(lv.take(i + 1).drop_last() == lv.take(i as int));
            assert(lv.take(i + 1).last() == l@);
            assert(lv.take(i + 1) == lv.take(i as int).push(l@));
        }
        if all || !blank_str(l.as_str()) {
            w.push_line(l.as_str());
        }
        i = i + 1;
    }
    assert(lv.take(ls.len() as int) == lv);
}

fn emit_closed_hook(w: &mut Lines, hook: &Option<String>)
    requires
        old(w).wf(),
    ensures
        final(w).wf(),
        final(w).base == old(w).base,
        final(w).lines@ == old(w).lines@ + closed_hook_lines(opt_view(*hook)),
{
    let ghost l0 = w.lines@;
    match hook {
        None => {
            assert(l0 + Seq::<Seq<char>>::empty() == l0);
        },
        Some(h) => {
            w.push_line(
                "# tmux set-hook -t <session> session-closed may not fire due to tmux issue #4267",
            );
            w.push_line("# https://github.com/tmux/tmux/issues/4267");
            w.push_line(
                "# Workaround: use a global session-closed hook and filter by #{hook_session_name}.",
            );
            w.push_line("DEVO_SESSION_CLEANUP_SCRIPT=\"$(mktemp)\"");
            w.push_line("cat > \"$DEVO_SESSION_CLEANUP_SCRIPT\" <<__DEVO_HOOK__");
            w.push_line("#!/usr/bin/env bash");
            w.push_line("set -euo pipefail -o posix");
            w.push_line("hook_session_name=\"\\$1\"");
            w.push_line("target_session_name=\"\\$2\"");
            w.push_line("if [ \"\\$hook_session_name\" != \"\\$target_session_name\" ]; then");
            w.push_line("  exit 0");
            w.push_line("fi");
            w.push_line("export SESSION_NAME=\"\\$target_session_name\"");
            assert(w.lines@ =~= l0 + hook_head_lines());
            let normalized = normalize_session_closed_hook(h.as_str());
            let ls = lines_of(to_chars(normalized.as_str()).as_slice());
            emit_lines(w, &ls, true);
            let ghost l1 = w.lines@;
            w.push_line("__DEVO_HOOK__");
            w.push_line("chmod +x \"$DEVO_SESSION_CLEANUP_SCRIPT\"");
            w.push_line(
                "DEVO_HOOK_INDEX=$(( $(printf '%s' \"$SESSION_NAME\" | cksum | cut -d' ' -f1) % 2147483647 ))",
            );
            w.push_line(
                "tmux set-hook -g \"session-closed[$DEVO_HOOK_INDEX]\" \"run-shell '$DEVO_SESSION_CLEANUP_SCRIPT #{hook_session_name} $SESSION_NAME'\"",
            );
            assert(w.lines@ =~= l1 + hook_tail_lines());
            assert(w.lines@ =~= l0 + closed_hook_lines(opt_view(*hook)));
        },
    }
}

fn emit_task(w: &mut Lines, cfg: &Config, task: &Task, inherit: bool)
    requires
        old(w).wf(),
        effective_pane(cfg@, task@) is Ok,
    ensures
        final(w).wf(),
        final(w).base == old(w).base,
        final(w).lines@ == old(w).lines@ + task_lines(cfg@, task@, inherit),
{
    let ghost l0 = w.lines@;
    let var = pane_var_name(task.id.as_str());
    let mut placement = String::new();
    placement.append(var.as_str());
    match effective_pane_spec(cfg, task) {
        Err(_) => {
            return;
        },
        Ok(PaneSpec::Root) => {
            placement.append("=\"$ROOT_PANE\"");
        },
        Ok(PaneSpec::RightOf(base)) => {
            placement.append("=\"$(tmux split-window -t ");
            placement.append(var_ref_string(pane_var_name(base.as_str()).as_str()).as_str());
            placement.append(" -h -P -F '#{pane_id}')\"");
        },
        Ok(PaneSpec::DownOf(base)) => {
            placement.append("=\"$(tmux split-window -t ");
            placement.append(var_ref_string(pane_var_name(base.as_str()).as_str()).as_str());
            placement.append(" -v -P -F '#{pane_id}')\"");
        },
    }
    w.push_line(placement.as_str());
    let quoted_id = sh_single_quote(task.id.as_str());
    let mut l = String::from_str("tmux select-pane -t ");
    l.append(var_ref_string(var.as_str()).as_str());
    l.append(" -T ");
    l.append(quoted_id.as_str());
    w.push_line(l.as_str());
    let mut l = String::from_str("tmux set-option -p -t ");
    l.append(var_ref_string(var.as_str()).as_str());
    l.append(" @devo_task_id ");
    l.append(quoted_id.as_str());
    w.push_line(l.as_str());
    let ghost l1 = w.lines@;
    let ghost three = seq![
        placement_line(var@, effective_pane(cfg@, task@)->Ok_0),
        "tmux select-pane -t "@ + var_ref(var@) + " -T "@ + single_quoted(task@.id),
        "tmux set-option -p -t "@ + var_ref(var@) + " @devo_task_id "@ + single_quoted(task@.id),
    ];
    assert(l1 =~= l0 + three);
    if inherit {
        let src = sh_expand_quote("source \"$DEVO_ENV_SNAPSHOT\"");
        w.push_line(send_keys_string(var.as_str(), src.as_str()).as_str());
    }
    let ghost l2 = w.lines@;
    let ghost extra = if inherit {
        seq![source_line(var@)]
    } else {
        Seq::<Seq<char>>::empty()
    };
    assert(l2 =~= l1 + extra);
    let cmds = task.cmd.lines();
    let ghost cv = cmds@.map_values(|s: &str| s@);
    let mut i: usize = 0;
    assert(l2 + command_lines(var@, cv.take(0)) == l2);
    while i < cmds.len()
        invariant
            w.wf(),
            w.base == old(w).base,
            i <= cmds.len(),
            cv == cmds@.map_values(|s: &str| s@),
            w.lines@ == l2 + command_lines(var@, cv.take(i as int)),
        decreases cmds.len() - i,
    {
        let line = cmds[i];
        proof {
            assert(cv.take(i + 1).drop_last() == cv.take(i as int));
            assert(cv.take(i + 1).last() == line@);
        }
        if !blank_str(line) {
            let q = sh_single_quote(line);
            w.push_line(send_keys_string(var.as_str(), q.as_str()).as_str());
        }
        i = i + 1;
    }
    assert(cv.take(cmds.len() as int) == cv);
    assert(cv == task@.cmd);
    assert(l0 + three + extra + command_lines(var@, task@.cmd) == l0 + task_lines(
        cfg@,
        task@,
        inherit,
    ));
}

fn emit_tasks(w: &mut Lines, cfg: &Config, tasks: &Vec<Task>, inherit: bool)
    requires
        old(w).wf(),
        forall|i: int| 0 <= i < tasks.len() ==> effective_pane(cfg@, #[trigger] tasks@[i]@) is Ok,
    ensures
        final(w).wf(),
        final(w).base == old(w).base,
        final(w).lines@ == old(w).lines@ + all_task_lines(cfg@, tasks_view(tasks@), inherit),
{
    let ghost l0 = w.lines@;
    let ghost tv = tasks_view(tasks@);
    let mut i: usize = 0;
    assert(l0 + all_task_lines(cfg@, tv.take(0), inherit) == l0);
    while i < tasks.len()
        invariant
            w.wf(),
            w.base == old(w).base,
            i <= tasks.len(),
            tv == tasks_view(tasks@),
            forall|i: int| 0 <= i < tasks.len() ==> effective_pane(cfg@, #[trigger] tasks@[i]@) is Ok,
            w.lines@ == l0 + all_task_lines(cfg@, tv.take(i as int), inherit),
        decreases tasks.len() - i,
    {
        let ghost before = w.lines@;
        emit_task(w, cfg, &tasks[i], inherit);
        proof {
            assert(tv.take(i + 1).drop_last() == tv.take(i as int));
            assert(tv.take(i + 1).last() == tasks@[i as int]@);
            let a = all_task_lines(cfg@, tv.take(i as int), inherit);
            let b = task_lines(cfg@, tasks@[i as int]@, inherit);
            assert(l0 + a + b == l0 + (a + b));
        }
        i = i + 1;
    }
    assert(tv.take(tasks.len() as int) == tv);
}

proof fn lemma_parents_ok_upto(cfg: SpecConfig, k: int, i: int)
    requires
        0 <= i < k <= cfg.tasks.len(),
        parents_upto(cfg, k) is Ok,
    ensures
        pane_parent(cfg, i) is Ok,
    decreases k,
{
    if i < k - 1 {
        lemma_parents_ok_upto(cfg, k - 1, i);
    }
}

/// When the tasks can be ordered, every task's pane can be read.
pub proof fn lemma_sorted_panes_readable(cfg: SpecConfig)
    requires
        sorted_tasks(cfg) is Ok,
    ensures
        forall|k: int|
            0 <= k < sorted_tasks(cfg)->Ok_0.len() ==> effective_pane(
                cfg,
                #[trigger] sorted_tasks(cfg)->Ok_0[k],
            ) is Ok,
{
    let ord = pane_order(cfg)->Ok_0;
    lemma_pane_order_is_topological(cfg);
    assert forall|k: int| 0 <= k < sorted_tasks(cfg)->Ok_0.len() implies effective_pane(
        cfg,
        #[trigger] sorted_tasks(cfg)->Ok_0[k],
    ) is Ok by {
        let i = ord[k];
        lemma_parents_ok_upto(cfg, cfg.tasks.len() as int, i);
    }
}

#[verifier::rlimit(60)]
fn emit_script(w: &mut Lines, cfg: &Config, opts: &RunOptions, script_path: Option<&str>, tasks: &Vec<Task>)
    requires
        old(w).wf(),
        old(w).lines@ == Seq::<Seq<char>>::empty(),
        forall|i: int| 0 <= i < tasks.len() ==> effective_pane(cfg@, #[trigger] tasks@[i]@) is Ok,
    ensures
        final(w).wf(),
        final(w).base == old(w).base,
        final(w).lines@ == script_body(
            cfg@,
            opts@,
            match script_path {
                Some(p) => Some(p@),
                None => None,
            },
            tasks_view(tasks@),
        ),
{
    let override_session = match &opts.session {
        Some(s) => Some(s.as_str()),
        None => None,
    };
    let session = session_shell_value(cfg, override_session);
    let inherit = cfg.inherit_env.len() > 0;
    emit_header(w, script_path, &session);
    assert(w.lines@ =~= header_lines(
        match script_path {
            Some(p) => Some(p@),
            None => None,
        },
        session@,
    ));
    emit_attach_check(w, opts.attach_or_create);
    emit_env_snapshot(w, &cfg.inherit_env);
    let ghost l3 = w.lines@;
    w.push_line("tmux new-session -d -s \"$SESSION_NAME\"");
    assert(w.lines@ =~= l3 + seq![new_session_line()]);
    emit_closed_hook(w, &cfg.hook_session_closed);
    let ghost l5 = w.lines@;
    w.push_line(
        "ROOT_PANE=\"$(tmux list-panes -t \"=$SESSION_NAME\" -F '#{pane_id}' | head -n1)\"",
    );
    assert(w.lines@ =~= l5 + seq![root_pane_line()]);
    emit_tasks(w, cfg, tasks, inherit);
    let ghost before_focus = w.lines@;
    match &cfg.focus {
        Some(focus) => {
            let mut l = String::from_str("tmux select-pane -t ");
            l.append(var_ref_string(pane_var_name(focus.as_str()).as_str()).as_str());
            w.push_line(l.as_str());
        },
        None => {},
    }
    assert(w.lines@ =~= before_focus + focus_lines(opt_view(cfg.focus)));
    let ghost before_started = w.lines@;
    match &cfg.hook_session_started {
        Some(h) => {
            w.push_line(
                "# hook_session_started runs once after panes and task commands are started.",
            );
            w.push_line("export SESSION_NAME");
            let ls = lines_of(to_chars(h.as_str()).as_slice());
            emit_lines(w, &ls, false);
        },
        None => {},
    }
    assert(w.lines@ =~= before_started + started_hook_lines(opt_view(cfg.hook_session_started)));
    let ghost before_attach = w.lines@;
    if opts.attach || opts.attach_or_create {
        w.push_line("tmux attach-session -t \"=$SESSION_NAME\"");
    }
    assert(w.lines@ =~= before_attach + attach_lines(opts@));
}

/// Builds the bash script for `cfg` and `opts`; `script_path` is where the
/// script will be written, which the script then removes.
pub fn generate_script(cfg: &Config, opts: &RunOptions, script_path: Option<&str>) -> (res:
    Result<String, DevoError>)
    ensures
        res_view(res, |s: String| s@) == script_text(
            cfg@,
            opts@,
            match script_path {
                Some(p) => Some(p@),
                None => None,
            },
        ),
{
    let tasks = match topo_sort(cfg) {
        Err(e) => {
            return Err(e);
        },
        Ok(t) => t,
    };
    proof {
        lemma_sorted_panes_readable(cfg@);
        assert forall|i: int| 0 <= i < tasks.len() implies effective_pane(
            cfg@,
            #[trigger] tasks@[i]@,
        ) is Ok by {
            assert(tasks@[i]@ == sorted_tasks(cfg@)->Ok_0[i]);
        }
    }
    if let Some(focus) = &cfg.focus {
        if !crate::validate::task_id_known(&cfg.tasks, focus) {
            return Err(DevoError::UnknownFocus(crate::config::dup_string(focus)));
        }
    }
    let mut w = Lines::new();
    emit_script(&mut w, cfg, opts, script_path, &tasks);
    assert(w.text@ =~= concat_lines(w.lines@));
    Ok(w.text)
}

/// A configuration that passes the checks always yields a script.
pub proof fn lemma_checked_config_has_script(
    cfg: SpecConfig,
    opts: SpecRunOptions,
    path: Option<Seq<char>>,
)
    requires
        config_check(cfg) is Ok,
    ensures
        script_text(cfg, opts, path) is Ok,
{
}

/// The lines that set up a task's pane: its creation, its title, its task
/// id, and the snapshot source when variables are passed on.
pub open spec fn setup_lines(cfg: SpecConfig, t: SpecTask, inherit: bool) -> Seq<Seq<char>> {
    let var = pane_var(t.id);
    seq![
        placement_line(var, effective_pane(cfg, t)->Ok_0),
        "tmux select-pane -t "@ + var_ref(var) + " -T "@ + single_quoted(t.id),
        "tmux set-option -p -t "@ + var_ref(var) + " @devo_task_id "@ + single_quoted(t.id),
    ] + (if inherit {
        seq![source_line(var)]
    } else {
        Seq::empty()
    })
}

/// One `send-keys` line into the task's pane for each of its command lines
/// that is not blank, in the order the task lists them.
pub open spec fn sent_lines(t: SpecTask) -> Seq<Seq<char>> {
    nonblank(t.cmd).map_values(|l: Seq<char>| send_keys_line(pane_var(t.id), single_quoted(l)))
}

/// The block of a task: its setup lines, then its commands.
pub open spec fn task_block(cfg: SpecConfig, t: SpecTask, inherit: bool) -> Seq<Seq<char>> {
    setup_lines(cfg, t, inherit) + sent_lines(t)
}

/// The blocks, one after another.
pub open spec fn flatten_blocks(bs: Seq<Seq<Seq<char>>>) -> Seq<Seq<char>>
    decreases bs.len(),
{
    if bs.len() == 0 {
        Seq::empty()
    } else {
        flatten_blocks(bs.drop_last()) + bs.last()
    }
}

/// The script's lines before the tasks' blocks.
pub open spec fn lines_before_tasks(cfg: SpecConfig, opts: SpecRunOptions, path: Option<Seq<char>>) -> Seq<Seq<char>> {
    header_lines(path, session_value(cfg, opts.session)) + attach_check_lines(opts.attach_or_create)
        + env_snapshot_lines(cfg.inherit_env) + seq![new_session_line()] + closed_hook_lines(
        cfg.hook_session_closed,
    ) + seq![root_pane_line()]
}

/// The script's lines after the tasks' blocks.
pub open spec fn lines_after_tasks(cfg: SpecConfig, opts: SpecRunOptions) -> Seq<Seq<char>> {
    focus_lines(cfg.focus) + started_hook_lines(cfg.hook_session_started) + attach_lines(opts)
}

proof fn lemma_command_lines_sent(var: Seq<char>, cmds: Seq<Seq<char>>)
    ensures
        command_lines(var, cmds) == nonblank(cmds).map_values(
            |l: Seq<char>| send_keys_line(var, single_quoted(l)),
        ),
    decreases cmds.len(),
{
    let f = |l: Seq<char>| send_keys_line(var, single_quoted(l));
    if cmds.len() > 0 {
        lemma_command_lines_sent(var, cmds.drop_last());
        if !is_blank(cmds.last()) {
            let nb = nonblank(cmds.drop_last());
            assert(nb.push(cmds.last()).map_values(f) =~= nb.map_values(f).push(f(cmds.last())));
        }
    } else {
        assert(nonblank(cmds).map_values(f) =~= Seq::<Seq<char>>::empty());
    }
}

proof fn lemma_task_lines_are_block(cfg: SpecConfig, t: SpecTask, inherit: bool)
    ensures
        task_lines(cfg, t, inherit) == task_block(cfg, t, inherit),
{
    lemma_command_lines_sent(pane_var(t.id), t.cmd);
}

proof fn lemma_all_task_lines_are_blocks(cfg: SpecConfig, ts: Seq<SpecTask>, inherit: bool)
    ensures
        all_task_lines(cfg, ts, inherit) == flatten_blocks(
            ts.map_values(|t: SpecTask| task_block(cfg, t, inherit)),
        ),
    decreases ts.len(),
{
    let f = |t: SpecTask| task_block(cfg, t, inherit);
    if ts.len() > 0 {
        lemma_all_task_lines_are_blocks(cfg, ts.drop_last(), inherit);
        lemma_task_lines_are_block(cfg, ts.last(), inherit);
        assert(ts.map_values(f).drop_last() =~= ts.drop_last().map_values(f));
        assert(ts.map_values(f).last() == f(ts.last()));
    } else {
        assert(ts.map_values(f) =~= Seq::<Seq<Seq<char>>>::empty());
    }
}

/// Commands follow the pane order: the script is its opening lines, then
/// for every task in pane order its setup lines followed by one `send-keys`
/// line into its pane for each non-blank command line, in the task's
/// order, then its closing lines.
pub proof fn lemma_commands_follow_pane_order(
    cfg: SpecConfig,
    opts: SpecRunOptions,
    path: Option<Seq<char>>,
)
    requires
        script_text(cfg, opts, path) is Ok,
    ensures
        script_text(cfg, opts, path)->Ok_0 == concat_lines(
            lines_before_tasks(cfg, opts, path) + flatten_blocks(
                sorted_tasks(cfg)->Ok_0.map_values(
                    |t: SpecTask| task_block(cfg, t, cfg.inherit_env.len() > 0),
                ),
            ) + lines_after_tasks(cfg, opts),
        ),
{
    let inherit = cfg.inherit_env.len() > 0;
    let order = sorted_tasks(cfg)->Ok_0;
    lemma_all_task_lines_are_blocks(cfg, order, inherit);
    let a = lines_before_tasks(cfg, opts, path);
    let b = all_task_lines(cfg, order, inherit);
    let c = lines_after_tasks(cfg, opts);
    assert(script_body(cfg, opts, path, order) =~= a + b + c);
}

/// Where the lines of task `ts[k]` start among the lines of all the tasks.
proof fn task_offset(cfg: SpecConfig, ts: Seq<SpecTask>, inherit: bool, k: int) -> (o: int)
    requires
        0 <= k < ts.len(),
    ensures
        0 <= o,
        o + task_lines(cfg, ts[k], inherit).len() <= all_task_lines(cfg, ts, inherit).len(),
        forall|m: int|
            0 <= m < task_lines(cfg, ts[k], inherit).len() ==> all_task_lines(cfg, ts, inherit)[o
                + m] == task_lines(cfg, ts[k], inherit)[m],
    decreases ts.len(),
{
    let prev = all_task_lines(cfg, ts.drop_last(), inherit);
    if k == ts.len() - 1 {
        prev.len() as int
    } else {
        let o = task_offset(cfg, ts.drop_last(), inherit, k);
        assert(ts.drop_last()[k] == ts[k]);
        o
    }
}

/// With variables to pass on, every task's pane sources the environment
/// snapshot, whatever its placement: right after the task's title and
/// task-id lines comes the `send-keys` line that sources the snapshot in
/// that task's pane.
pub proof fn lemma_every_task_sources_snapshot(
    cfg: SpecConfig,
    opts: SpecRunOptions,
    path: Option<Seq<char>>,
    k: int,
)
    requires
        script_lines(cfg, opts, path) is Ok,
        cfg.inherit_env.len() > 0,
        0 <= k < sorted_tasks(cfg)->Ok_0.len(),
    ensures
        ({
            let t = sorted_tasks(cfg)->Ok_0[k];
            let ls = script_lines(cfg, opts, path)->Ok_0;
            let var = pane_var(t.id);
            exists|j: int|
                {
                    &&& 1 <= j && j + 1 < ls.len()
                    &&& ls[j - 1] == "tmux select-pane -t "@ + var_ref(var) + " -T "@
                        + single_quoted(t.id)
                    &&& #[trigger] ls[j] == "tmux set-option -p -t "@ + var_ref(var) + " @devo_task_id "@
                        + single_quoted(t.id)
                    &&& ls[j + 1] == send_keys_line(
                        var,
                        expand_quoted("source \"$DEVO_ENV_SNAPSHOT\""@),
                    )
                }
        }),
{
    let order = sorted_tasks(cfg)->Ok_0;
    let t = order[k];
    let var = pane_var(t.id);
    let ls = script_lines(cfg, opts, path)->Ok_0;
    let a = lines_before_tasks(cfg, opts, path);
    let b = all_task_lines(cfg, order, true);
    let c = lines_after_tasks(cfg, opts);
    assert(ls =~= a + b + c);
    let o = task_offset(cfg, order, true, k);
    let tl = task_lines(cfg, t, true);
    assert(tl[1] == "tmux select-pane -t "@ + var_ref(var) + " -T "@ + single_quoted(t.id));
    assert(tl[2] == "tmux set-option -p -t "@ + var_ref(var) + " @devo_task_id "@
        + single_quoted(t.id));
    assert(tl[3] == source_line(var));
    let j = a.len() + o + 2;
    assert(ls[j - 1] == b[o + 1]);
    assert(ls[j] == b[o + 2]);
    assert(ls[j + 1] == b[o + 3]);
}

/// The frame of every script: it starts with the shebang and the shell
/// options, removes the script file when it has a path, then sets
/// `SESSION_NAME`; right after the tasks' lines comes the focus selection
/// when `focus` is given; and with `--attach` or `--attach-or-create` the
/// last line attaches to the session.
pub proof fn lemma_script_frame(cfg: SpecConfig, opts: SpecRunOptions, path: Option<Seq<char>>)
    requires
        script_lines(cfg, opts, path) is Ok,
    ensures
        ({
            let ls = script_lines(cfg, opts, path)->Ok_0;
            let s = if path is Some {
                3int
            } else {
                2int
            };
            let x = lines_before_tasks(cfg, opts, path).len() + all_task_lines(
                cfg,
                sorted_tasks(cfg)->Ok_0,
                cfg.inherit_env.len() > 0,
            ).len() as int;
            &&& ls.len() > s
            &&& ls[0] == "#!/usr/bin/env bash"@
            &&& ls[1] == "set -euxo pipefail -o posix"@
            &&& path matches Some(p) ==> ls[2] == "rm -f "@ + expand_quoted(p)
            &&& ls[s] == "SESSION_NAME="@ + session_value(cfg, opts.session)
            &&& cfg.focus matches Some(f) ==> x < ls.len() && ls[x] == "tmux select-pane -t "@
                + var_ref(pane_var(f))
            &&& (opts.attach || opts.attach_or_create) ==> ls.last()
                == "tmux attach-session -t \"=$SESSION_NAME\""@
        }),
{
    let order = sorted_tasks(cfg)->Ok_0;
    let inherit = cfg.inherit_env.len() > 0;
    let ls = script_lines(cfg, opts, path)->Ok_0;
    let h = header_lines(path, session_value(cfg, opts.session));
    let a = lines_before_tasks(cfg, opts, path);
    let b = all_task_lines(cfg, order, inherit);
    let f = focus_lines(cfg.focus);
    let st = started_hook_lines(cfg.hook_session_started);
    let at = attach_lines(opts);
    assert(ls =~= a + b + (f + st + at));
    let rest = attach_check_lines(opts.attach_or_create) + env_snapshot_lines(cfg.inherit_env)
        + seq![new_session_line()] + closed_hook_lines(cfg.hook_session_closed) + seq![
        root_pane_line()];
    assert(a =~= h + rest);
    assert(ls[0] == h[0]);
    assert(ls[1] == h[1]);
    if path is Some {
        assert(ls[2] == h[2]);
        assert(ls[3] == h[3]);
    } else {
        assert(ls[2] == h[2]);
    }
    if cfg.focus is Some {
        assert(ls[a.len() + b.len() as int] == f[0]);
    }
    if opts.attach || opts.attach_or_create {
        assert(ls.last() == at[0]);
    }
}

/// Keeping the non-blank lines: every kept line is non-blank, a list with
/// no blank line is kept whole, and keeping works piece by piece, so the
/// kept lines are exactly the non-blank ones, in order.
pub proof fn lemma_nonblank_filters(a: Seq<Seq<char>>, b: Seq<Seq<char>>)
    ensures
        forall|k: int| 0 <= k < nonblank(a).len() ==> !is_blank(#[trigger] nonblank(a)[k]),
        (forall|k: int| 0 <= k < a.len() ==> !is_blank(#[trigger] a[k])) ==> nonblank(a) == a,
        nonblank(a + b) == nonblank(a) + nonblank(b),
    decreases a.len() + b.len(),
{
    if b.len() > 0 {
        lemma_nonblank_filters(a, b.drop_last());
        assert((a + b).drop_last() =~= a + b.drop_last());
        assert((a + b).last() == b.last());
        if !is_blank(b.last()) {
            assert(nonblank(a) + nonblank(b.drop_last()).push(b.last()) =~= (nonblank(a)
                + nonblank(b.drop_last())).push(b.last()));
        }
    } else {
        assert(a + b =~= a);
        assert(nonblank(a) + nonblank(b) =~= nonblank(a));
    }
    if a.len() > 0 {
        lemma_nonblank_filters(a.drop_last(), Seq::empty());
        let n0 = nonblank(a.drop_last());
        assert forall|k: int| 0 <= k < nonblank(a).len() implies !is_blank(
            #[trigger] nonblank(a)[k],
        ) by {
            if !is_blank(a.last()) && k == n0.len() {
            } else {
                assert(nonblank(a)[k] == n0[k]);
            }
        }
        if forall|k: int| 0 <= k < a.len() ==> !is_blank(#[trigger] a[k]) {
            assert forall|k: int| 0 <= k < a.drop_last().len() implies !is_blank(
                #[trigger] a.drop_last()[k],
            ) by {
                assert(a.drop_last()[k] == a[k]);
            }
            assert(!is_blank(a[a.len() - 1]));
            assert(a.drop_last().push(a.last()) =~= a);
        }
    }
}

/// The cleanup script's body is the hook's text: right after its
/// `SESSION_NAME` line come lines that, each followed by a newline, make up
/// the normalized hook (plus a final newline when it had none), then the
/// end marker.
pub proof fn lemma_cleanup_script_holds_hook(
    cfg: SpecConfig,
    opts: SpecRunOptions,
    path: Option<Seq<char>>,
)
    requires
        script_lines(cfg, opts, path) is Ok,
        cfg.hook_session_closed is Some,
        !normalized_hook(cfg.hook_session_closed->Some_0).contains('\r'),
    ensures
        ({
            let ls = script_lines(cfg, opts, path)->Ok_0;
            let t = normalized_hook(cfg.hook_session_closed->Some_0);
            exists|i: int, j: int|
                {
                    &&& 1 <= i <= j < ls.len()
                    &&& ls[i - 1] == "export SESSION_NAME=\"\\$target_session_name\""@
                    &&& crate::text::with_newlines(#[trigger] ls.subrange(i, j)) == if t.len() == 0
                        || t.last() == '\n' {
                        t
                    } else {
                        t.push('\n')
                    }
                    &&& ls[j] == "__DEVO_HOOK__"@
                }
        }),
{
    let h = cfg.hook_session_closed->Some_0;
    let t = normalized_hook(h);
    let ls = script_lines(cfg, opts, path)->Ok_0;
    let order = sorted_tasks(cfg)->Ok_0;
    let p1 = header_lines(path, session_value(cfg, opts.session)) + attach_check_lines(
        opts.attach_or_create,
    ) + env_snapshot_lines(cfg.inherit_env) + seq![new_session_line()];
    let hl = hook_head_lines();
    let body = split_lines(t);
    let tl = hook_tail_lines();
    let rest = seq![root_pane_line()] + all_task_lines(cfg, order, cfg.inherit_env.len() > 0)
        + lines_after_tasks(cfg, opts);
    assert(ls =~= p1 + hl + body + tl + rest);
    let i = p1.len() + hl.len() as int;
    let j = i + body.len() as int;
    assert(ls[i - 1] == hl[12]);
    assert(ls.subrange(i, j) =~= body);
    assert(ls[j] == tl[0]);
    crate::text::lemma_lines_rejoin(t);
}

/// A `session-started` hook runs in the script itself, after every task's
/// lines and the focus selection: its non-blank lines, in order, follow
/// `export SESSION_NAME`, and at most the attach line comes after them.
pub proof fn lemma_started_hook_runs_last(
    cfg: SpecConfig,
    opts: SpecRunOptions,
    path: Option<Seq<char>>,
)
    requires
        script_lines(cfg, opts, path) is Ok,
        cfg.hook_session_started is Some,
    ensures
        ({
            let ls = script_lines(cfg, opts, path)->Ok_0;
            let hl = nonblank(split_lines(cfg.hook_session_started->Some_0));
            let x = lines_before_tasks(cfg, opts, path).len() + all_task_lines(
                cfg,
                sorted_tasks(cfg)->Ok_0,
                cfg.inherit_env.len() > 0,
            ).len() as int;
            exists|i: int|
                {
                    &&& x <= i
                    &&& i + 2 + hl.len() <= ls.len() <= i + 3 + hl.len()
                    &&& ls[i + 1] == "export SESSION_NAME"@
                    &&& #[trigger] ls.subrange(i + 2, i + 2 + hl.len()) == hl
                }
        }),
{
    let ls = script_lines(cfg, opts, path)->Ok_0;
    let h = cfg.hook_session_started->Some_0;
    let hl = nonblank(split_lines(h));
    let a = lines_before_tasks(cfg, opts, path);
    let b = all_task_lines(cfg, sorted_tasks(cfg)->Ok_0, cfg.inherit_env.len() > 0);
    let f = focus_lines(cfg.focus);
    let st = started_hook_lines(cfg.hook_session_started);
    let at = attach_lines(opts);
    assert(ls =~= a + b + f + st + at);
    let i = a.len() + b.len() + f.len() as int;
    assert(ls[i + 1] == st[1]);
    assert(ls.subrange(i + 2, i + 2 + hl.len()) =~= hl);
}

} // verus!
