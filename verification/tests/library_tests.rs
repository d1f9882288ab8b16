use devo::config::{
    config_extension_supported, effective_pane_spec, effective_pane_string, parse_pane_spec,
    CmdSpec, Config, PaneSpec, RunOptions, Task,
};
use devo::env::{expand_brace_body, expand_env_vars, validate_env_var_name};
use devo::error::DevoError;
use devo::order::topo_sort;
use devo::quote::{normalize_session_closed_hook, sanitize_var, sh_expand_quote, sh_single_quote};
use devo::script::generate_script;
use devo::session::{resolve_session_name, session_shell_value};
use devo::status::{parse_pane_line, parse_pane_listing, task_statuses};
use devo::validate::validate_config;

fn task(id: &str, pane: Option<&str>, cmd: &str) -> Task {
    Task {
        id: id.to_string(),
        pane: pane.map(|p| p.to_string()),
        cmd: CmdSpec::One(cmd.to_string()),
    }
}

fn config(tasks: Vec<Task>) -> Config {
    Config {
        session: Some("dev".to_string()),
        hook_session_closed: None,
        hook_session_started: None,
        inherit_env: Vec::new(),
        tasks,
        focus: None,
    }
}

fn env_with(pairs: &[(&str, &str)]) -> Vec<(String, String)> {
    pairs
        .iter()
        .map(|(k, v)| (k.to_string(), v.to_string()))
        .collect()
}

fn order_ids(cfg: &Config) -> Vec<String> {
    topo_sort(cfg)
        .expect("order")
        .into_iter()
        .map(|t| t.id)
        .collect()
}

#[test]
fn single_quote_closes_and_reopens_around_quotes() {
    assert_eq!(sh_single_quote("it's"), "'it'\"'\"'s'");
    assert_eq!(sh_single_quote(""), "''");
    assert_eq!(sh_single_quote("$HOME `x`"), "'$HOME `x`'");
}

#[test]
fn expand_quote_escapes_backslash_quote_and_backquote_only() {
    assert_eq!(sh_expand_quote("a\"b\\c`d$e"), "\"a\\\"b\\\\c\\`d$e\"");
    assert_eq!(sh_expand_quote(""), "\"\"");
}

#[test]
fn sanitize_var_makes_shell_names() {
    assert_eq!(sanitize_var("my-app"), "MY_APP");
    assert_eq!(sanitize_var("1abc"), "_1ABC");
    assert_eq!(sanitize_var(""), "_");
    assert_eq!(sanitize_var("é9"), "_9");
    assert_eq!(sanitize_var("Kintone_js"), "KINTONE_JS");
}

#[test]
fn sanitized_names_pass_the_name_check() {
    for id in ["my-app", "1abc", "", "é9", "a b", "__"] {
        assert!(validate_env_var_name(&sanitize_var(id)).is_ok());
    }
}

#[test]
fn env_var_names_are_checked() {
    assert!(validate_env_var_name("A_1").is_ok());
    assert!(validate_env_var_name("_x").is_ok());
    assert_eq!(validate_env_var_name(""), Err(DevoError::EmptyEnvVarName));
    assert_eq!(
        validate_env_var_name("1A"),
        Err(DevoError::InvalidEnvVarName("1A".to_string()))
    );
    assert_eq!(
        validate_env_var_name("A-B"),
        Err(DevoError::InvalidEnvVarName("A-B".to_string()))
    );
}

#[test]
fn closed_hook_is_normalized() {
    assert_eq!(
        normalize_session_closed_hook("  run-shell 'devo dev-stop'  "),
        "devo dev-stop"
    );
    assert_eq!(normalize_session_closed_hook("run-shell \"x y\""), "x y");
    assert_eq!(normalize_session_closed_hook("run-shell x"), "x");
    assert_eq!(normalize_session_closed_hook("run-shell '"), "'");
    assert_eq!(normalize_session_closed_hook("run-shell 'x\""), "'x\"");
    assert_eq!(normalize_session_closed_hook(" echo hi\n"), "echo hi");
}

#[test]
fn pane_specs_are_parsed() {
    assert!(matches!(parse_pane_spec("root"), Ok(PaneSpec::Root)));
    assert!(matches!(parse_pane_spec("right_of:a"), Ok(PaneSpec::RightOf(b)) if b == "a"));
    assert!(matches!(parse_pane_spec("down_of:b c"), Ok(PaneSpec::DownOf(b)) if b == "b c"));
    assert!(matches!(parse_pane_spec("right_of:"), Err(DevoError::RightOfMissingId)));
    assert!(matches!(parse_pane_spec("down_of:"), Err(DevoError::DownOfMissingId)));
    assert!(
        matches!(parse_pane_spec("left_of:a"), Err(DevoError::InvalidPaneSpec(s)) if s == "left_of:a")
    );
    assert!(matches!(parse_pane_spec("Root"), Err(DevoError::InvalidPaneSpec(_))));
}

#[test]
fn omitted_pane_is_root_then_below_previous() {
    let cfg = config(vec![task("a", None, "x"), task("b", None, "y"), task("c", None, "z")]);
    assert!(matches!(effective_pane_spec(&cfg, &cfg.tasks[0]), Ok(PaneSpec::Root)));
    assert!(
        matches!(effective_pane_spec(&cfg, &cfg.tasks[2]), Ok(PaneSpec::DownOf(b)) if b == "b")
    );
    assert_eq!(effective_pane_string(&cfg, &cfg.tasks[1]).unwrap(), "down_of:a");
    assert_eq!(effective_pane_string(&cfg, &cfg.tasks[0]).unwrap(), "root");
    let other = task("zz", None, "q");
    assert!(matches!(effective_pane_spec(&cfg, &other), Err(DevoError::UnknownTask(s)) if s == "zz"));
}

#[test]
fn pane_string_parses_back() {
    let cfg = config(vec![
        task("a", Some("root"), "x"),
        task("b", Some("right_of:a"), "y"),
        task("c", None, "z"),
    ]);
    for t in &cfg.tasks {
        let s = effective_pane_string(&cfg, t).unwrap();
        let back = parse_pane_spec(&s).unwrap();
        let direct = effective_pane_spec(&cfg, t).unwrap();
        match (back, direct) {
            (PaneSpec::Root, PaneSpec::Root) => {}
            (PaneSpec::RightOf(x), PaneSpec::RightOf(y)) => assert_eq!(x, y),
            (PaneSpec::DownOf(x), PaneSpec::DownOf(y)) => assert_eq!(x, y),
            _ => panic!("pane changed"),
        }
    }
}

#[test]
fn readme_advanced_order() {
    let cfg = config(vec![
        task("backend", Some("root"), "a"),
        task("repl", Some("right_of:backend"), "b"),
        task("frontend", Some("down_of:backend"), "c"),
        task("kintone_js", Some("down_of:frontend"), "d"),
        task("compose", Some("down_of:repl"), "e"),
    ]);
    assert_eq!(
        order_ids(&cfg),
        vec!["backend", "repl", "frontend", "kintone_js", "compose"]
    );
}

#[test]
fn base_pane_comes_first_even_when_listed_later() {
    let cfg = config(vec![task("b", Some("down_of:a"), "x"), task("a", Some("root"), "y")]);
    assert_eq!(order_ids(&cfg), vec!["a", "b"]);
}

#[test]
fn ready_tasks_keep_file_order() {
    let cfg = config(vec![
        task("r", Some("root"), "0"),
        task("x", Some("down_of:z"), "1"),
        task("y", Some("down_of:r"), "2"),
        task("z", Some("right_of:r"), "3"),
    ]);
    assert_eq!(order_ids(&cfg), vec!["r", "y", "z", "x"]);
}

#[test]
fn pane_cycle_is_refused() {
    let cfg = config(vec![
        task("a", Some("root"), "0"),
        task("b", Some("right_of:c"), "1"),
        task("c", Some("down_of:b"), "2"),
    ]);
    assert!(matches!(topo_sort(&cfg), Err(DevoError::PaneCycle)));
    let selfref = config(vec![task("a", Some("root"), "0"), task("b", Some("down_of:b"), "1")]);
    assert!(matches!(topo_sort(&selfref), Err(DevoError::PaneCycle)));
}

#[test]
fn unknown_pane_reference_is_refused_by_ordering() {
    let cfg = config(vec![task("a", Some("root"), "0"), task("b", Some("down_of:q"), "1")]);
    assert!(matches!(topo_sort(&cfg), Err(DevoError::UnknownPaneReference(s)) if s == "q"));
    let bad = config(vec![task("a", Some("root"), "0"), task("b", Some("up"), "1")]);
    assert!(matches!(topo_sort(&bad), Err(DevoError::InvalidPaneSpec(s)) if s == "up"));
}

#[test]
fn validation_errors_come_in_order() {
    assert!(matches!(validate_config(&config(Vec::new())), Err(DevoError::EmptyTasks)));

    let mut cfg = config(vec![task("a", None, "x")]);
    cfg.inherit_env = vec!["OK".to_string(), "9BAD".to_string()];
    assert!(matches!(validate_config(&cfg), Err(DevoError::InvalidEnvVarName(s)) if s == "9BAD"));
    cfg.inherit_env = vec!["".to_string()];
    assert!(matches!(validate_config(&cfg), Err(DevoError::EmptyEnvVarName)));

    let dup = config(vec![task("a", None, "x"), task("b", None, "y"), task("a", None, "z")]);
    assert!(matches!(validate_config(&dup), Err(DevoError::DuplicateTaskId(s)) if s == "a"));

    let no_root = config(vec![task("a", Some("down_of:b"), "x"), task("b", Some("down_of:a"), "y")]);
    assert!(matches!(validate_config(&no_root), Err(DevoError::RootCount(0))));
    let two_roots = config(vec![task("a", Some("root"), "x"), task("b", Some("root"), "y")]);
    assert!(matches!(validate_config(&two_roots), Err(DevoError::RootCount(2))));

    let unknown = config(vec![task("a", None, "x"), task("b", Some("right_of:q"), "y")]);
    assert!(
        matches!(validate_config(&unknown), Err(DevoError::UnknownPaneBase(t, b)) if t == "b" && b == "q")
    );

    let bad_spec = config(vec![task("a", None, "x"), task("b", Some("sideways"), "y")]);
    assert!(matches!(validate_config(&bad_spec), Err(DevoError::InvalidPaneSpec(_))));

    let mut focus = config(vec![task("a", None, "x")]);
    focus.focus = Some("nope".to_string());
    assert!(matches!(validate_config(&focus), Err(DevoError::UnknownFocus(s)) if s == "nope"));

    let cycle = config(vec![
        task("a", None, "x"),
        task("b", Some("right_of:c"), "y"),
        task("c", Some("down_of:b"), "z"),
    ]);
    assert!(matches!(validate_config(&cycle), Err(DevoError::PaneCycle)));

    let fine = config(vec![task("a", None, "x"), task("b", Some("right_of:a"), "y")]);
    assert!(validate_config(&fine).is_ok());
}

#[test]
fn checked_config_always_yields_a_script() {
    let mut cfg = config(vec![task("a", None, "x"), task("b", Some("right_of:a"), "y")]);
    cfg.focus = Some("b".to_string());
    assert!(validate_config(&cfg).is_ok());
    assert!(generate_script(&cfg, &RunOptions::new(None, true, true), Some("/tmp/s.sh")).is_ok());
}

#[test]
fn whole_script_for_the_simple_example() {
    let mut cfg = config(vec![
        task("editor", None, "nvim"),
        task("logs", None, "tail -f /var/log/system.log"),
    ]);
    cfg.focus = Some("editor".to_string());
    let script = generate_script(&cfg, &RunOptions::new(None, false, false), None).unwrap();
    let expected = [
        "#!/usr/bin/env bash",
        "set -euxo pipefail -o posix",
        "SESSION_NAME=\"dev\"",
        "tmux new-session -d -s \"$SESSION_NAME\"",
        "ROOT_PANE=\"$(tmux list-panes -t \"=$SESSION_NAME\" -F '#{pane_id}' | head -n1)\"",
        "PANE_EDITOR=\"$ROOT_PANE\"",
        "tmux select-pane -t \"${PANE_EDITOR}\" -T 'editor'",
        "tmux set-option -p -t \"${PANE_EDITOR}\" @devo_task_id 'editor'",
        "tmux send-keys -t \"${PANE_EDITOR}\" 'nvim' Enter",
        "PANE_LOGS=\"$(tmux split-window -t \"${PANE_EDITOR}\" -v -P -F '#{pane_id}')\"",
        "tmux select-pane -t \"${PANE_LOGS}\" -T 'logs'",
        "tmux set-option -p -t \"${PANE_LOGS}\" @devo_task_id 'logs'",
        "tmux send-keys -t \"${PANE_LOGS}\" 'tail -f /var/log/system.log' Enter",
        "tmux select-pane -t \"${PANE_EDITOR}\"",
        "",
    ]
    .join("\n");
    assert_eq!(script, expected);
}

#[test]
fn script_options_add_their_lines() {
    let mut cfg = config(vec![
        task("a", Some("root"), "x"),
        task("b", Some("right_of:a"), "y"),
    ]);
    cfg.session = None;
    cfg.inherit_env = vec!["FOO".to_string()];
    let script = generate_script(
        &cfg,
        &RunOptions::new(Some("my sess".to_string()), false, true),
        Some("/tmp/devo-1.sh"),
    )
    .unwrap();
    let lines: Vec<&str> = script.lines().collect();
    assert_eq!(lines[2], "rm -f \"/tmp/devo-1.sh\"");
    assert_eq!(lines[3], "SESSION_NAME='my sess'");
    assert_eq!(lines[4], "if tmux has-session -t \"=$SESSION_NAME\" 2>/dev/null; then");
    assert_eq!(lines[7], "DEVO_ENV_SNAPSHOT=\"$(mktemp)\"");
    assert_eq!(
        lines[10],
        "printf 'export %s=%q\\n' 'FOO' \"${FOO-}\" >> \"$DEVO_ENV_SNAPSHOT\""
    );
    assert!(script.contains(
        "PANE_B=\"$(tmux split-window -t \"${PANE_A}\" -h -P -F '#{pane_id}')\""
    ));
    assert!(script.ends_with("tmux attach-session -t \"=$SESSION_NAME\"\n"));

    let mut bare = config(vec![task("a", None, "x")]);
    bare.session = None;
    let s = generate_script(&bare, &RunOptions::new(None, true, false), None).unwrap();
    assert!(s.contains(
        "SESSION_NAME=\"${SESSION_NAME:?session is not set and SESSION_NAME is not available}\""
    ));
    assert!(!s.contains("has-session"));
    assert!(s.ends_with("tmux attach-session -t \"=$SESSION_NAME\"\n"));
}

#[test]
fn closed_hook_goes_into_cleanup_script() {
    let mut cfg = config(vec![task("a", None, "x")]);
    cfg.hook_session_closed = Some("run-shell 'devo dev-stop\r\nsecond'".to_string());
    let script = generate_script(&cfg, &RunOptions::new(None, false, false), None).unwrap();
    let lines: Vec<&str> = script.split('\n').collect();
    let start = lines
        .iter()
        .position(|l| *l == "export SESSION_NAME=\"\\$target_session_name\"")
        .unwrap();
    assert_eq!(lines[start + 1], "devo dev-stop");
    assert_eq!(lines[start + 2], "second");
    assert_eq!(lines[start + 3], "__DEVO_HOOK__");
    assert!(script.contains("tmux set-hook -g \"session-closed[$DEVO_HOOK_INDEX]\""));
}

#[test]
fn blank_command_and_hook_lines_are_skipped() {
    let mut cfg = config(vec![Task {
        id: "app".to_string(),
        pane: None,
        cmd: CmdSpec::Many(vec!["make".to_string(), "  \t".to_string(), "(go)".to_string()]),
    }]);
    cfg.hook_session_started = Some("one\n   \ntwo\n".to_string());
    let script = generate_script(&cfg, &RunOptions::new(None, false, false), None).unwrap();
    assert!(script.contains("tmux send-keys -t \"${PANE_APP}\" 'make' Enter\ntmux send-keys -t \"${PANE_APP}\" '(go)' Enter\n"));
    assert!(script.ends_with("export SESSION_NAME\none\ntwo\n"));
}

#[test]
fn script_refuses_unknown_focus_and_cycles() {
    let mut cfg = config(vec![task("a", None, "x")]);
    cfg.focus = Some("b".to_string());
    assert!(matches!(
        generate_script(&cfg, &RunOptions::new(None, false, false), None),
        Err(DevoError::UnknownFocus(s)) if s == "b"
    ));
    let cycle = config(vec![task("a", Some("down_of:a"), "x")]);
    assert!(matches!(
        generate_script(&cycle, &RunOptions::new(None, false, false), None),
        Err(DevoError::PaneCycle)
    ));
}

#[test]
fn session_names_are_resolved() {
    let cfg = config(vec![task("a", None, "x")]);
    let env = env_with(&[("SESSION_NAME", "from-env"), ("SLUG", "foo")]);
    assert_eq!(resolve_session_name(&cfg, Some("over".to_string()), &env).unwrap(), "over");
    assert_eq!(
        resolve_session_name(&cfg, Some(String::new()), &env),
        Err(DevoError::EmptySessionOverride)
    );
    assert_eq!(resolve_session_name(&cfg, None, &env).unwrap(), "dev");
    let mut slug = config(vec![task("a", None, "x")]);
    slug.session = Some("rust-sa${SLUG:+-$SLUG}".to_string());
    assert_eq!(resolve_session_name(&slug, None, &env).unwrap(), "rust-sa-foo");
    let mut unset = config(vec![task("a", None, "x")]);
    unset.session = None;
    assert_eq!(resolve_session_name(&unset, None, &env).unwrap(), "from-env");
    assert_eq!(
        resolve_session_name(&unset, None, &env_with(&[])),
        Err(DevoError::SessionNameUnavailable)
    );
    assert_eq!(
        resolve_session_name(&unset, None, &env_with(&[("SESSION_NAME", "")])),
        Err(DevoError::EmptyResolvedSession)
    );
}

#[test]
fn session_shell_values() {
    let mut cfg = config(vec![task("a", None, "x")]);
    cfg.session = Some("w-${SLUG}".to_string());
    assert_eq!(session_shell_value(&cfg, Some("o'k")), "'o'\"'\"'k'");
    assert_eq!(session_shell_value(&cfg, None), "\"w-${SLUG}\"");
}

#[test]
fn expansion_edge_cases() {
    let env = env_with(&[("A", "1"), ("A", "2"), ("B", "")]);
    assert_eq!(expand_env_vars("$A-$A", &env).unwrap(), "1-1");
    assert_eq!(expand_env_vars("cost $", &env).unwrap(), "cost $");
    assert_eq!(expand_env_vars("$-x $$", &env).unwrap(), "$-x $$");
    assert_eq!(expand_env_vars("${A", &env).unwrap(), "1");
    assert_eq!(expand_env_vars("no dollars", &env).unwrap(), "no dollars");
    assert_eq!(
        expand_env_vars("$1abc", &env),
        Err(DevoError::InvalidEnvVarName("1abc".to_string()))
    );
    assert_eq!(expand_env_vars("${}", &env), Err(DevoError::EmptyEnvVarName));
    assert_eq!(expand_env_vars("${B:-$A}", &env).unwrap(), "1");
    assert_eq!(expand_env_vars("${A:-${9}}", &env).unwrap(), "1}");
    assert_eq!(expand_brace_body("B:+x", &env).unwrap(), "");
    assert_eq!(expand_brace_body("A:+x", &env).unwrap(), "x");
    assert_eq!(
        expand_brace_body("A:+x:-y", &env),
        Err(DevoError::InvalidEnvVarName("A:+x".to_string()))
    );
    assert_eq!(
        expand_brace_body("C:+x:-y", &env),
        Err(DevoError::InvalidEnvVarName("C:+x".to_string()))
    );
}

#[test]
fn task_statuses_show_panes() {
    let cfg = config(vec![
        task("a", None, "x"),
        task("b", Some("right_of:a"), "y"),
        task("c", Some("bogus"), "z"),
    ]);
    let st = task_statuses(&cfg);
    assert_eq!(st.len(), 3);
    assert_eq!(st[0].pane, "root");
    assert_eq!(st[1].pane, "right_of:a");
    assert_eq!(st[2].id, "c");
    assert_eq!(st[2].pane, "<invalid>");
}

#[test]
fn pane_listing_is_read() {
    let p = parse_pane_line("%1\t0\tapp\tapp title\t1\tzsh\t/home/u");
    assert_eq!(p.id, "%1");
    assert_eq!(p.index, "0");
    assert_eq!(p.task_id, "app");
    assert_eq!(p.title, "app title");
    assert!(p.active);
    assert_eq!(p.current_command, "zsh");
    assert_eq!(p.current_path, "/home/u");

    let short = parse_pane_line("%2\t1");
    assert_eq!(short.index, "1");
    assert_eq!(short.task_id, "");
    assert!(!short.active);

    let long = parse_pane_line("a\tb\tc\td\t0\te\tf\tg");
    assert_eq!(long.current_path, "f\tg");

    let all = parse_pane_listing("%1\t0\ta\tt\t1\tsh\t/\r\n%2\t1\tb\tt\t0\tsh\t/x\n");
    assert_eq!(all.len(), 2);
    assert_eq!(all[0].current_path, "/");
    assert_eq!(all[1].task_id, "b");
    assert!(parse_pane_listing("").is_empty());
}

#[test]
fn config_extensions() {
    assert!(config_extension_supported(Some("yaml")));
    assert!(config_extension_supported(Some("YML")));
    assert!(config_extension_supported(Some("Yaml")));
    assert!(!config_extension_supported(Some("json")));
    assert!(!config_extension_supported(None));
}

#[test]
fn cmd_lines_keep_order() {
    let one = CmdSpec::One("a\nb".to_string());
    assert_eq!(one.lines(), vec!["a\nb"]);
    let many = CmdSpec::Many(vec!["x".to_string(), "y".to_string()]);
    assert_eq!(many.lines(), vec!["x", "y"]);
}

#[test]
fn whitespace_matches_char_is_whitespace() {
    for code in 0u32..=0x10FFFF {
        if let Some(c) = char::from_u32(code) {
            assert_eq!(devo::text::is_ws_char(c), c.is_whitespace(), "U+{code:04X}");
        }
    }
}

#[test]
fn line_splitting_and_trimming_match_str() {
    let samples = [
        "",
        "\n",
        "a",
        "a\n",
        "a\n\n",
        "a\r\nb",
        "a\rb\r",
        "foo\nbar\n\r\nbaz\r",
        "\r\n\r\n",
        " \t x y \u{3000}",
        "\u{85}\u{a0}",
    ];
    for s in samples {
        let cs: Vec<char> = s.chars().collect();
        let ours: Vec<String> = devo::text::lines_of(&cs)
            .into_iter()
            .map(|l| l.into_iter().collect())
            .collect();
        let std_lines: Vec<String> = s.lines().map(|l| l.to_string()).collect();
        assert_eq!(ours, std_lines, "{s:?}");
        let (a, b) = devo::text::trim_bounds(&cs);
        let trimmed: String = cs[a..b].iter().collect();
        assert_eq!(trimmed, s.trim(), "{s:?}");
    }
}

#[test]
fn commands_follow_pane_order() {
    let cfg = config(vec![
        Task {
            id: "b".to_string(),
            pane: Some("down_of:a".to_string()),
            cmd: CmdSpec::Many(vec!["one".to_string(), " ".to_string(), "two".to_string()]),
        },
        task("a", Some("root"), "zero"),
    ]);
    assert!(validate_config(&cfg).is_ok());
    let script = generate_script(&cfg, &RunOptions::new(None, false, false), None).unwrap();
    let sends: Vec<&str> = script
        .lines()
        .filter(|l| l.starts_with("tmux send-keys"))
        .collect();
    let mut expected = Vec::new();
    for t in topo_sort(&cfg).unwrap() {
        for l in t.cmd.lines() {
            if !l.trim().is_empty() {
                expected.push(format!(
                    "tmux send-keys -t \"${{PANE_{}}}\" {} Enter",
                    sanitize_var(&t.id),
                    sh_single_quote(l)
                ));
            }
        }
    }
    assert_eq!(sends, expected);
    assert_eq!(expected.len(), 3);
    assert!(expected[0].contains("PANE_A"));
}
