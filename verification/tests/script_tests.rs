use devo::config::{CmdSpec, Config, RunOptions, Task};
use devo::env::expand_env_vars;
use devo::script::generate_script;
use devo::session::resolve_session_name;

fn run_opts() -> RunOptions {
    RunOptions::new(None, false, false)
}

fn env_with(pairs: &[(&str, &str)]) -> Vec<(String, String)> {
    pairs
        .iter()
        .map(|(k, v)| (k.to_string(), v.to_string()))
        .collect()
}

#[test]
fn task_commands_are_quoted_without_outer_shell_expansion() {
    let cfg = Config {
        session: Some("test".to_string()),
        hook_session_closed: None,
        hook_session_started: None,
        inherit_env: Vec::new(),
        tasks: vec![Task {
            id: "app".to_string(),
            pane: Some("root".to_string()),
            cmd: CmdSpec::One(
                "psql \"${DATABASE_URL%%\\?*}\" -c 'select 1' && echo $(id -u)".to_string(),
            ),
        }],
        focus: None,
    };

    let script = generate_script(&cfg, &run_opts(), None).expect("script");

    assert!(script.contains(
        "tmux send-keys -t \"${PANE_APP}\" 'psql \"${DATABASE_URL%%\\?*}\" -c '\"'\"'select 1'\"'\"' && echo $(id -u)' Enter"
    ));
}

#[test]
fn expand_env_vars_supports_plain_and_braced_names() {
    let env = env_with(&[("DEVO_TEST_SESSION_PLAIN", "hello")]);
    assert_eq!(
        expand_env_vars("pre-$DEVO_TEST_SESSION_PLAIN-post", &env).unwrap(),
        "pre-hello-post"
    );
    assert_eq!(
        expand_env_vars("pre-${DEVO_TEST_SESSION_PLAIN}-post", &env).unwrap(),
        "pre-hello-post"
    );
}

#[test]
fn expand_env_vars_supports_default_form() {
    let env = env_with(&[]);
    assert_eq!(
        expand_env_vars("rust-${DEVO_TEST_SLUG_DEFAULT:-fallback}", &env).unwrap(),
        "rust-fallback"
    );
    let env = env_with(&[("DEVO_TEST_SLUG_DEFAULT", "")]);
    assert_eq!(
        expand_env_vars("rust-${DEVO_TEST_SLUG_DEFAULT:-fallback}", &env).unwrap(),
        "rust-fallback"
    );
    let env = env_with(&[("DEVO_TEST_SLUG_DEFAULT", "worktree")]);
    assert_eq!(
        expand_env_vars("rust-${DEVO_TEST_SLUG_DEFAULT:-fallback}", &env).unwrap(),
        "rust-worktree"
    );
}

#[test]
fn expand_env_vars_supports_alternate_form() {
    let env = env_with(&[]);
    assert_eq!(
        expand_env_vars("rust-sa${DEVO_TEST_SLUG_ALT:+-$DEVO_TEST_SLUG_ALT}", &env).unwrap(),
        "rust-sa"
    );
    let env = env_with(&[("DEVO_TEST_SLUG_ALT", "")]);
    assert_eq!(
        expand_env_vars("rust-sa${DEVO_TEST_SLUG_ALT:+-suffix}", &env).unwrap(),
        "rust-sa"
    );
    let env = env_with(&[("DEVO_TEST_SLUG_ALT", "feature")]);
    assert_eq!(
        expand_env_vars("rust-sa${DEVO_TEST_SLUG_ALT:+-suffix}", &env).unwrap(),
        "rust-sa-suffix"
    );
}

#[test]
fn expand_env_vars_rejects_unsupported_operators() {
    let env = env_with(&[]);
    assert!(expand_env_vars("${DEVO_TEST_BAD:?missing}", &env).is_err());
    assert!(expand_env_vars("${DEVO_TEST_BAD:=value}", &env).is_err());
}

#[test]
fn expand_env_vars_expands_nested_variables_inside_default_and_alt() {
    let env = env_with(&[("DEVO_TEST_SLUG_NESTED", "nested")]);
    assert_eq!(
        expand_env_vars(
            "rust-${DEVO_TEST_SLUG_EMPTY:-pre-$DEVO_TEST_SLUG_NESTED-post}",
            &env
        )
        .unwrap(),
        "rust-pre-nested-post"
    );
    assert_eq!(
        expand_env_vars("rust-${DEVO_TEST_SLUG_NESTED:+-$DEVO_TEST_SLUG_NESTED}", &env).unwrap(),
        "rust--nested"
    );
}

#[test]
fn resolve_session_name_rejects_empty_result() {
    let env = env_with(&[]);
    let cfg = Config {
        session: Some("${DEVO_TEST_EMPTY_SLUG}".to_string()),
        hook_session_closed: None,
        hook_session_started: None,
        inherit_env: Vec::new(),
        tasks: Vec::new(),
        focus: None,
    };
    assert!(resolve_session_name(&cfg, None, &env).is_err());
}

#[test]
fn env_snapshot_source_still_expands_snapshot_path_in_outer_shell() {
    let cfg = Config {
        session: Some("test".to_string()),
        hook_session_closed: None,
        hook_session_started: None,
        inherit_env: vec!["APP_ROOT".to_string()],
        tasks: vec![Task {
            id: "app".to_string(),
            pane: Some("root".to_string()),
            cmd: CmdSpec::One("cd $APP_ROOT && make dev".to_string()),
        }],
        focus: None,
    };

    let script = generate_script(&cfg, &run_opts(), None).expect("script");

    assert!(script.contains(
        "tmux send-keys -t \"${PANE_APP}\" \"source \\\"$DEVO_ENV_SNAPSHOT\\\"\" Enter"
    ));
    assert!(
        script.contains("tmux send-keys -t \"${PANE_APP}\" 'cd $APP_ROOT && make dev' Enter")
    );
}

#[test]
fn hook_session_started_runs_in_outer_script_after_task_commands() {
    let cfg = Config {
        session: Some("test".to_string()),
        hook_session_closed: None,
        hook_session_started: Some("echo \"$SESSION_NAME\"\necho hook done".to_string()),
        inherit_env: Vec::new(),
        tasks: vec![Task {
            id: "app".to_string(),
            pane: Some("root".to_string()),
            cmd: CmdSpec::One("make dev".to_string()),
        }],
        focus: None,
    };

    let script = generate_script(&cfg, &run_opts(), None).expect("script");

    let task_command = script.find("tmux send-keys -t \"${PANE_APP}\" 'make dev' Enter");
    let hook_export = script.find("export SESSION_NAME");
    let hook_command = script.find("echo \"$SESSION_NAME\"");
    assert!(task_command.is_some());
    assert!(hook_export.is_some());
    assert!(hook_command.is_some());
    assert!(task_command.unwrap() < hook_export.unwrap());
    assert!(hook_export.unwrap() < hook_command.unwrap());
    assert!(
        !script.contains("tmux send-keys -t \"${PANE_APP}\" 'echo \"$SESSION_NAME\"' Enter")
    );
}
