# devo

devo turns a small YAML description of tmux panes and the commands to run
in them into a bash script that builds the tmux session.

- `src/` is the library, verified with Verus: the configuration model and
  its checks (`config`, `validate`), the pane ordering (`order`), `$VAR`
  expansion (`env`), shell quoting (`quote`), the session name (`session`),
  the script itself (`script`) and the `status` report (`status`).
- `app/` is the command line: it reads the YAML file, the environment and
  tmux, runs bash, and prints.
- `tests/` runs the library on concrete configurations.
