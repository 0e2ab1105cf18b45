# shell

A small interactive shell whose logic is a library verified with Verus.

- `src/parser.rs` cuts a typed line into the command name, its arguments
  and its output redirections (`>`, `1>`, `2>`, `>>`, `1>>`, `2>>`),
  handling single quotes,
  double quotes and backslashes. `parse_arguments` is proved to compute
  the tokenizer-and-builder model stated beside it.
- `src/parser_laws.rs` proves properties of that model for every line:
  plain lines split at whitespace, quotes keep their text, backslash
  rules, leading whitespace is ignored, how a plain `1` or `2` joins a
  following `>` or `>>`, that `>>` appends, and the tokenizer's invariant.
- `src/commands.rs` decides what a command takes to run (a built-in with
  its arguments, or an outside program) and builds the text that the
  built-ins write.
- `src/input.rs` is the line editor that turns raw key bytes into a line.
- `app/` is the program: terminal raw mode, Ctrl-C handling, files,
  the environment and starting programs.

Redirections: `>`, `1>` and `2>` replace the named file's contents, and
`>>`, `1>>` and `2>>` append to it. Each stream's `Redirection` holds the
file name and its `WriteMode`; when a stream is redirected twice, the
later redirection wins.
