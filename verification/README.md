# rust_shell

A POSIX-style interactive shell whose logic is a library verified with Verus.

Built-ins: `cd`, `pwd`, `echo`, `type`, `exit`, `history`, `jobs`, `declare`,
`complete`. Pipelines with `|`, background jobs with `&`, redirections `>`, `>>`,
`2>`, `2>>`, quotes and escapes, expansion of declared variables, and tab completion.

## Layout

- `src/` — the verified library.
  - `syntax/` — the lexer, the tokens, the parser (and an older parser that gives
    statements), with the specifications they are proved against.
  - `commands/` — variable expansion, the plan that wires a pipeline, executable
    lookup, and the built-ins. A built-in writes its output to strings and hands the
    work that needs the system back to its caller as a request.
  - `state/` — the history, declared variables, completion specifications and
    background jobs.
  - `completion.rs` — what tab completion offers and asks for.
  - `shell.rs` — reading one command line.
  - `text.rs`, `numbers.rs` — verified helpers on characters and decimal numbers.
- `app/` — the program around the library: the `rustyline` editor and its helper,
  processes, files and the environment.
- `tests/` — tests of the library.
