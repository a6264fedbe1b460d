# tinyshell

A small interactive shell with builtins (`echo`, `type`, `pwd`, `cd`,
`complete`, `exit`), output redirection, a line editor and tab completion
that can be extended with completion scripts.

- `src/` is the verified library (Verus): the word parser and redirections
  (`commands/parser.rs`, `commands/command.rs`), the builtins and what running
  a statement asks of the system (`commands/`), where output goes
  (`commands/stream.rs`), tab completion (`completion.rs`), the line editor's
  state machine (`editor.rs`), the shell's state (`shell.rs`), string order
  and sorting (`order.rs`) and character helpers (`text.rs`).
- `app/main.rs` is the program: terminal input in raw mode, the program
  path, directories, child processes and files.
- `tests/` runs the library on concrete inputs.
