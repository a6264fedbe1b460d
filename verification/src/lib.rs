//! The core of a small interactive command shell: the word parser, the
//! statement and redirection model, the builtin commands, tab completion and
//! the line editor's state machine. Everything that touches the terminal,
//! the file system, the environment or child processes lives with the caller.
pub mod commands;
pub mod completion;
pub mod editor;
pub mod order;
pub mod shell;
pub mod text;
