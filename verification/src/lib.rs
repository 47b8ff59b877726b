//! The core of an interactive shell: the lexer, the pipeline splitter, the
//! redirection parser, the dispatcher, the texts of the built-in commands
//! and the plans of the executor. Everything here computes on plain values;
//! files, processes and the terminal are the caller's.

pub mod builtins;
pub mod completion;
pub mod dispatch;
pub mod executor;
pub mod lexer;
pub mod number;
pub mod pathcache;
pub mod quote;
pub mod redirect;
pub mod session;
pub mod splitter;
pub mod text;
