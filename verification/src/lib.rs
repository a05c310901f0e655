//! A verified core for a line-oriented command interpreter: a quote-aware
//! tokenizer, a builder that turns token sequences into `Command` trees
//! (sequencing, input/output redirection), and the decision logic that a
//! dispatcher follows when it executes such a tree.
//!
//! The tokenizer recognizes `|` as an operator token, but no pipeline
//! semantics are defined anywhere in this design: the builder does not split
//! on it, so a bare `|` ends up as an ordinary word in a command's argument
//! list, where the spawned program will see it.

pub mod builder;
pub mod dispatch;
pub mod command;
pub mod error;
pub mod tokens;

pub use command::Command;
pub use error::ShellError;
