use vstd::prelude::*;

verus! {

/// The error kinds of the interpreter core.
///
/// Only `MalformedInput` and `RedirectionError` are produced while a line is
/// tokenized and built; the remaining kinds describe failures that can occur
/// while a command tree is executed (spawning a child, waiting for it, or
/// opening a file) and are reported by the surrounding program.
#[derive(Clone, Copy, Debug, PartialEq, Eq, Structural)]
pub enum ShellError {
    /// An unterminated double quote, or an empty quoted span.
    MalformedInput,
    /// A redirection operator without a command before it, without a file
    /// name after it, or used more than once in a segment.
    RedirectionError,
    /// Creating a child process, or replacing its image, failed.
    SpawnError,
    /// Waiting for a child process failed.
    ChildWaitError,
    /// A file could not be opened or read.
    IOError,
}

} // verus!
