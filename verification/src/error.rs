//! Error values shared by readers, sinks and the watcher, and the exit codes
//! that stand for them.

use vstd::prelude::*;

verus! {

/// Why an operation on a reader, a sink or a path failed.
#[derive(Clone, Copy, Debug, PartialEq, Eq, Structural)]
pub enum IoError {
    /// The path names nothing.
    NotFound,
    /// The operating system refused access.
    PermissionDenied,
    /// An argument was out of range, such as a seek before the first byte.
    InvalidInput,
    /// Any other failure.
    Other,
}

/// Why following a directory ended.
#[derive(Debug)]
pub enum WatchError {
    /// A failure described in words: a broken event, a lost event source.
    Generic(String),
    /// A failed read, write or path lookup.
    Io(IoError),
    /// The event source did not find the path to watch.
    PathNotFound,
    /// The event source did not find the watch to remove.
    WatchNotFound,
}

/// The exit code of a run that ended well.
pub const EX_OK: i32 = 0;

/// The exit code for a generic error, a bad configuration among them.
pub const EX_ERR: i32 = 1;

/// The exit code for a path that was not found.
pub const EX_NOINPUT: i32 = 66;

/// The exit code for a watch that was not found.
pub const EX_SOFTWARE: i32 = 70;

/// The exit code for an input or output error.
pub const EX_IOERR: i32 = 74;

/// The exit code that stands for each way of ending.
pub open spec fn exit_code_of(outcome: Result<(), WatchError>) -> i32 {
    match outcome {
        Ok(()) => EX_OK,
        Err(WatchError::Generic(_)) => EX_ERR,
        Err(WatchError::Io(_)) => EX_IOERR,
        Err(WatchError::PathNotFound) => EX_NOINPUT,
        Err(WatchError::WatchNotFound) => EX_SOFTWARE,
    }
}

/// The exit code for the way in which following ended.
pub fn exit_code(outcome: &Result<(), WatchError>) -> (code: i32)
    ensures
        code == exit_code_of(*outcome),
{
    match outcome {
        Ok(()) => EX_OK,
        Err(WatchError::Generic(_)) => EX_ERR,
        Err(WatchError::Io(_)) => EX_IOERR,
        Err(WatchError::PathNotFound) => EX_NOINPUT,
        Err(WatchError::WatchNotFound) => EX_SOFTWARE,
    }
}

} // verus!
