//! The ways a run can fail. None is retried.

use vstd::prelude::*;

verus! {

/// Why a run failed.
#[derive(Debug, Clone, Copy, PartialEq, Eq)]
pub enum Error {
    /// The client configuration file does not exist.
    ConfigNotFound,
    /// The client configuration file could not be read.
    ConfigIo,
    /// The history file could not be created, read or written.
    HistoryIo,
    /// A line of the history file is not a timestamp and an alias. `line` is
    /// the index of the first such line, counted from 0.
    HistoryCorrupt { line: usize },
    /// The client ended with a status other than success. `code` is its exit
    /// code, or `None` where it ended without one.
    Session { code: Option<i32> },
}

} // verus!
