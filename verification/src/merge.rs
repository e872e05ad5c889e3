//! Merging: the per-group error taxonomy and the submodules that parse the
//! transcoder's telemetry and drive one merge.

pub mod merge;
pub mod merger;
pub mod stream;

use vstd::prelude::*;

verus! {

/// Failure of one group's merge pipeline; every error aborts only the group
/// it belongs to.
#[derive(Debug)]
pub enum Error {
    /// The merge process failed; carries the group's name and the exit code
    /// when one was available.
    FailedToConvert(String, Option<i32>),
    /// Probing one source file failed; carries that file's path.
    FailedToGetInfo(String),
    /// No value could be read from a telemetry line; carries the line.
    InvalidOutputLine(String),
    /// A numeric field would not parse; carries the field's text.
    ParseInt(String),
    /// An input or output fault, described in words.
    Io(String),
    /// The spawned process offered no readable output stream; carries the
    /// process name.
    NoStdout(String),
    /// A stream or wait was requested before the process was spawned;
    /// carries the process name.
    CommandNotSpawned(String),
}

} // verus!
