//! The merger abstraction: something built from a progress handle, a group,
//! and the two directories, that will drive the group's merge.

use crate::group::MovieGroup;
use crate::progress::Progress;
use vstd::prelude::*;

verus! {

/// Drives one group's merge. The outside work itself is event-driven: see
/// the transcoder merger's step function.
pub trait Merger: Sized {
    type Progress: Progress;

    /// A merger for one group, reading chapters under `movies_path` and
    /// writing the merged file under `merged_output_path`.
    fn new(
        progress: Self::Progress,
        group: MovieGroup,
        movies_path: String,
        merged_output_path: String,
    ) -> Self;
}

} // verus!
