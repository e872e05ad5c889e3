//! An earlier shape of the per-group merger: the same four ingredients,
//! kept as plain data.

use crate::group::MovieGroup;
use crate::progress::Progress;
use vstd::prelude::*;

verus! {

/// One group's merge ingredients: the progress handle, the group, and the
/// two directories.
pub struct Merger<P> {
    pub progress: P,
    pub group: MovieGroup,
    pub movies_path: String,
    pub merged_output_path: String,
}

impl<P: Progress> Merger<P> {
    /// A merger for one group.
    pub fn new(progress: P, group: MovieGroup, movies_path: String, merged_output_path: String) -> (r: Merger<P>)
        ensures
            r.progress == progress,
            r.group == group,
            r.movies_path == movies_path,
            r.merged_output_path == merged_output_path,
    {
        Merger { progress, group, movies_path, merged_output_path }
    }
}

} // verus!
