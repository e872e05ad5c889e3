//! The grouping step behind a small trait, so that callers can take any
//! source of groupable items.

use crate::group::{
    collect_spec, group_movies, groups_view, names_view, spec_group_movies, MovieGroup,
};
use vstd::prelude::*;

verus! {

/// Something that folds items into merge groups.
pub trait Grouper<T> {
    /// Fold the items into groups, one per recording.
    fn group(&self, items: Vec<T>) -> Vec<MovieGroup>;
}

/// Groups plain filename strings.
pub struct FileGrouper {}

impl FileGrouper {
    pub fn new() -> (r: FileGrouper) {
        FileGrouper {  }
    }
}

impl Grouper<String> for FileGrouper {
    /// Parse the names, discard what the grammar rejects, and fold the rest
    /// into sorted groups.
    fn group(&self, items: Vec<String>) -> (r: Vec<MovieGroup>)
        ensures
            groups_view(r@) == spec_group_movies(collect_spec(names_view(items@))),
    {
        group_movies(&items)
    }
}

} // verus!
