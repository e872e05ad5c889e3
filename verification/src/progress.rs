//! Progress reporting: one handle per group, with a mathematical model of
//! everything the handle was told, and a reporter that hands handles out.

use crate::duration::{dur_wf, Duration};
use crate::group::MovieGroup;
use vstd::prelude::*;

verus! {

/// Failure while reporting progress.
#[derive(Debug)]
pub enum Error {
    /// A completion signal could not be received.
    Recv,
    /// An input or output fault, described in words.
    Io(String),
}

/// Everything a progress handle has been told: the expected length, every
/// elapsed-time update, and every completion signal with its optional error.
pub struct ProgressModel {
    pub length: Option<int>,
    pub updates: Seq<int>,
    pub finishes: Seq<Option<Seq<char>>>,
}

/// A fresh handle: no length, no updates, no completion.
pub open spec fn progress_init() -> ProgressModel {
    ProgressModel { length: None, updates: Seq::empty(), finishes: Seq::empty() }
}

/// The model of an optional error message.
pub open spec fn err_view(err: Option<String>) -> Option<Seq<char>> {
    match err {
        None => None,
        Some(e) => Some(e@),
    }
}

/// A per-group progress handle.
pub trait Progress: Sized {
    /// What the handle has been told so far. Implementations that model
    /// their state override this; the default says nothing was recorded.
    open spec fn model(&self) -> ProgressModel {
        progress_init()
    }

    /// Set the expected total length.
    fn set_len(&mut self, len: Duration)
        requires
            dur_wf(len),
        ensures
            final(self).model() == (ProgressModel {
                length: Some(len@),
                updates: old(self).model().updates,
                finishes: old(self).model().finishes,
            }),
    ;

    /// Record the elapsed time of the running merge.
    fn update(&mut self, progress: Duration)
        requires
            dur_wf(progress),
        ensures
            final(self).model() == (ProgressModel {
                length: old(self).model().length,
                updates: old(self).model().updates.push(progress@),
                finishes: old(self).model().finishes,
            }),
    ;

    /// Signal completion, successful or with an error message.
    fn finish(&mut self, err: Option<String>)
        ensures
            final(self).model() == (ProgressModel {
                length: old(self).model().length,
                updates: old(self).model().updates,
                finishes: old(self).model().finishes.push(err_view(err)),
            }),
    ;
}

/// Hands out one progress handle per group and waits for all of them.
pub trait Reporter: Sized {
    type Progress: Progress;

    /// A reporter with no handles yet.
    fn new() -> Self;

    /// A fresh handle for one group, given its position and the group count.
    fn add(&self, group: &MovieGroup, index: usize, movies_len: usize) -> (p: Self::Progress)
        ensures
            p.model() == progress_init(),
    ;

    /// Block until every handle has signaled completion.
    fn wait(&self) -> Result<(), Error>;
}

/// A progress handle that simply records what it is told.
pub struct RecordedProgress {
    pub length: Option<Duration>,
    pub updates: Vec<Duration>,
    pub finishes: Vec<Option<String>>,
}

impl RecordedProgress {
    pub fn new() -> (r: RecordedProgress)
        ensures
            r.model() == progress_init(),
    {
        let r = RecordedProgress { length: None, updates: Vec::new(), finishes: Vec::new() };
        proof {
            assert(r.model().updates =~= progress_init().updates);
            assert(r.model().finishes =~= progress_init().finishes);
        }
        r
    }

    /// How many times completion was signaled.
    pub fn finish_count(&self) -> (r: usize)
        ensures
            r == self.model().finishes.len(),
    {
        self.finishes.len()
    }
}

impl Progress for RecordedProgress {
    open spec fn model(&self) -> ProgressModel {
        ProgressModel {
            length: match self.length {
                None => None,
                Some(d) => Some(d@),
            },
            updates: self.updates@.map_values(|d: Duration| d@),
            finishes: self.finishes@.map_values(|o: Option<String>| err_view(o)),
        }
    }

    fn set_len(&mut self, len: Duration) {
        self.length = Some(len);
    }

    fn update(&mut self, progress: Duration) {
        let ghost prev = self.updates@;
        self.updates.push(progress);
        proof {
            assert(self.updates@.map_values(|d: Duration| d@) =~= prev.map_values(
                |d: Duration| d@,
            ).push(progress@));
        }
    }

    fn finish(&mut self, err: Option<String>) {
        let ghost prev = self.finishes@;
        self.finishes.push(err);
        proof {
            assert(self.finishes@.map_values(|o: Option<String>| err_view(o)) =~= prev.map_values(
                |o: Option<String>| err_view(o),
            ).push(err_view(self.finishes@[prev.len() as int])));
        }
    }
}

/// A reporter whose handles record what they are told and whose wait
/// returns at once.
pub struct RecordedReporter {}

impl Reporter for RecordedReporter {
    type Progress = RecordedProgress;

    fn new() -> RecordedReporter {
        RecordedReporter {  }
    }

    fn add(&self, group: &MovieGroup, index: usize, movies_len: usize) -> (p: RecordedProgress) {
        RecordedProgress::new()
    }

    fn wait(&self) -> Result<(), Error> {
        Ok(())
    }
}

/// Rounded percentage of `progress` against `len`, with a zero length
/// reading as complete saturation (or zero when nothing has elapsed).
pub open spec fn percentage_spec(len: int, progress: int) -> int {
    if len == 0 {
        if progress == 0 {
            0
        } else {
            u64::MAX as int
        }
    } else {
        let q = (200 * progress + len) / (2 * len);
        if q > u64::MAX {
            u64::MAX as int
        } else {
            q
        }
    }
}

/// Percentage of the expected length that has elapsed, rounded to the
/// nearest whole percent.
pub fn calculate_percentage(len: Duration, progress: Duration) -> (r: u64)
    requires
        dur_wf(len),
        dur_wf(progress),
    ensures
        r == percentage_spec(len@, progress@),
{
    let l = len.as_micros();
    let p = progress.as_micros();
    if l == 0 {
        if p == 0 {
            0
        } else {
            u64::MAX
        }
    } else {
        let q: u128 = (200 * p + l) / (2 * l);
        if q > u64::MAX as u128 {
            u64::MAX
        } else {
            q as u64
        }
    }
}

} // verus!
