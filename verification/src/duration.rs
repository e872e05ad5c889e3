//! Exact microsecond-precision durations for probe results and merge progress.
//!
//! The external transcoder reports times as whole seconds plus a literal
//! microsecond count, so the model is a pair (seconds, microseconds) with the
//! microsecond component kept below one million. The view of a duration is its
//! total length in microseconds.

use vstd::arithmetic::div_mod::lemma_fundamental_div_mod_converse;
use vstd::prelude::*;

verus! {

/// Microseconds in one second.
pub const MICROS_PER_SEC: u64 = 1000000;

/// A span of time: whole seconds plus a sub-second microsecond count.
#[derive(Debug, Clone, Copy, PartialEq, Eq, Structural)]
pub struct Duration {
    secs: u64,
    micros: u32,
}

impl View for Duration {
    type V = int;

    closed spec fn view(&self) -> int {
        self.secs * (MICROS_PER_SEC as int) + self.micros
    }
}

/// The microsecond component never reaches one second.
pub closed spec fn dur_wf(d: Duration) -> bool {
    d.micros < MICROS_PER_SEC
}

/// Total microseconds of the largest representable duration.
pub open spec fn dur_max() -> int {
    u64::MAX * (MICROS_PER_SEC as int) + (MICROS_PER_SEC - 1)
}

impl Duration {
    /// A duration of `secs` whole seconds.
    pub fn from_secs(secs: u64) -> (r: Duration)
        ensures
            dur_wf(r),
            r@ == secs * (MICROS_PER_SEC as int),
    {
        Duration { secs, micros: 0 }
    }

    /// A duration of `micros` microseconds, normalized into seconds.
    pub fn from_micros(micros: u64) -> (r: Duration)
        ensures
            dur_wf(r),
            r@ == micros,
    {
        let secs = micros / MICROS_PER_SEC;
        let rest = micros % MICROS_PER_SEC;
        Duration { secs, micros: rest as u32 }
    }

    /// Exact sum of two durations; the caller ensures the sum is representable.
    pub fn add(self, rhs: Duration) -> (r: Duration)
        requires
            dur_wf(self),
            dur_wf(rhs),
            self@ + rhs@ <= dur_max(),
        ensures
            dur_wf(r),
            r@ == self@ + rhs@,
    {
        let micros_sum: u64 = self.micros as u64 + rhs.micros as u64;
        if micros_sum >= MICROS_PER_SEC {
            Duration { secs: self.secs + rhs.secs + 1, micros: (micros_sum - MICROS_PER_SEC) as u32 }
        } else {
            Duration { secs: self.secs + rhs.secs, micros: micros_sum as u32 }
        }
    }

    /// Sum of two durations, clamped to the largest representable duration.
    pub fn saturating_add(self, rhs: Duration) -> (r: Duration)
        requires
            dur_wf(self),
            dur_wf(rhs),
        ensures
            dur_wf(r),
            r@ == if self@ + rhs@ <= dur_max() { self@ + rhs@ } else { dur_max() },
    {
        let micros_sum: u64 = self.micros as u64 + rhs.micros as u64;
        let (carry, micros): (u64, u32) = if micros_sum >= MICROS_PER_SEC {
            (1, (micros_sum - MICROS_PER_SEC) as u32)
        } else {
            (0, micros_sum as u32)
        };
        match self.secs.checked_add(rhs.secs) {
            Some(s) => match s.checked_add(carry) {
                Some(total) => Duration { secs: total, micros },
                None => Duration { secs: u64::MAX, micros: (MICROS_PER_SEC - 1) as u32 },
            },
            None => Duration { secs: u64::MAX, micros: (MICROS_PER_SEC - 1) as u32 },
        }
    }


    /// The duration's total length in microseconds.
    pub fn as_micros(&self) -> (r: u128)
        requires
            dur_wf(*self),
        ensures
            r == self@,
            r <= dur_max(),
    {
        proof {
            assert((self.secs as int) * (MICROS_PER_SEC as int) <= (u64::MAX as int) * (
            MICROS_PER_SEC as int)) by (nonlinear_arith)
                requires
                    self.secs <= u64::MAX,
            ;
        }
        (self.secs as u128) * (MICROS_PER_SEC as u128) + (self.micros as u128)
    }

    /// The whole-second component.
    pub fn as_secs(&self) -> (r: u64)
        requires
            dur_wf(*self),
        ensures
            r == self@ / (MICROS_PER_SEC as int),
    {
        proof {
            lemma_fundamental_div_mod_converse(
                self@,
                MICROS_PER_SEC as int,
                self.secs as int,
                self.micros as int,
            );
        }
        self.secs
    }

    /// The sub-second microsecond component.
    pub fn subsec_micros(&self) -> (r: u32)
        requires
            dur_wf(*self),
        ensures
            r == self@ % (MICROS_PER_SEC as int),
    {
        proof {
            lemma_fundamental_div_mod_converse(
                self@,
                MICROS_PER_SEC as int,
                self.secs as int,
                self.micros as int,
            );
        }
        self.micros
    }
}

impl Default for Duration {
    /// The zero duration.
    fn default() -> (r: Duration)
        ensures
            dur_wf(r),
            r@ == 0,
    {
        Duration { secs: 0, micros: 0 }
    }
}

/// Total length of a sequence of durations, in microseconds.
pub open spec fn sum_durations(ds: Seq<Duration>) -> int
    decreases ds.len(),
{
    if ds.len() == 0 {
        0
    } else {
        sum_durations(ds.drop_last()) + ds.last()@
    }
}

/// A well-formed duration is non-negative.
pub proof fn lemma_dur_nonneg(d: Duration)
    requires
        dur_wf(d),
    ensures
        d@ >= 0,
{
}

/// Sums split over concatenation.
pub proof fn lemma_sum_durations_concat(a: Seq<Duration>, b: Seq<Duration>)
    ensures
        sum_durations(a + b) == sum_durations(a) + sum_durations(b),
    decreases b.len(),
{
    if b.len() == 0 {
        assert(a + b =~= a);
    } else {
        lemma_sum_durations_concat(a, b.drop_last());
        assert((a + b).drop_last() =~= a + b.drop_last());
        assert((a + b).last() == b.last());
    }
}

/// A sum of well-formed durations is non-negative.
pub proof fn lemma_sum_durations_nonneg(ds: Seq<Duration>)
    requires
        forall|i: int| 0 <= i < ds.len() ==> dur_wf(#[trigger] ds[i]),
    ensures
        sum_durations(ds) >= 0,
    decreases ds.len(),
{
    if ds.len() > 0 {
        assert(forall|i: int| 0 <= i < ds.len() - 1 ==> ds.drop_last()[i] == ds[i]);
        lemma_sum_durations_nonneg(ds.drop_last());
        lemma_dur_nonneg(ds.last());
    }
}

/// A prefix sums to no more than the whole.
pub proof fn lemma_sum_durations_prefix(ds: Seq<Duration>, k: int)
    requires
        forall|i: int| 0 <= i < ds.len() ==> dur_wf(#[trigger] ds[i]),
        0 <= k <= ds.len(),
    ensures
        sum_durations(ds.take(k)) <= sum_durations(ds),
{
    assert(ds =~= ds.take(k) + ds.skip(k));
    lemma_sum_durations_concat(ds.take(k), ds.skip(k));
    assert(forall|i: int| 0 <= i < ds.skip(k).len() ==> ds.skip(k)[i] == ds[i + k]);
    lemma_sum_durations_nonneg(ds.skip(k));
}

} // verus!
