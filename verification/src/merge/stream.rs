//! Telemetry-stream parsing over `key=value` lines from the transcoder.
//! The probe parser reads its one `duration` value strictly; the fold-all
//! progress parser reads `out_time` values leniently, so malformed
//! telemetry never kills a merge in progress.

use crate::duration::{dur_max, dur_wf, Duration, MICROS_PER_SEC};
use crate::ffmpeg::parser::{lenient_ts_value, out_time_events};
use crate::merge::Error;
use crate::progress::{Progress, ProgressModel};
use crate::text::{
    key_value, key_value_spec, parse_u64, parse_u64_spec, spec_lines, split_head, split_head_spec,
    split_lines, str_eq,
};
use vstd::prelude::*;

verus! {

/// The telemetry key a probe reports its duration under.
pub open spec fn duration_key() -> Seq<char> {
    seq!['d', 'u', 'r', 'a', 't', 'i', 'o', 'n']
}

/// The telemetry key the merge reports its elapsed time under.
pub open spec fn out_time_key() -> Seq<char> {
    seq!['o', 'u', 't', '_', 't', 'i', 'm', 'e']
}

/// The value of the first line carrying `key`, if any line does.
pub open spec fn first_match(lines: Seq<Seq<char>>, key: Seq<char>) -> Option<Seq<char>>
    decreases lines.len(),
{
    if lines.len() == 0 {
        None
    } else {
        match key_value_spec(lines[0]) {
            Some(kv) => if kv.0 == key {
                Some(kv.1)
            } else {
                first_match(lines.skip(1), key)
            },
            None => first_match(lines.skip(1), key),
        }
    }
}

/// Clamp a microsecond total to the representable range.
pub open spec fn sat_dur(total: int) -> int {
    if total <= dur_max() {
        total
    } else {
        dur_max()
    }
}

/// How one probe `duration` value reads under the strict rules:
/// `SECONDS.FRACTION`, the fraction a literal microsecond count.
pub enum ProbeOutcome {
    /// Total microseconds.
    Value(int),
    /// The seconds field would not parse; carries it.
    BadSeconds(Seq<char>),
    /// There is no fraction field at all.
    MissingMicros,
    /// The fraction field would not parse; carries it.
    BadMicros(Seq<char>),
}

/// Read a probe `duration` value strictly.
pub open spec fn probe_value_outcome(value: Seq<char>) -> ProbeOutcome {
    let h = split_head_spec(value, '.');
    match parse_u64_spec(h.0) {
        None => ProbeOutcome::BadSeconds(h.0),
        Some(s) => match h.1 {
            None => ProbeOutcome::MissingMicros,
            Some(after) => {
                let m = split_head_spec(after, '.').0;
                match parse_u64_spec(m) {
                    None => ProbeOutcome::BadMicros(m),
                    Some(us) => ProbeOutcome::Value(
                        sat_dur(s * (MICROS_PER_SEC as int) + us),
                    ),
                }
            },
        },
    }
}

/// A parser over one subprocess output stream.
pub trait CommandStreamDurationParser<V> {
    fn parse(&mut self) -> Result<V, Error>;
}

/// First-match probe parser: the first `duration` line decides.
pub struct FfprobeDurationParser<'a> {
    pub stream: Option<&'a str>,
}

impl<'a> FfprobeDurationParser<'a> {
    pub fn new(stream: &'a str) -> (r: FfprobeDurationParser<'a>)
        ensures
            r.stream == Some(stream),
    {
        FfprobeDurationParser { stream: Some(stream) }
    }
}

impl<'a> CommandStreamDurationParser<Duration> for FfprobeDurationParser<'a> {
    /// Scan the stream's lines for the first `duration` value and read it;
    /// a stream without one reads as zero. A parser whose stream was
    /// already consumed reports the command as not spawned.
    fn parse(&mut self) -> (r: Result<Duration, Error>)
        ensures
            final(self).stream is None,
            ({
                match old(self).stream {
                    None => r matches Err(Error::CommandNotSpawned(_)),
                    Some(st) => {
                        let lines = spec_lines(st@);
                        match first_match(lines, duration_key()) {
                            None => r matches Ok(d) && dur_wf(d) && d@ == 0,
                            Some(value) => match probe_value_outcome(value) {
                                ProbeOutcome::Value(v) => r matches Ok(d) && dur_wf(d) && d@ == v,
                                ProbeOutcome::BadSeconds(t) => r matches Err(Error::ParseInt(e))
                                    && e@ == t,
                                ProbeOutcome::MissingMicros => r matches Err(
                                    Error::InvalidOutputLine(e),
                                ) && e@ == value,
                                ProbeOutcome::BadMicros(t) => r matches Err(Error::ParseInt(e))
                                    && e@ == t,
                            },
                        }
                    },
                }
            }),
    {
        let stream = match self.stream.take() {
            Some(st) => st,
            None => {
                return Err(Error::CommandNotSpawned(String::new()));
            },
        };
        let lines = split_lines(stream);
        let ghost all = spec_lines(stream@);
        let n = lines.len();
        let mut i: usize = 0;
        proof {
            assert(all.skip(0) =~= all);
        }
        while i < n
            invariant
                0 <= i <= n,
                n == all.len(),
                lines.deep_view() == all,
                self.stream is None,
                old(self).stream matches Some(st) && all == spec_lines(st@),
                first_match(all, duration_key()) == first_match(
                    all.skip(i as int),
                    duration_key(),
                ),
            decreases n - i,
        {
            proof {
                assert(all.skip(i as int)[0] == all[i as int]);
                assert(all.skip(i as int).skip(1) =~= all.skip(i + 1));
                assert(lines@[i as int]@ == all[i as int]);
            }
            match key_value(lines[i].as_str()) {
                Some((key, value)) => {
                    if str_eq(key, "duration") {
                        proof {
                            reveal_strlit("duration");
                            assert(key@ =~= duration_key() ==> key@ == duration_key());
                            assert("duration"@ =~= duration_key());
                        }
                        let (secs_txt, rest) = split_head(value, '.');
                        let s = match parse_u64(secs_txt) {
                            Some(v) => v,
                            None => {
                                return Err(Error::ParseInt(String::from_str(secs_txt)));
                            },
                        };
                        let after = match rest {
                            Some(a) => a,
                            None => {
                                return Err(Error::InvalidOutputLine(String::from_str(value)));
                            },
                        };
                        let (micros_txt, _tail) = split_head(after, '.');
                        let us = match parse_u64(micros_txt) {
                            Some(v) => v,
                            None => {
                                return Err(Error::ParseInt(String::from_str(micros_txt)));
                            },
                        };
                        return Ok(saturating_duration(s, us));
                    } else {
                        proof {
                            reveal_strlit("duration");
                            assert("duration"@ =~= duration_key());
                        }
                    }
                },
                None => {},
            }
            i += 1;
        }
        proof {
            assert(all.skip(n as int) =~= Seq::<Seq<char>>::empty());
        }
        Ok(Duration::default())
    }
}

/// A duration of `s` seconds plus `us` literal microseconds, clamped to the
/// representable range.
pub fn saturating_duration(s: u64, us: u64) -> (r: Duration)
    ensures
        dur_wf(r),
        r@ == sat_dur(s * (MICROS_PER_SEC as int) + us),
{
    Duration::from_secs(s).saturating_add(Duration::from_micros(us))
}

/// Fold-all merge-progress parser: every `out_time` line updates the
/// progress handle it owns.
pub struct FfmpegDurationProgressParser<P> {
    pub stream: Option<String>,
    pub pb: P,
}

impl<P: Progress> FfmpegDurationProgressParser<P> {
    pub fn new(stream: &str, pb: P) -> (r: FfmpegDurationProgressParser<P>)
        ensures
            r.stream matches Some(s) && s@ == stream@,
            r.pb == pb,
    {
        FfmpegDurationProgressParser { stream: Some(String::from_str(stream)), pb }
    }

    /// Read one `out_time` value: `H:MM:SS.FRACTION`, bad or missing
    /// fields zero, so a malformed line cannot abort the scan.
    pub fn parse_timestamp_match(&self, input: &str) -> (r: Result<Duration, Error>)
        ensures
            r matches Ok(d) && dur_wf(d) && d@ == lenient_ts_value(input@),
    {
        let (head, rest) = split_head(input, '.');
        let (h_txt, r1) = split_head(head, ':');
        let h = parse_u64(h_txt).unwrap_or(0);
        let (m, sec) = match r1 {
            None => (0u64, 0u64),
            Some(t) => {
                let (m_txt, r2) = split_head(t, ':');
                let m = parse_u64(m_txt).unwrap_or(0);
                let sec = match r2 {
                    None => 0u64,
                    Some(u) => {
                        let (s_txt, _r3) = split_head(u, ':');
                        parse_u64(s_txt).unwrap_or(0)
                    },
                };
                (m, sec)
            },
        };
        let f = match rest {
            None => 0u64,
            Some(a) => {
                let (f_txt, _t) = split_head(a, '.');
                parse_u64(f_txt).unwrap_or(0)
            },
        };
        Ok(timestamp_duration(h, m, sec, f))
    }

}

impl<P: Progress> CommandStreamDurationParser<()> for FfmpegDurationProgressParser<P> {
    /// Apply every `out_time` value of the stream to the progress handle,
    /// in order, read leniently. A parser whose stream was already consumed
    /// reports the command as not spawned and touches nothing.
    #[verifier::rlimit(60)]
    fn parse(&mut self) -> (r: Result<(), Error>)
        ensures
            final(self).stream is None,
            ({
                match old(self).stream {
                    None => r matches Err(Error::CommandNotSpawned(_)) && final(self).pb.model()
                        == old(self).pb.model(),
                    Some(st) => {
                        let lines = spec_lines(st@);
                        &&& final(self).pb.model() == (ProgressModel {
                            length: old(self).pb.model().length,
                            updates: old(self).pb.model().updates + out_time_events(lines),
                            finishes: old(self).pb.model().finishes,
                        })
                        &&& r matches Ok(u) && u == ()
                    },
                }
            }),
    {
        let stream = match self.stream.take() {
            Some(st) => st,
            None => {
                return Err(Error::CommandNotSpawned(String::new()));
            },
        };
        let lines = split_lines(stream.as_str());
        let ghost all = spec_lines(stream@);
        let ghost pb0 = old(self).pb.model();
        let ghost mut done: Seq<int> = Seq::empty();
        let n = lines.len();
        let mut i: usize = 0;
        proof {
            assert(all.skip(0) =~= all);
            assert(pb0.updates + done =~= pb0.updates);
        }
        while i < n
            invariant
                0 <= i <= n,
                n == all.len(),
                lines.deep_view() == all,
                self.stream is None,
                old(self).stream matches Some(st) && all == spec_lines(st@),
                pb0 == old(self).pb.model(),
                self.pb.model() == (ProgressModel {
                    length: pb0.length,
                    updates: pb0.updates + done,
                    finishes: pb0.finishes,
                }),
                out_time_events(all) == done + out_time_events(all.skip(i as int)),
            decreases n - i,
        {
            proof {
                assert(all.skip(i as int)[0] == all[i as int]);
                assert(all.skip(i as int).skip(1) =~= all.skip(i + 1));
                assert(lines@[i as int]@ == all[i as int]);
            }
            match key_value(lines[i].as_str()) {
                Some((key, value)) => {
                    proof {
                        reveal_strlit("out_time");
                        assert("out_time"@ =~= out_time_key());
                    }
                    if str_eq(key, "out_time") {
                        match self.parse_timestamp_match(value) {
                            Ok(d) => {
                                self.pb.update(d);
                                proof {
                                    done = done.push(d@);
                                    assert(pb0.updates + done.drop_last() + seq![d@] =~= pb0.updates
                                        + done);
                                    assert(done.drop_last() + (seq![d@] + out_time_events(
                                        all.skip(i + 1),
                                    )) =~= done + out_time_events(all.skip(i + 1)));
                                }
                            },
                            Err(_) => {
                                // the lenient read always yields a value
                            },
                        }
                    }
                },
                None => {},
            }
            i += 1;
        }
        proof {
            assert(all.skip(n as int) =~= Seq::<Seq<char>>::empty());
            assert(done + out_time_events(all.skip(n as int)) =~= done);
        }
        Ok(())
    }
}

/// A duration of `h` hours, `m` minutes, `sec` seconds and `f` literal
/// microseconds, clamped to the representable range.
pub fn timestamp_duration(h: u64, m: u64, sec: u64, f: u64) -> (r: Duration)
    ensures
        dur_wf(r),
        r@ == sat_dur((h * 3600 + m * 60 + sec) * (MICROS_PER_SEC as int) + f),
{
    let total_secs_a: u128 = (h as u128) * 3600 + (m as u128) * 60 + (sec as u128);
    if total_secs_a > u64::MAX as u128 {
        proof {
            assert((h * 3600 + m * 60 + sec) * (MICROS_PER_SEC as int) + f > dur_max()) by (
            nonlinear_arith)
                requires
                    h * 3600 + m * 60 + sec > u64::MAX,
                    f >= 0,
            ;
        }
        Duration::from_secs(u64::MAX).saturating_add(Duration::from_micros(u64::MAX))
    } else {
        let base = Duration::from_secs(total_secs_a as u64);
        proof {
            assert(base@ == (h * 3600 + m * 60 + sec) * (MICROS_PER_SEC as int));
        }
        base.saturating_add(Duration::from_micros(f))
    }
}

} // verus!
