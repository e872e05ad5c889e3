//! Lenient telemetry parsing: numeric fields that fail to parse default to
//! zero, so malformed telemetry never kills a merge in progress.

use crate::duration::{dur_wf, Duration, MICROS_PER_SEC};
use crate::merge::stream::{
    duration_key, first_match, out_time_key, sat_dur, saturating_duration, timestamp_duration,
};
use crate::merge::Error;
use crate::text::{
    key_value, key_value_spec, parse_u64, parse_u64_spec, spec_lines, split_head, split_head_spec,
    split_lines, str_eq,
};
use vstd::prelude::*;

verus! {

/// A parsed field, defaulting to zero when absent or unreadable.
pub open spec fn or_zero(v: Option<u64>) -> int {
    match v {
        None => 0,
        Some(x) => x as int,
    }
}

/// Read a probe `duration` value leniently: `SECONDS.FRACTION`, the
/// fraction a literal microsecond count, bad fields zero.
pub open spec fn lenient_probe_value(value: Seq<char>) -> int {
    let h = split_head_spec(value, '.');
    let s = or_zero(parse_u64_spec(h.0));
    let us = match h.1 {
        None => 0,
        Some(a) => or_zero(parse_u64_spec(split_head_spec(a, '.').0)),
    };
    sat_dur(s * (MICROS_PER_SEC as int) + us)
}

/// Read a merge `out_time` value leniently: `H:MM:SS.FRACTION`, bad or
/// missing fields zero, the fraction a literal microsecond count.
pub open spec fn lenient_ts_value(value: Seq<char>) -> int {
    let hm = split_head_spec(value, '.');
    let s1 = split_head_spec(hm.0, ':');
    let h = or_zero(parse_u64_spec(s1.0));
    let m = match s1.1 {
        None => 0,
        Some(t) => or_zero(parse_u64_spec(split_head_spec(t, ':').0)),
    };
    let sec = match s1.1 {
        None => 0,
        Some(t) => match split_head_spec(t, ':').1 {
            None => 0,
            Some(u) => or_zero(parse_u64_spec(split_head_spec(u, ':').0)),
        },
    };
    let f = match hm.1 {
        None => 0,
        Some(a) => or_zero(parse_u64_spec(split_head_spec(a, '.').0)),
    };
    sat_dur((h * 3600 + m * 60 + sec) * (MICROS_PER_SEC as int) + f)
}

/// The elapsed values of every `out_time` line, in stream order.
pub open spec fn out_time_events(lines: Seq<Seq<char>>) -> Seq<int>
    decreases lines.len(),
{
    if lines.len() == 0 {
        Seq::empty()
    } else {
        let rest = out_time_events(lines.skip(1));
        match key_value_spec(lines[0]) {
            Some(kv) => if kv.0 == out_time_key() {
                seq![lenient_ts_value(kv.1)] + rest
            } else {
                rest
            },
            None => rest,
        }
    }
}

/// A parser over one subprocess output stream.
pub trait CommandStreamDurationParser<V> {
    fn parse(&mut self) -> Result<V, Error>;
}

/// First-match probe parser: the first `duration` line decides, leniently.
pub struct FFprobeDurationParser<'a> {
    pub stream: Option<&'a str>,
}

impl<'a> FFprobeDurationParser<'a> {
    pub fn new(stream: &'a str) -> (r: FFprobeDurationParser<'a>)
        ensures
            r.stream == Some(stream),
    {
        FFprobeDurationParser { stream: Some(stream) }
    }
}

impl<'a> CommandStreamDurationParser<Duration> for FFprobeDurationParser<'a> {
    /// The first `duration` value of the stream, read leniently; a stream
    /// without one reads as zero. A parser whose stream was already
    /// consumed reports the command as not spawned.
    fn parse(&mut self) -> (r: Result<Duration, Error>)
        ensures
            final(self).stream is None,
            ({
                match old(self).stream {
                    None => r matches Err(Error::CommandNotSpawned(_)),
                    Some(st) => {
                        let lines = spec_lines(st@);
                        match first_match(lines, duration_key()) {
                            None => r matches Ok(d) && dur_wf(d) && d@ == 0,
                            Some(value) => r matches Ok(d) && dur_wf(d) && d@
                                == lenient_probe_value(value),
                        }
                    },
                }
            }),
    {
        let stream = match self.stream.take() {
            Some(st) => st,
            None => {
                return Err(Error::CommandNotSpawned(String::new()));
            },
        };
        let lines = split_lines(stream);
        let ghost all = spec_lines(stream@);
        let n = lines.len();
        let mut i: usize = 0;
        proof {
            assert(all.skip(0) =~= all);
        }
        while i < n
            invariant
                0 <= i <= n,
                n == all.len(),
                lines.deep_view() == all,
                self.stream is None,
                old(self).stream matches Some(st) && all == spec_lines(st@),
                first_match(all, duration_key()) == first_match(
                    all.skip(i as int),
                    duration_key(),
                ),
            decreases n - i,
        {
            proof {
                assert(all.skip(i as int)[0] == all[i as int]);
                assert(all.skip(i as int).skip(1) =~= all.skip(i + 1));
                assert(lines@[i as int]@ == all[i as int]);
                reveal_strlit("duration");
                assert("duration"@ =~= duration_key());
            }
            match key_value(lines[i].as_str()) {
                Some((key, value)) => {
                    if str_eq(key, "duration") {
                        let (secs_txt, rest) = split_head(value, '.');
                        let s = parse_u64(secs_txt).unwrap_or(0);
                        let us = match rest {
                            None => 0u64,
                            Some(a) => {
                                let (micros_txt, _t) = split_head(a, '.');
                                parse_u64(micros_txt).unwrap_or(0)
                            },
                        };
                        return Ok(saturating_duration(s, us));
                    }
                },
                None => {},
            }
            i += 1;
        }
        proof {
            assert(all.skip(n as int) =~= Seq::<Seq<char>>::empty());
        }
        Ok(Duration::default())
    }
}

/// Fold-all merge-progress parser: yields the elapsed value of every
/// `out_time` line, read leniently.
pub struct FFmpegDurationParser<'a> {
    pub stream: Option<&'a str>,
}

impl<'a> FFmpegDurationParser<'a> {
    pub fn new(stream: &'a str) -> (r: FFmpegDurationParser<'a>)
        ensures
            r.stream == Some(stream),
    {
        FFmpegDurationParser { stream: Some(stream) }
    }

    /// Read one `out_time` value leniently.
    pub fn parse_timestamp_match(&self, input: &str) -> (r: Duration)
        ensures
            dur_wf(r),
            r@ == lenient_ts_value(input@),
    {
        let (head, rest) = split_head(input, '.');
        let (h_txt, r1) = split_head(head, ':');
        let h = parse_u64(h_txt).unwrap_or(0);
        let (m, sec) = match r1 {
            None => (0u64, 0u64),
            Some(t) => {
                let (m_txt, r2) = split_head(t, ':');
                let m = parse_u64(m_txt).unwrap_or(0);
                let sec = match r2 {
                    None => 0u64,
                    Some(u) => {
                        let (s_txt, _r3) = split_head(u, ':');
                        parse_u64(s_txt).unwrap_or(0)
                    },
                };
                (m, sec)
            },
        };
        let f = match rest {
            None => 0u64,
            Some(a) => {
                let (f_txt, _t) = split_head(a, '.');
                parse_u64(f_txt).unwrap_or(0)
            },
        };
        timestamp_duration(h, m, sec, f)
    }
}

impl<'a> CommandStreamDurationParser<Vec<Duration>> for FFmpegDurationParser<'a> {
    /// Every `out_time` value of the stream, in order, read leniently. A
    /// parser whose stream was already consumed reports the command as not
    /// spawned.
    fn parse(&mut self) -> (r: Result<Vec<Duration>, Error>)
        ensures
            final(self).stream is None,
            ({
                match old(self).stream {
                    None => r matches Err(Error::CommandNotSpawned(_)),
                    Some(st) => r matches Ok(events) && {
                        let lines = spec_lines(st@);
                        &&& events@.map_values(|d: Duration| d@) == out_time_events(lines)
                        &&& forall|k: int| 0 <= k < events@.len() ==> dur_wf(#[trigger] events@[k])
                    },
                }
            }),
    {
        let stream = match self.stream.take() {
            Some(st) => st,
            None => {
                return Err(Error::CommandNotSpawned(String::new()));
            },
        };
        let lines = split_lines(stream);
        let ghost all = spec_lines(stream@);
        let mut events: Vec<Duration> = Vec::new();
        let n = lines.len();
        let mut i: usize = 0;
        proof {
            assert(all.skip(0) =~= all);
            assert(events@.map_values(|d: Duration| d@) =~= Seq::<int>::empty());
        }
        while i < n
            invariant
                0 <= i <= n,
                n == all.len(),
                lines.deep_view() == all,
                forall|k: int| 0 <= k < events@.len() ==> dur_wf(#[trigger] events@[k]),
                out_time_events(all) == events@.map_values(|d: Duration| d@) + out_time_events(
                    all.skip(i as int),
                ),
            decreases n - i,
        {
            proof {
                assert(all.skip(i as int)[0] == all[i as int]);
                assert(all.skip(i as int).skip(1) =~= all.skip(i + 1));
                assert(lines@[i as int]@ == all[i as int]);
                reveal_strlit("out_time");
                assert("out_time"@ =~= out_time_key());
            }
            match key_value(lines[i].as_str()) {
                Some((key, value)) => {
                    if str_eq(key, "out_time") {
                        let ghost prev = events@;
                        let d = self.parse_timestamp_match(value);
                        events.push(d);
                        proof {
                            assert(events@.map_values(|x: Duration| x@) =~= prev.map_values(
                                |x: Duration| x@,
                            ).push(d@));
                            assert(prev.map_values(|x: Duration| x@).push(d@) + out_time_events(
                                all.skip(i + 1),
                            ) =~= prev.map_values(|x: Duration| x@) + (seq![d@] + out_time_events(
                                all.skip(i + 1),
                            )));
                        }
                    }
                },
                None => {},
            }
            i += 1;
        }
        proof {
            assert(all.skip(n as int) =~= Seq::<Seq<char>>::empty());
            assert(events@.map_values(|d: Duration| d@) + out_time_events(all.skip(n as int))
                =~= events@.map_values(|d: Duration| d@));
        }
        Ok(events)
    }
}

} // verus!
