//! Concatenation helpers: the timestamp scanner for transcoder output, the
//! concat-list file contents, and duration totals.

use crate::duration::{
    dur_max, dur_wf, lemma_sum_durations_prefix, sum_durations, Duration, MICROS_PER_SEC,
};
use crate::ffmpeg::parser::or_zero;
use crate::identifier::{id_canon, Identifier};
use crate::merge::stream::{sat_dur, timestamp_duration};
use crate::text::{is_digit, parse_u64, parse_u64_spec};
use vstd::prelude::*;

verus! {

/// Failure while reading transcoder output or running a merge.
#[derive(Debug)]
pub enum Error {
    /// Probing a source file failed; carries the file's path.
    FailedToGetInfo(String),
    /// The merge process failed; carries the group's name.
    FailedToConvert(String),
    /// No timestamp could be read from the line; carries the line.
    InvalidOutputLine(String),
    /// A numeric field would not parse; carries the field's text.
    ParseInt(String),
    /// An input or output fault, described in words.
    Io(String),
}

/// First index at or after `i` whose character is not a digit.
pub open spec fn digit_run_end(s: Seq<char>, i: int) -> int
    decreases s.len() - i when 0 <= i <= s.len()
{
    if i >= s.len() {
        i
    } else if is_digit(s[i]) {
        digit_run_end(s, i + 1)
    } else {
        i
    }
}

/// The digit run is a well-delimited all-digit block.
pub proof fn lemma_digit_run_end(s: Seq<char>, i: int)
    requires
        0 <= i <= s.len(),
    ensures
        i <= digit_run_end(s, i) <= s.len(),
        forall|j: int| i <= j < digit_run_end(s, i) ==> is_digit(#[trigger] s[j]),
        digit_run_end(s, i) < s.len() ==> !is_digit(s[digit_run_end(s, i)]),
    decreases s.len() - i,
{
    if i < s.len() && is_digit(s[i]) {
        lemma_digit_run_end(s, i + 1);
    }
}

/// A timestamp `H+:M+:S+` starts at index `i`; a `.F+` fraction may follow.
pub open spec fn ts_at(s: Seq<char>, i: int) -> bool {
    let a = digit_run_end(s, i);
    let b = digit_run_end(s, a + 1);
    let c = digit_run_end(s, b + 1);
    &&& a > i
    &&& a < s.len()
    &&& s[a] == ':'
    &&& b > a + 1
    &&& b < s.len()
    &&& s[b] == ':'
    &&& c > b + 1
}

/// The first index at or after `i` where a timestamp starts.
pub open spec fn ts_start_from(s: Seq<char>, i: int) -> Option<int>
    decreases s.len() - i when 0 <= i <= s.len()
{
    if i >= s.len() {
        None
    } else if ts_at(s, i) {
        Some(i)
    } else {
        ts_start_from(s, i + 1)
    }
}

/// The four digit fields of the timestamp starting at `i`: hours, minutes,
/// seconds, and the fraction (empty when no `.F+` follows the seconds).
pub open spec fn ts_fields(s: Seq<char>, i: int) -> (Seq<char>, Seq<char>, Seq<char>, Seq<char>) {
    let a = digit_run_end(s, i);
    let b = digit_run_end(s, a + 1);
    let c = digit_run_end(s, b + 1);
    let frac = if c < s.len() && s[c] == '.' && digit_run_end(s, c + 1) > c + 1 {
        s.subrange(c + 1, digit_run_end(s, c + 1))
    } else {
        Seq::empty()
    };
    (s.subrange(i, a), s.subrange(a + 1, b), s.subrange(b + 1, c), frac)
}

/// Total microseconds the timestamp starting at `i` reads as, under the
/// lenient field rule: the fraction is a literal microsecond count, bad or
/// missing fields zero, the total clamped to the representable range.
pub open spec fn ts_value(s: Seq<char>, i: int) -> int {
    let fields = ts_fields(s, i);
    sat_dur(
        (or_zero(parse_u64_spec(fields.0)) * 3600 + or_zero(parse_u64_spec(fields.1)) * 60
            + or_zero(parse_u64_spec(fields.2))) * (MICROS_PER_SEC as int) + or_zero(
            parse_u64_spec(fields.3),
        ),
    )
}

/// Look for a timestamp starting at `i`; when present return the ends of
/// its three mandatory digit runs.
fn ts_try(s: &str, i: usize) -> (r: Option<(usize, usize, usize)>)
    requires
        i <= s@.len(),
    ensures
        r is Some <==> ts_at(s@, i as int),
        r is Some ==> {
            let a = digit_run_end(s@, i as int);
            let b = digit_run_end(s@, a + 1);
            let c = digit_run_end(s@, b + 1);
            r->0 == (a as usize, b as usize, c as usize)
        },
{
    let n = s.unicode_len();
    let a = digit_run(s, i);
    if !(a > i && a < n && s.get_char(a) == ':') {
        return None;
    }
    let b = digit_run(s, a + 1);
    if !(b > a + 1 && b < n && s.get_char(b) == ':') {
        return None;
    }
    let c = digit_run(s, b + 1);
    if !(c > b + 1) {
        return None;
    }
    Some((a, b, c))
}

/// First index at or after `start` whose character is not a digit.
fn digit_run(s: &str, start: usize) -> (r: usize)
    requires
        start <= s@.len(),
    ensures
        r == digit_run_end(s@, start as int),
        start <= r <= s@.len(),
{
    let n = s.unicode_len();
    let mut j = start;
    while j < n && s.get_char(j) as u32 >= 48 && s.get_char(j) as u32 <= 57
        invariant
            start <= j <= n,
            n == s@.len(),
            digit_run_end(s@, start as int) == digit_run_end(s@, j as int),
        decreases n - j,
    {
        proof {
            assert(is_digit(s@[j as int]));
        }
        j += 1;
    }
    proof {
        if j < n {
            assert(!is_digit(s@[j as int]));
        }
        lemma_digit_run_end(s@, j as int);
    }
    j
}

/// Scan arbitrary transcoder output for the first `H+:M+:S+` timestamp
/// (with an optional `.F+` fraction) and read it as a duration under the
/// lenient field rule: the fraction counts literal microseconds, bad or
/// missing fields read as zero, and the total clamps to the representable
/// range. Output without any timestamp is rejected with the whole input.
pub fn parse_timestamp_match(input: &str) -> (r: Result<Duration, Error>)
    ensures
        match r {
            Ok(dur) => {
                let start = ts_start_from(input@, 0);
                &&& start is Some
                &&& dur_wf(dur)
                &&& dur@ == ts_value(input@, start->0)
            },
            Err(Error::InvalidOutputLine(t)) => t@ == input@ && ts_start_from(input@, 0) is None,
            _ => false,
        },
{
    let n = input.unicode_len();
    let mut i: usize = 0;
    while i < n
        invariant
            0 <= i <= n,
            n == input@.len(),
            ts_start_from(input@, 0) == ts_start_from(input@, i as int),
        decreases n - i,
    {
        match ts_try(input, i) {
            Some((a, b, c)) => {
                proof {
                    assert(ts_at(input@, i as int));
                    assert(ts_start_from(input@, i as int) == Some(i as int));
                    lemma_digit_run_end(input@, i as int);
                    lemma_digit_run_end(input@, a + 1);
                    lemma_digit_run_end(input@, b + 1);
                }
                let hs = input.substring_char(i, a);
                let ms = input.substring_char(a + 1, b);
                let ss = input.substring_char(b + 1, c);
                let h = parse_u64(hs).unwrap_or(0);
                let m = parse_u64(ms).unwrap_or(0);
                let sec = parse_u64(ss).unwrap_or(0);
                let frac: u64 = if c < n && input.get_char(c) == '.' {
                    proof {
                        lemma_digit_run_end(input@, c + 1);
                    }
                    let d = digit_run(input, c + 1);
                    if d > c + 1 {
                        let fs = input.substring_char(c + 1, d);
                        parse_u64(fs).unwrap_or(0)
                    } else {
                        proof {
                            assert(ts_fields(input@, i as int).3 =~= Seq::<char>::empty());
                        }
                        0
                    }
                } else {
                    proof {
                        assert(ts_fields(input@, i as int).3 =~= Seq::<char>::empty());
                    }
                    0
                };
                return Ok(timestamp_duration(h, m, sec, frac));
            },
            None => {},
        }
        i += 1;
    }
    Err(Error::InvalidOutputLine(String::from_str(input)))
}

/// One line of a concat-list file: `file '<path>'` with a CRLF terminator.
pub open spec fn concat_line(path: Seq<char>) -> Seq<char> {
    seq!['f', 'i', 'l', 'e', ' ', '\''] + path + seq!['\'', '\r', '\n']
}

/// The whole concat-list file: one line per path, in order.
pub open spec fn concat_list(paths: Seq<Seq<char>>) -> Seq<char>
    decreases paths.len(),
{
    if paths.len() == 0 {
        Seq::empty()
    } else {
        concat_list(paths.drop_last()) + concat_line(paths.last())
    }
}

/// A directory entry under `dir`.
pub open spec fn path_join(dir: Seq<char>, name: Seq<char>) -> Seq<char> {
    dir + seq!['/'] + name
}

/// Join a directory and a file name with a slash.
pub fn join_path(dir: &str, name: &str) -> (r: String)
    ensures
        r@ == path_join(dir@, name@),
{
    let mut r = String::from_str(dir);
    r.append("/");
    proof {
        reveal_strlit("/");
    }
    r.append(name);
    proof {
        assert(r@ =~= path_join(dir@, name@));
    }
    r
}

/// Render the concat-list contents for the given source paths and return
/// the paths beside it, as the merge steps consume both.
pub fn write_recordings_to_input_file(input_path: &str, recordings: &Vec<Identifier>) -> (r: (
    Vec<String>,
    String,
))
    ensures
        r.0@.len() == recordings@.len(),
        forall|k: int|
            0 <= k < recordings@.len() ==> (#[trigger] r.0@[k])@ == path_join(
                input_path@,
                id_canon(recordings@[k]@),
            ),
        r.1@ == concat_list(r.0.deep_view()),
{
    let mut paths: Vec<String> = Vec::new();
    let mut contents = String::new();
    let n = recordings.len();
    let mut i: usize = 0;
    proof {
        assert(contents@ =~= concat_list(paths.deep_view()));
    }
    while i < n
        invariant
            0 <= i <= n,
            n == recordings@.len(),
            paths@.len() == i,
            forall|k: int|
                0 <= k < i ==> (#[trigger] paths@[k])@ == path_join(
                    input_path@,
                    id_canon(recordings@[k]@),
                ),
            contents@ == concat_list(paths.deep_view()),
        decreases n - i,
    {
        let name = recordings[i].string();
        let p = join_path(input_path, name.as_str());
        let ghost prevdv = paths.deep_view();
        contents.append("file '");
        contents.append(p.as_str());
        contents.append("'\r\n");
        paths.push(p);
        proof {
            reveal_strlit("file '");
            reveal_strlit("'\r\n");
            assert(paths.deep_view() =~= prevdv.push(paths@[i as int]@));
            assert(paths.deep_view().drop_last() =~= prevdv);
            assert(contents@ =~= concat_list(prevdv) + concat_line(paths@[i as int]@));
        }
        i += 1;
    }
    (paths, contents)
}

/// Sum probed chapter durations into the expected merged length.
pub fn calculate_total_duration(durations: &Vec<Duration>) -> (r: Duration)
    requires
        forall|i: int| 0 <= i < durations@.len() ==> dur_wf(#[trigger] durations@[i]),
        sum_durations(durations@) <= dur_max(),
    ensures
        dur_wf(r),
        r@ == sum_durations(durations@),
{
    let mut acc = Duration::default();
    let n = durations.len();
    let mut i: usize = 0;
    proof {
        assert(durations@.take(0) =~= Seq::<Duration>::empty());
    }
    while i < n
        invariant
            0 <= i <= n,
            n == durations@.len(),
            forall|k: int| 0 <= k < durations@.len() ==> dur_wf(#[trigger] durations@[k]),
            sum_durations(durations@) <= dur_max(),
            dur_wf(acc),
            acc@ == sum_durations(durations@.take(i as int)),
        decreases n - i,
    {
        proof {
            assert(durations@.take(i + 1).drop_last() =~= durations@.take(i as int));
            assert(durations@.take(i + 1).last() == durations@[i as int]);
            lemma_sum_durations_prefix(durations@, i + 1);
        }
        acc = acc.add(durations[i]);
        i += 1;
    }
    proof {
        assert(durations@.take(n as int) =~= durations@);
    }
    acc
}

} // verus!
