//! Argument vectors for the two subprocess kinds: the concat-demuxer merge
//! and the stream probe. Building arguments is a pure function of the
//! paths, kept apart from spawning.

use vstd::prelude::*;

verus! {

/// The two subprocess kinds: a merge over a concat list writing one output
/// (with a file to absorb its error stream), or a probe of one input.
#[derive(Debug)]
pub enum FFmpegCommandKind {
    FFmpeg(String, String, String),
    FFprobe(String),
}

/// The argument vector each kind is invoked with: the merge reads the
/// concat list unsafely-pathed, overwrites its output, stream-copies,
/// logs errors only, and directs progress telemetry to its standard
/// output; the probe shows streams at error-only logging.
pub open spec fn spec_args(kind: FFmpegCommandKind) -> Seq<Seq<char>> {
    match kind {
        FFmpegCommandKind::FFmpeg(input, output, stderr) => seq![
            seq!['-', 'f'],
            seq!['c', 'o', 'n', 'c', 'a', 't'],
            seq!['-', 's', 'a', 'f', 'e'],
            seq!['0'],
            seq!['-', 'y'],
            seq!['-', 'i'],
            input@,
            seq!['-', 'c'],
            seq!['c', 'o', 'p', 'y'],
            output@,
            seq!['-', 'l', 'o', 'g', 'l', 'e', 'v', 'e', 'l'],
            seq!['e', 'r', 'r', 'o', 'r'],
            seq!['-', 'p', 'r', 'o', 'g', 'r', 'e', 's', 's'],
            seq!['p', 'i', 'p', 'e', ':', '1'],
        ],
        FFmpegCommandKind::FFprobe(input) => seq![
            seq!['-', 'i'],
            input@,
            seq!['-', 's', 'h', 'o', 'w', '_', 's', 't', 'r', 'e', 'a', 'm', 's'],
            seq!['-', 'l', 'o', 'g', 'l', 'e', 'v', 'e', 'l'],
            seq!['e', 'r', 'r', 'o', 'r'],
        ],
    }
}

/// The process each kind runs.
pub open spec fn spec_process_name(kind: FFmpegCommandKind) -> Seq<char> {
    match kind {
        FFmpegCommandKind::FFmpeg(..) => seq!['f', 'f', 'm', 'p', 'e', 'g'],
        FFmpegCommandKind::FFprobe(..) => seq!['f', 'f', 'p', 'r', 'o', 'b', 'e'],
    }
}

impl FFmpegCommandKind {
    /// Build the argument vector for this command.
    pub fn args(&self) -> (r: Vec<String>)
        ensures
            r.deep_view() == spec_args(*self),
    {
        let mut r: Vec<String> = Vec::new();
        match self {
            FFmpegCommandKind::FFmpeg(input, output, _stderr) => {
                r.push(String::from_str("-f"));
                r.push(String::from_str("concat"));
                r.push(String::from_str("-safe"));
                r.push(String::from_str("0"));
                r.push(String::from_str("-y"));
                r.push(String::from_str("-i"));
                r.push(input.clone());
                r.push(String::from_str("-c"));
                r.push(String::from_str("copy"));
                r.push(output.clone());
                r.push(String::from_str("-loglevel"));
                r.push(String::from_str("error"));
                r.push(String::from_str("-progress"));
                r.push(String::from_str("pipe:1"));
                proof {
                    reveal_strlit("-f");
                    reveal_strlit("concat");
                    reveal_strlit("-safe");
                    reveal_strlit("0");
                    reveal_strlit("-y");
                    reveal_strlit("-i");
                    reveal_strlit("-c");
                    reveal_strlit("copy");
                    reveal_strlit("-loglevel");
                    reveal_strlit("error");
                    reveal_strlit("-progress");
                    reveal_strlit("pipe:1");
                    assert(r.deep_view() =~= spec_args(*self)) by {
                        assert(r.deep_view().len() == 14);
                        assert(r@[0]@ =~= seq!['-', 'f']);
                        assert(r@[1]@ =~= seq!['c', 'o', 'n', 'c', 'a', 't']);
                        assert(r@[2]@ =~= seq!['-', 's', 'a', 'f', 'e']);
                        assert(r@[3]@ =~= seq!['0']);
                        assert(r@[4]@ =~= seq!['-', 'y']);
                        assert(r@[5]@ =~= seq!['-', 'i']);
                        assert(r@[7]@ =~= seq!['-', 'c']);
                        assert(r@[8]@ =~= seq!['c', 'o', 'p', 'y']);
                        assert(r@[10]@ =~= seq!['-', 'l', 'o', 'g', 'l', 'e', 'v', 'e', 'l']);
                        assert(r@[11]@ =~= seq!['e', 'r', 'r', 'o', 'r']);
                        assert(r@[12]@ =~= seq!['-', 'p', 'r', 'o', 'g', 'r', 'e', 's', 's']);
                        assert(r@[13]@ =~= seq!['p', 'i', 'p', 'e', ':', '1']);
                    };
                }
            },
            FFmpegCommandKind::FFprobe(input) => {
                r.push(String::from_str("-i"));
                r.push(input.clone());
                r.push(String::from_str("-show_streams"));
                r.push(String::from_str("-loglevel"));
                r.push(String::from_str("error"));
                proof {
                    reveal_strlit("-i");
                    reveal_strlit("-show_streams");
                    reveal_strlit("-loglevel");
                    reveal_strlit("error");
                    assert(r.deep_view() =~= spec_args(*self)) by {
                        assert(r.deep_view().len() == 5);
                        assert(r@[0]@ =~= seq!['-', 'i']);
                        assert(r@[2]@ =~= seq![
                            '-',
                            's',
                            'h',
                            'o',
                            'w',
                            '_',
                            's',
                            't',
                            'r',
                            'e',
                            'a',
                            'm',
                            's',
                        ]);
                        assert(r@[3]@ =~= seq!['-', 'l', 'o', 'g', 'l', 'e', 'v', 'e', 'l']);
                        assert(r@[4]@ =~= seq!['e', 'r', 'r', 'o', 'r']);
                    };
                }
            },
        }
        r
    }

    /// The process this command runs.
    pub fn process_name(&self) -> (r: &'static str)
        ensures
            r@ == spec_process_name(*self),
    {
        match self {
            FFmpegCommandKind::FFmpeg(..) => {
                let s = "ffmpeg";
                proof {
                    reveal_strlit("ffmpeg");
                    assert(s@ =~= spec_process_name(*self));
                }
                s
            },
            FFmpegCommandKind::FFprobe(..) => {
                let s = "ffprobe";
                proof {
                    reveal_strlit("ffprobe");
                    assert(s@ =~= spec_process_name(*self));
                }
                s
            },
        }
    }

    /// Where the merge's error stream is absorbed; the probe's is not.
    pub fn stderr_path(&self) -> (r: Option<&String>)
        ensures
            match self {
                FFmpegCommandKind::FFmpeg(_i, _o, stderr) => r matches Some(p) && p@ == stderr@,
                FFmpegCommandKind::FFprobe(_i) => r is None,
            },
    {
        match self {
            FFmpegCommandKind::FFmpeg(_i, _o, stderr) => Some(stderr),
            FFmpegCommandKind::FFprobe(_i) => None,
        }
    }
}

} // verus!
