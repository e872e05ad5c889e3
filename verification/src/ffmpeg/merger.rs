//! The per-group merge as an event-driven state machine. The machine plans
//! every piece of outside work as an action — write the concat list, run a
//! probe, run the merge, remove the list — and consumes the outcome of each
//! as an event. Its progress handle receives the probed total, every
//! elapsed-time update, and exactly one completion signal; the concat list
//! it asks to be written is asked to be removed on every exit path.

use crate::concat::{concat_list, path_join};
use crate::duration::{dur_wf, Duration};
use crate::ffmpeg::parser::{
    lenient_probe_value, lenient_ts_value, CommandStreamDurationParser, FFmpegDurationParser,
    FFprobeDurationParser,
};
use crate::group::{group_file_name, GroupModel, MovieGroup};
use crate::identifier::id_canon;
use crate::merge::stream::{duration_key, first_match, out_time_key, sat_dur};
use crate::merge::Error;
use crate::progress::{Progress, ProgressModel};
use crate::text::{key_value, key_value_spec, spec_lines, str_eq};
use vstd::prelude::*;

verus! {

/// Where one group's merge stands.
#[derive(Debug, PartialEq, Eq, Structural, Clone, Copy)]
pub enum MergeState {
    Ready,
    AwaitingList,
    Probing,
    Converting,
    Finished,
}

/// The outcome of one piece of outside work, handed back to the machine.
pub enum MergeEvent {
    /// Begin the merge.
    Started,
    /// The concat list was written, or failed with the given description.
    ListWritten(Result<(), String>),
    /// One probe ran: its whole output stream, and whether it exited well.
    ProbeFinished(String, bool),
    /// One line of the running merge's output stream.
    ConvertLine(String),
    /// The merge process ended: whether it exited well, and its exit code.
    ConvertFinished(bool, Option<i32>),
}

/// The next piece of outside work the machine asks for.
pub enum MergeAction {
    /// Write this concat list (a file name for the temp directory, and its
    /// contents).
    WriteList(String, String),
    /// Probe this source file.
    RunProbe(String),
    /// Run the merge over the named list file into this output path.
    RunConvert(String, String),
    /// Remove the named list file; the group's merge ended with this result.
    Cleanup(String, Result<(), Error>),
    /// Nothing to do; keep feeding events.
    Continue,
}

/// The temp-directory file name of a group's concat list, derived from its
/// file identifier so concurrent groups never collide.
pub open spec fn input_list_name_spec(g: GroupModel) -> Seq<char> {
    seq!['.'] + id_canon(g.fingerprint.file) + seq!['.', 't', 'x', 't']
}

/// The source path of one chapter.
pub open spec fn chapter_path_spec(movies_path: Seq<char>, g: GroupModel, i: int) -> Seq<char> {
    path_join(movies_path, group_file_name(g.fingerprint, id_canon(g.chapters[i])))
}

/// The source paths of all chapters, in chapter order.
pub open spec fn chapter_paths_spec(movies_path: Seq<char>, g: GroupModel) -> Seq<Seq<char>> {
    Seq::new(g.chapters.len(), |i: int| chapter_path_spec(movies_path, g, i))
}

/// The merged output's path.
pub open spec fn output_path_spec(out_dir: Seq<char>, g: GroupModel) -> Seq<char> {
    path_join(out_dir, group_file_name(g.fingerprint, seq!['0', '0']))
}

/// The duration one probe's output stream reports.
pub open spec fn probe_output_duration(output: Seq<char>) -> int {
    match first_match(spec_lines(output), duration_key()) {
        None => 0,
        Some(v) => lenient_probe_value(v),
    }
}

/// Which events each state consumes.
pub open spec fn accepts(s: MergeState, e: MergeEvent) -> bool {
    match (s, e) {
        (MergeState::Ready, MergeEvent::Started) => true,
        (MergeState::AwaitingList, MergeEvent::ListWritten(_)) => true,
        (MergeState::Probing, MergeEvent::ProbeFinished(_, _)) => true,
        (MergeState::Converting, MergeEvent::ConvertLine(_)) => true,
        (MergeState::Converting, MergeEvent::ConvertFinished(_, _)) => true,
        _ => false,
    }
}

/// Merges one group by planning the transcoder's work step by step.
pub struct FFmpegMerger<P> {
    pub progress: P,
    pub group: MovieGroup,
    pub movies_path: String,
    pub merged_output_path: String,
    pub state: MergeState,
    pub probe_idx: usize,
    pub total: Duration,
}

/// The machine's invariant: the running total is well-formed, the probe
/// index stays inside the chapter list, and the progress handle has been
/// told to finish exactly once when, and only when, the machine is done.
pub open spec fn merger_wf<P: Progress>(m: FFmpegMerger<P>) -> bool {
    &&& dur_wf(m.total)
    &&& (m.state is Finished <==> m.progress.model().finishes.len() == 1)
    &&& (!(m.state is Finished) ==> m.progress.model().finishes.len() == 0)
    &&& (m.state is Probing ==> m.probe_idx < m.group@.chapters.len())
}

/// The temp file name a concat list is written under: a dot, the file
/// identifier, and a `.txt` suffix.
pub fn init_ffmpeg_input_file(filename: &str) -> (r: String)
    ensures
        r@ == seq!['.'] + filename@ + seq!['.', 't', 'x', 't'],
{
    let mut r = String::from_str(".");
    r.append(filename);
    r.append(".txt");
    proof {
        reveal_strlit(".");
        reveal_strlit(".txt");
        assert(r@ =~= seq!['.'] + filename@ + seq!['.', 't', 'x', 't']);
    }
    r
}

/// Render the concat-list contents for the given source paths.
pub fn write_movies_to_input_file(movies_paths: &Vec<String>) -> (r: String)
    ensures
        r@ == concat_list(movies_paths.deep_view()),
{
    let mut contents = String::new();
    let n = movies_paths.len();
    let mut i: usize = 0;
    proof {
        assert(contents@ =~= concat_list(movies_paths.deep_view().take(0)));
    }
    while i < n
        invariant
            0 <= i <= n,
            n == movies_paths@.len(),
            contents@ == concat_list(movies_paths.deep_view().take(i as int)),
        decreases n - i,
    {
        contents.append("file '");
        contents.append(movies_paths[i].as_str());
        contents.append("'\r\n");
        proof {
            reveal_strlit("file '");
            reveal_strlit("'\r\n");
            let dv = movies_paths.deep_view();
            assert(dv.take(i + 1).drop_last() =~= dv.take(i as int));
            assert(dv.take(i + 1).last() == dv[i as int]);
            assert(contents@ =~= concat_list(dv.take(i as int)) + crate::concat::concat_line(
                dv[i as int],
            ));
        }
        i += 1;
    }
    proof {
        assert(movies_paths.deep_view().take(n as int) =~= movies_paths.deep_view());
    }
    contents
}

impl<P: Progress> crate::merge::merger::Merger for FFmpegMerger<P> {
    type Progress = P;

    /// A machine ready to merge one group.
    fn new(progress: P, group: MovieGroup, movies_path: String, merged_output_path: String) -> (r:
        FFmpegMerger<P>)
        ensures
            r.progress == progress,
            r.group == group,
            r.movies_path == movies_path,
            r.merged_output_path == merged_output_path,
            r.state is Ready,
            r.total@ == 0,
            progress.model().finishes.len() == 0 ==> merger_wf(r),
    {
        FFmpegMerger {
            progress,
            group,
            movies_path,
            merged_output_path,
            state: MergeState::Ready,
            probe_idx: 0,
            total: Duration::default(),
        }
    }
}

impl<P: Progress> FFmpegMerger<P> {
    /// The source path of chapter `i`.
    fn chapter_path(&self, i: usize) -> (r: String)
        requires
            i < self.group@.chapters.len(),
        ensures
            r@ == chapter_path_spec(self.movies_path@, self.group@, i as int),
    {
        let name = self.group.chapter_file_name(&self.group.chapters[i]);
        crate::concat::join_path(self.movies_path.as_str(), name.as_str())
    }

    /// The source paths of every chapter, in chapter order.
    fn chapter_full_paths(&self) -> (r: Vec<String>)
        ensures
            r.deep_view() == chapter_paths_spec(self.movies_path@, self.group@),
    {
        let mut r: Vec<String> = Vec::new();
        let n = self.group.chapters.len();
        let mut i: usize = 0;
        while i < n
            invariant
                0 <= i <= n,
                n == self.group@.chapters.len(),
                r@.len() == i,
                forall|k: int|
                    0 <= k < i ==> (#[trigger] r@[k])@ == chapter_path_spec(
                        self.movies_path@,
                        self.group@,
                        k,
                    ),
            decreases n - i,
        {
            let p = self.chapter_path(i);
            r.push(p);
            i += 1;
        }
        proof {
            assert(r.deep_view() =~= chapter_paths_spec(self.movies_path@, self.group@));
        }
        r
    }

    /// Consume one event and answer with the next piece of outside work.
    /// Every path into the `Finished` state signals the progress handle
    /// exactly once and asks for the concat list's removal.
    pub fn step(&mut self, event: MergeEvent) -> (action: MergeAction)
        requires
            merger_wf(*old(self)),
            !(old(self).state is Finished),
            accepts(old(self).state, event),
        ensures
            merger_wf(*final(self)),
            final(self).group == old(self).group,
            final(self).movies_path == old(self).movies_path,
            final(self).merged_output_path == old(self).merged_output_path,
            ({
                let g = old(self).group@;
                let mp = old(self).movies_path@;
                let op = old(self).merged_output_path@;
                let pm = old(self).progress.model();
                match (old(self).state, event) {
                    (MergeState::Ready, MergeEvent::Started) => {
                        &&& final(self).state is AwaitingList
                        &&& final(self).progress.model() == pm
                        &&& final(self).total == old(self).total
                        &&& action matches MergeAction::WriteList(name, contents) && name@
                            == input_list_name_spec(g) && contents@ == concat_list(
                            chapter_paths_spec(mp, g),
                        )
                    },
                    (MergeState::AwaitingList, MergeEvent::ListWritten(res)) => match res {
                        Ok(_u) => if g.chapters.len() > 0 {
                            &&& final(self).state is Probing
                            &&& final(self).probe_idx == 0
                            &&& final(self).progress.model() == pm
                            &&& final(self).total == old(self).total
                            &&& action matches MergeAction::RunProbe(p) && p@ == chapter_path_spec(
                                mp,
                                g,
                                0,
                            )
                        } else {
                            &&& final(self).state is Converting
                            &&& final(self).total == old(self).total
                            &&& final(self).progress.model() == (ProgressModel {
                                length: Some(old(self).total@),
                                updates: pm.updates,
                                finishes: pm.finishes,
                            })
                            &&& action matches MergeAction::RunConvert(list, out) && list@
                                == input_list_name_spec(g) && out@ == output_path_spec(op, g)
                        },
                        Err(msg) => {
                            &&& final(self).state is Finished
                            &&& final(self).progress.model() == (ProgressModel {
                                length: pm.length,
                                updates: pm.updates,
                                finishes: pm.finishes.push(Some(msg@)),
                            })
                            &&& action matches MergeAction::Cleanup(list, r2) && list@
                                == input_list_name_spec(g) && (r2 matches Err(Error::Io(t)) && t@
                                == msg@)
                        },
                    },
                    (MergeState::Probing, MergeEvent::ProbeFinished(output, success)) => {
                        let idx = old(self).probe_idx as int;
                        if !success {
                            &&& final(self).state is Finished
                            &&& final(self).progress.model() == (ProgressModel {
                                length: pm.length,
                                updates: pm.updates,
                                finishes: pm.finishes.push(
                                    Some(chapter_path_spec(mp, g, idx)),
                                ),
                            })
                            &&& action matches MergeAction::Cleanup(list, r2) && list@
                                == input_list_name_spec(g) && (r2 matches Err(
                                Error::FailedToGetInfo(p),
                            ) && p@ == chapter_path_spec(mp, g, idx))
                        } else {
                            let d = probe_output_duration(output@);
                            &&& final(self).total@ == sat_dur(old(self).total@ + d)
                            &&& if idx + 1 < g.chapters.len() {
                                &&& final(self).state is Probing
                                &&& final(self).probe_idx == idx + 1
                                &&& final(self).progress.model() == pm
                                &&& action matches MergeAction::RunProbe(p) && p@
                                    == chapter_path_spec(mp, g, idx + 1)
                            } else {
                                &&& final(self).state is Converting
                                &&& final(self).progress.model() == (ProgressModel {
                                    length: Some(final(self).total@),
                                    updates: pm.updates,
                                    finishes: pm.finishes,
                                })
                                &&& action matches MergeAction::RunConvert(list, out) && list@
                                    == input_list_name_spec(g) && out@ == output_path_spec(op, g)
                            }
                        }
                    },
                    (MergeState::Converting, MergeEvent::ConvertLine(line)) => {
                        &&& final(self).state is Converting
                        &&& final(self).total == old(self).total
                        &&& action is Continue
                        &&& final(self).progress.model() == (match key_value_spec(line@) {
                            Some(kv) => if kv.0 == out_time_key() {
                                ProgressModel {
                                    length: pm.length,
                                    updates: pm.updates.push(lenient_ts_value(kv.1)),
                                    finishes: pm.finishes,
                                }
                            } else {
                                pm
                            },
                            None => pm,
                        })
                    },
                    (MergeState::Converting, MergeEvent::ConvertFinished(success, code)) => {
                        &&& final(self).state is Finished
                        &&& if success {
                            &&& final(self).progress.model() == (ProgressModel {
                                length: pm.length,
                                updates: pm.updates,
                                finishes: pm.finishes.push(None),
                            })
                            &&& action matches MergeAction::Cleanup(list, r2) && list@
                                == input_list_name_spec(g) && r2 matches Ok(_u2)
                        } else {
                            &&& final(self).progress.model() == (ProgressModel {
                                length: pm.length,
                                updates: pm.updates,
                                finishes: pm.finishes.push(
                                    Some(group_file_name(g.fingerprint, seq!['0', '0'])),
                                ),
                            })
                            &&& action matches MergeAction::Cleanup(list, r2) && list@
                                == input_list_name_spec(g) && (r2 matches Err(
                                Error::FailedToConvert(t, c),
                            ) && t@ == group_file_name(g.fingerprint, seq!['0', '0']) && c == code)
                        }
                    },
                    _ => false,
                }
            }),
    {
        match (self.state, event) {
            (MergeState::Ready, MergeEvent::Started) => {
                let file_id = self.group.fingerprint.file.string();
                let name = init_ffmpeg_input_file(file_id.as_str());
                let paths = self.chapter_full_paths();
                let contents = write_movies_to_input_file(&paths);
                self.state = MergeState::AwaitingList;
                proof {
                    assert(name@ =~= input_list_name_spec(self.group@));
                }
                MergeAction::WriteList(name, contents)
            },
            (MergeState::AwaitingList, MergeEvent::ListWritten(res)) => match res {
                Ok(_) => {
                    if self.group.chapters.len() > 0 {
                        self.state = MergeState::Probing;
                        self.probe_idx = 0;
                        let p = self.chapter_path(0);
                        MergeAction::RunProbe(p)
                    } else {
                        self.state = MergeState::Converting;
                        let total = self.total;
                        self.progress.set_len(total);
                        let file_id = self.group.fingerprint.file.string();
                        let list = init_ffmpeg_input_file(file_id.as_str());
                        let out_name = self.group.name();
                        let out = crate::concat::join_path(
                            self.merged_output_path.as_str(),
                            out_name.as_str(),
                        );
                        proof {
                            assert(list@ =~= input_list_name_spec(self.group@));
                        }
                        MergeAction::RunConvert(list, out)
                    }
                },
                Err(msg) => {
                    self.state = MergeState::Finished;
                    let err_text = msg.clone();
                    self.progress.finish(Some(msg));
                    let file_id = self.group.fingerprint.file.string();
                    let list = init_ffmpeg_input_file(file_id.as_str());
                    proof {
                        assert(list@ =~= input_list_name_spec(self.group@));
                    }
                    MergeAction::Cleanup(list, Err(Error::Io(err_text)))
                },
            },
            (MergeState::Probing, MergeEvent::ProbeFinished(output, success)) => {
                let idx = self.probe_idx;
                if !success {
                    self.state = MergeState::Finished;
                    let path = self.chapter_path(idx);
                    let path2 = path.clone();
                    self.progress.finish(Some(path));
                    let file_id = self.group.fingerprint.file.string();
                    let list = init_ffmpeg_input_file(file_id.as_str());
                    proof {
                        assert(list@ =~= input_list_name_spec(self.group@));
                    }
                    MergeAction::Cleanup(list, Err(Error::FailedToGetInfo(path2)))
                } else {
                    let mut parser = FFprobeDurationParser::new(output.as_str());
                    let d = match parser.parse() {
                        Ok(d) => d,
                        Err(_) => Duration::default(),
                    };
                    self.total = self.total.saturating_add(d);
                    let clen = self.group.chapters.len();
                    proof {
                        assert(idx < clen);
                    }
                    if idx + 1 < clen {
                        self.state = MergeState::Probing;
                        self.probe_idx = idx + 1;
                        let p = self.chapter_path(idx + 1);
                        MergeAction::RunProbe(p)
                    } else {
                        self.state = MergeState::Converting;
                        let total = self.total;
                        self.progress.set_len(total);
                        let file_id = self.group.fingerprint.file.string();
                        let list = init_ffmpeg_input_file(file_id.as_str());
                        let out_name = self.group.name();
                        let out = crate::concat::join_path(
                            self.merged_output_path.as_str(),
                            out_name.as_str(),
                        );
                        proof {
                            assert(list@ =~= input_list_name_spec(self.group@));
                        }
                        MergeAction::RunConvert(list, out)
                    }
                }
            },
            (MergeState::Converting, MergeEvent::ConvertLine(line)) => {
                match key_value(line.as_str()) {
                    Some((key, value)) => {
                        proof {
                            reveal_strlit("out_time");
                            assert("out_time"@ =~= out_time_key());
                        }
                        if str_eq(key, "out_time") {
                            let parser = FFmpegDurationParser::new(line.as_str());
                            let d = parser.parse_timestamp_match(value);
                            self.progress.update(d);
                        }
                    },
                    None => {},
                }
                MergeAction::Continue
            },
            (MergeState::Converting, MergeEvent::ConvertFinished(success, code)) => {
                self.state = MergeState::Finished;
                let file_id = self.group.fingerprint.file.string();
                let list = init_ffmpeg_input_file(file_id.as_str());
                proof {
                    assert(list@ =~= input_list_name_spec(self.group@));
                }
                if success {
                    self.progress.finish(None);
                    MergeAction::Cleanup(list, Ok(()))
                } else {
                    let name = self.group.name();
                    let name2 = name.clone();
                    self.progress.finish(Some(name));
                    MergeAction::Cleanup(list, Err(Error::FailedToConvert(name2, code)))
                }
            },
            _ => MergeAction::Continue,
        }
    }
}

} // verus!
