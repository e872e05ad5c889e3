use gopro_merge::encoding::Encoding;
use gopro_merge::duration::Duration;
use gopro_merge::ffmpeg::command::FFmpegCommandKind;
use gopro_merge::ffmpeg::merger::{
    init_ffmpeg_input_file, write_movies_to_input_file, FFmpegMerger, MergeAction, MergeEvent,
};
use gopro_merge::group::MovieGroup;
use gopro_merge::identifier::Identifier;
use gopro_merge::merge::merger::Merger;
use gopro_merge::merge::Error;
use gopro_merge::movie::Fingerprint;
use gopro_merge::progress::RecordedProgress;

fn ident(s: &str) -> Identifier {
    Identifier::try_from(s).unwrap()
}

fn two_chapter_group() -> MovieGroup {
    MovieGroup {
        fingerprint: Fingerprint {
            encoding: Encoding::Avc,
            file: ident("1234"),
            extension: "mp4".into(),
        },
        chapters: vec![ident("01"), ident("02")],
    }
}

#[test]
fn test_ffmpeg_tmp_file() {
    assert_eq!(".filename.txt", init_ffmpeg_input_file("filename"));
}

#[test]
fn concat_list_contents() {
    let contents = write_movies_to_input_file(&vec![
        "/in/GH011234.mp4".to_string(),
        "/in/GH021234.mp4".to_string(),
    ]);
    assert_eq!(
        "file '/in/GH011234.mp4'\r\nfile '/in/GH021234.mp4'\r\n",
        contents
    );
}

#[test]
fn merge_machine_runs_a_two_chapter_group() {
    let mut m = FFmpegMerger::new(
        RecordedProgress::new(),
        two_chapter_group(),
        "/in".to_string(),
        "/out".to_string(),
    );

    // one list file is planned, with one line per chapter in sorted order
    let action = m.step(MergeEvent::Started);
    let list_name = match action {
        MergeAction::WriteList(name, contents) => {
            assert_eq!(".1234.txt", name);
            assert_eq!(
                "file '/in/GH011234.mp4'\r\nfile '/in/GH021234.mp4'\r\n",
                contents
            );
            name
        }
        _ => panic!("expected a list write"),
    };

    // probes run per chapter, their durations accumulate
    match m.step(MergeEvent::ListWritten(Ok(()))) {
        MergeAction::RunProbe(path) => assert_eq!("/in/GH011234.mp4", path),
        _ => panic!("expected the first probe"),
    }
    match m.step(MergeEvent::ProbeFinished(
        "duration=5.449002\n".to_string(),
        true,
    )) {
        MergeAction::RunProbe(path) => assert_eq!("/in/GH021234.mp4", path),
        _ => panic!("expected the second probe"),
    }
    match m.step(MergeEvent::ProbeFinished(
        "duration=5.449002\n".to_string(),
        true,
    )) {
        MergeAction::RunConvert(list, out) => {
            assert_eq!(list_name, list);
            assert_eq!("/out/GH001234.mp4", out);
        }
        _ => panic!("expected the merge to start"),
    }

    // the probed sum became the progress length
    assert_eq!(
        Some(Duration::from_secs(10).add(Duration::from_micros(898004))),
        m.progress.length
    );

    // telemetry lines update the handle; other keys do not
    match m.step(MergeEvent::ConvertLine("out_time=0:00:05.0".to_string())) {
        MergeAction::Continue => {}
        _ => panic!("expected to continue"),
    }
    match m.step(MergeEvent::ConvertLine("frame=42".to_string())) {
        MergeAction::Continue => {}
        _ => panic!("expected to continue"),
    }
    assert_eq!(vec![Duration::from_secs(5)], m.progress.updates);

    // success: the same list file is removed, completion signaled once
    match m.step(MergeEvent::ConvertFinished(true, Some(0))) {
        MergeAction::Cleanup(list, result) => {
            assert_eq!(list_name, list);
            assert!(result.is_ok());
        }
        _ => panic!("expected cleanup"),
    }
    assert_eq!(1, m.progress.finish_count());
    assert_eq!(vec![None::<String>], m.progress.finishes);
}

#[test]
fn merge_machine_probe_failure_aborts_group() {
    let mut m = FFmpegMerger::new(
        RecordedProgress::new(),
        two_chapter_group(),
        "/in".to_string(),
        "/out".to_string(),
    );
    match m.step(MergeEvent::Started) {
        MergeAction::WriteList(..) => {}
        _ => panic!("expected a list write"),
    }
    match m.step(MergeEvent::ListWritten(Ok(()))) {
        MergeAction::RunProbe(_) => {}
        _ => panic!("expected a probe"),
    }
    // the probe exits badly: cleanup still happens and completion is
    // signaled exactly once, with the failing path
    match m.step(MergeEvent::ProbeFinished(String::new(), false)) {
        MergeAction::Cleanup(list, result) => {
            assert_eq!(".1234.txt", list);
            assert!(matches!(result, Err(Error::FailedToGetInfo(p)) if p == "/in/GH011234.mp4"));
        }
        _ => panic!("expected cleanup"),
    }
    assert_eq!(1, m.progress.finish_count());
    assert_eq!(
        vec![Some("/in/GH011234.mp4".to_string())],
        m.progress.finishes
    );
}

#[test]
fn merge_machine_convert_failure_reports_exit_code() {
    let mut m = FFmpegMerger::new(
        RecordedProgress::new(),
        two_chapter_group(),
        "/in".to_string(),
        "/out".to_string(),
    );
    m.step(MergeEvent::Started);
    m.step(MergeEvent::ListWritten(Ok(())));
    m.step(MergeEvent::ProbeFinished("duration=5.0\n".to_string(), true));
    m.step(MergeEvent::ProbeFinished("duration=5.0\n".to_string(), true));
    match m.step(MergeEvent::ConvertFinished(false, Some(1))) {
        MergeAction::Cleanup(list, result) => {
            assert_eq!(".1234.txt", list);
            assert!(matches!(
                result,
                Err(Error::FailedToConvert(name, Some(1))) if name == "GH001234.mp4"
            ));
        }
        _ => panic!("expected cleanup"),
    }
    assert_eq!(1, m.progress.finish_count());
}

#[test]
fn merge_machine_list_write_failure_cleans_up() {
    let mut m = FFmpegMerger::new(
        RecordedProgress::new(),
        two_chapter_group(),
        "/in".to_string(),
        "/out".to_string(),
    );
    m.step(MergeEvent::Started);
    match m.step(MergeEvent::ListWritten(Err("disk full".to_string()))) {
        MergeAction::Cleanup(list, result) => {
            assert_eq!(".1234.txt", list);
            assert!(matches!(result, Err(Error::Io(t)) if t == "disk full"));
        }
        _ => panic!("expected cleanup"),
    }
    assert_eq!(1, m.progress.finish_count());
}

#[test]
fn ffprobe_command_args() {
    let kind = FFmpegCommandKind::FFprobe("/in/GH011234.mp4".to_string());
    assert_eq!(
        vec!["-i", "/in/GH011234.mp4", "-show_streams", "-loglevel", "error"],
        kind.args()
    );
    assert_eq!("ffprobe", kind.process_name());
    assert!(kind.stderr_path().is_none());
}

#[test]
fn ffmpeg_command_args() {
    let kind = FFmpegCommandKind::FFmpeg(
        "/tmp/.1234.txt".to_string(),
        "/out/GH001234.mp4".to_string(),
        "/dev/null".to_string(),
    );
    assert_eq!(
        vec![
            "-f",
            "concat",
            "-safe",
            "0",
            "-y",
            "-i",
            "/tmp/.1234.txt",
            "-c",
            "copy",
            "/out/GH001234.mp4",
            "-loglevel",
            "error",
            "-progress",
            "pipe:1",
        ],
        kind.args()
    );
    assert_eq!("ffmpeg", kind.process_name());
    assert_eq!(Some(&"/dev/null".to_string()), kind.stderr_path());
}

#[test]
fn merge_machine_with_no_chapters_converts_an_empty_list() {
    let group = MovieGroup {
        fingerprint: Fingerprint {
            encoding: Encoding::Avc,
            file: ident("0007"),
            extension: "mp4".into(),
        },
        chapters: vec![],
    };
    let mut m = FFmpegMerger::new(
        RecordedProgress::new(),
        group,
        "/in".to_string(),
        "/out".to_string(),
    );
    match m.step(MergeEvent::Started) {
        MergeAction::WriteList(name, contents) => {
            assert_eq!(".0007.txt", name);
            assert_eq!("", contents);
        }
        _ => panic!("expected a list write"),
    }
    // nothing to probe: the merge starts at once with a zero length
    match m.step(MergeEvent::ListWritten(Ok(()))) {
        MergeAction::RunConvert(list, out) => {
            assert_eq!(".0007.txt", list);
            assert_eq!("/out/GH000007.mp4", out);
        }
        _ => panic!("expected the merge to start"),
    }
    assert_eq!(Some(Duration::default()), m.progress.length);
}
