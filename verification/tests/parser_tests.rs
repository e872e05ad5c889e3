use gopro_merge::concat::parse_timestamp_match;
use gopro_merge::duration::Duration;
use gopro_merge::ffmpeg::parser::{
    CommandStreamDurationParser as LenientParser, FFmpegDurationParser, FFprobeDurationParser,
};
use gopro_merge::merge::stream::{
    CommandStreamDurationParser as StrictParser, FfmpegDurationProgressParser,
    FfprobeDurationParser,
};
use gopro_merge::merge::Error;
use gopro_merge::progress::RecordedProgress;

#[test]
fn test_get_duration_for_input() {
    fn get_input(input: &str) -> String {
        format!(
            r#"
                  firmware        : HD8.01.01.60.00
    Duration: {}.43, start: 0.000000, bitrate: 78267 kb/s
      Stream #0:0(eng): Video: h264 (High) (avc1 / 0x31637661), yuvj420p(pc, bt709), 1920x1440 [SAR 1:1 DAR 4:3], 77999 kb/s, 59.94 fps, 59.94 tbr, 60k tbn, 119.88 tbc (default)
      "#,
            input
        )
    }

    let input = get_input("00:06:49.00");
    let duration = parse_timestamp_match(&input).unwrap();
    assert_eq!(duration, Duration::from_secs(409));

    let invalid_input = get_input("fdafdfdafad");
    assert!(parse_timestamp_match(&invalid_input).is_err());
}

#[test]
fn test_ffmpeg_parse_duration() {
    [
        (
            "00:06:49.00",
            Duration::from_secs(6 * 60).add(Duration::from_secs(49)),
        ),
        (
            "00:06:49.100",
            Duration::from_secs(6 * 60)
                .add(Duration::from_secs(49))
                .add(Duration::from_micros(100)),
        ),
        (
            "01:06:49.100",
            Duration::from_secs(60 * 60)
                .add(Duration::from_secs(6 * 60))
                .add(Duration::from_secs(49))
                .add(Duration::from_micros(100)),
        ),
        (
            "02:06:49.100",
            Duration::from_secs(2 * 60 * 60)
                .add(Duration::from_secs(6 * 60))
                .add(Duration::from_secs(49))
                .add(Duration::from_micros(100)),
        ),
        ("00:00:00.000", Duration::default()),
        ("000:0000:0.000000", Duration::default()),
    ]
    .into_iter()
    .for_each(|(input, expected)| {
        let parser = FFmpegDurationParser::new("");

        let result = parser.parse_timestamp_match(input);
        assert_eq!(expected, result);
    });
}

#[test]
fn test_ffmpeg_parse_duration_stream() {
    fn stream_data(values: &[&'static str]) -> String {
        let mut d = String::new();
        values.iter().for_each(|v| {
            d.push_str(&format!("out_time={}\n", v));
            d.push_str(&format!("other_key_name={}\n", v));
        });

        d
    }

    [(
        stream_data(&["01:00:00.0", "2:0:0.0", "0:01:00.0", "0:01:01.100"]),
        Duration::from_secs(60 * 60)
            .add(Duration::from_secs(2 * 60 * 60))
            .add(Duration::from_secs(60))
            .add(Duration::from_secs(60))
            .add(Duration::from_secs(1))
            .add(Duration::from_micros(100)),
    )]
    .into_iter()
    .for_each(|(stream, expected)| {
        let mut parser = FFmpegDurationParser::new(stream.as_str());
        let events = parser.parse().unwrap();

        let mut total_duration = Duration::default();
        for duration in events {
            total_duration = total_duration.add(duration);
        }

        assert_eq!(expected, total_duration);
    });
}

#[test]
fn test_ffprobe_duration_parse_stream() {
    fn stream_data(v: &'static str) -> String {
        format!("duration={}\nother_key_name={}\n", v, v)
    }

    [
        (stream_data("5.0"), Duration::from_secs(5)),
        (
            stream_data("99.10"),
            Duration::from_secs(99).add(Duration::from_micros(10)),
        ),
        (
            stream_data("100.10000"),
            Duration::from_secs(100).add(Duration::from_micros(10000)),
        ),
        (stream_data("0000.0000"), Duration::default()),
        (stream_data("1111."), Duration::from_secs(1111)),
        (stream_data(".1"), Duration::from_micros(1)),
    ]
    .into_iter()
    .for_each(|(input, expected)| {
        let result = FFprobeDurationParser::new(input.as_str()).parse().unwrap();

        assert_eq!(expected, result);
    })
}

#[test]
fn strict_probe_parser_rejects_bad_fields() {
    // the strict generation errors where the lenient one defaults to zero
    let mut parser = FfprobeDurationParser::new("duration=1111.\n");
    assert!(matches!(parser.parse(), Err(Error::ParseInt(_))));

    let mut parser = FfprobeDurationParser::new("duration=12\n");
    assert!(matches!(parser.parse(), Err(Error::InvalidOutputLine(_))));

    let mut parser = FfprobeDurationParser::new("duration=5.2\n");
    assert_eq!(
        Duration::from_secs(5).add(Duration::from_micros(2)),
        parser.parse().unwrap()
    );

    // no duration line at all reads as zero
    let mut parser = FfprobeDurationParser::new("other=1.2\n");
    assert_eq!(Duration::default(), parser.parse().unwrap());
}

#[test]
fn stream_progress_parser_updates_handle() {
    let stream = "out_time=0:00:05.0\nnoise\nout_time=0:00:10.500000\n";
    let mut parser = FfmpegDurationProgressParser::new(stream, RecordedProgress::new());
    parser.parse().unwrap();
    assert_eq!(
        vec![
            Duration::from_secs(5),
            Duration::from_secs(10).add(Duration::from_micros(500000))
        ],
        parser.pb.updates
    );
}

#[test]
fn stream_progress_parser_reads_malformed_values_as_zero() {
    // a malformed line cannot abort the scan; its fields read as zero
    let stream = "out_time=a\nout_time=0:00:07.0\n";
    let mut parser = FfmpegDurationProgressParser::new(stream, RecordedProgress::new());
    parser.parse().unwrap();
    assert_eq!(
        vec![Duration::default(), Duration::from_secs(7)],
        parser.pb.updates
    );
}

#[test]
fn timestamp_overflowing_field_reads_as_zero() {
    // a fraction too large for the machine range defaults to zero
    let input = "1:2:3.99999999999999999999999999";
    let expected = Duration::from_secs(3600 + 2 * 60 + 3);
    assert_eq!(expected, parse_timestamp_match(input).unwrap());
}

#[test]
fn timestamp_without_fraction_reads_whole_seconds() {
    let input = "time is 00:06:49 so far";
    assert_eq!(
        Duration::from_secs(409),
        parse_timestamp_match(input).unwrap()
    );
}

#[test]
fn timestamp_scan_finds_first_match_only() {
    let input = "noise 1:2:3.4 and later 9:9:9.9";
    let expected = Duration::from_secs(3600 + 2 * 60 + 3).add(Duration::from_micros(4));
    assert_eq!(expected, parse_timestamp_match(input).unwrap());
}
