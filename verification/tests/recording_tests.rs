use gopro_merge::encoding::Encoding;
use gopro_merge::identifier::Identifier;
use gopro_merge::recording::{Fingerprint, Recording};

#[test]
fn recording_recoding_try_from_format() {
    let ok_input = vec![
        (
            "GH010034.mp4",
            Recording {
                fingerprint: Fingerprint {
                    encoding: Encoding::Avc,
                    file: Identifier::try_from("0034").unwrap(),
                    extension: "mp4".into(),
                },
                chapter: Identifier::try_from("01").unwrap(),
            },
        ),
        (
            "GX111134.flv",
            Recording {
                fingerprint: Fingerprint {
                    encoding: Encoding::Hevc,
                    file: Identifier::try_from("1134").unwrap(),
                    extension: "flv".into(),
                },
                chapter: Identifier::try_from("11").unwrap(),
            },
        ),
    ];
    ok_input.into_iter().for_each(|(input, expected)| {
        let parsed = Recording::try_from(input).unwrap();
        assert_eq!(input, &parsed.file_name());
        assert_eq!(expected, parsed);
    });
}

#[test]
fn recording_try_from_err() {
    let not_ok_input = vec![
        "invalid_dots_amount..",
        "name_longer_than_8_chars_.mp4",
        "picture.png",
        "0",
        "",
        "1111111111111111",
        "GY111134.flv",
        "GPAA0000.mp4",
        "GX000000.mp4",
        "GH010000.mp4",
        "GH000001.mp4",
    ];
    not_ok_input.into_iter().for_each(|input| {
        assert!(Recording::try_from(input).is_err(), "{} isn't error", input,);
    });
}
