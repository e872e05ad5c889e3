use gopro_merge::encoding::Encoding;
use gopro_merge::identifier::Identifier;
use gopro_merge::movie::{Error, Fingerprint, Movie};

#[test]
fn movie_recoding_try_from_format() {
    let ok_input = vec![
        (
            "GH010034.mp4",
            Movie {
                fingerprint: Fingerprint {
                    encoding: Encoding::Avc,
                    file: Identifier::try_from("0034").unwrap(),
                    extension: "mp4".into(),
                },
                chapter: Identifier::try_from("01").unwrap(),
            },
        ),
        (
            "GX111134.flv",
            Movie {
                fingerprint: Fingerprint {
                    encoding: Encoding::Hevc,
                    file: Identifier::try_from("1134").unwrap(),
                    extension: "flv".into(),
                },
                chapter: Identifier::try_from("11").unwrap(),
            },
        ),
    ];
    ok_input.into_iter().for_each(|(input, expected)| {
        let parsed = Movie::try_from(input).unwrap();
        assert_eq!(input, &parsed.file_name());
        assert_eq!(expected, parsed);
    });
}

#[test]
fn movie_try_from_err() {
    let not_ok_input = vec![
        "invalid_dots_amount..",
        "name_longer_than_8_chars_.mp4",
        "picture.png",
        "0",
        "",
        "1111111111111111",
        "GY111134.flv",
        "GPAA0000.mp4",
        "GX000000.mp4",
        "GH010000.mp4",
        "GH000001.mp4",
    ];
    not_ok_input.into_iter().for_each(|input| {
        assert!(Movie::try_from(input).is_err(), "{} isn't error", input,);
    });
}

#[test]
fn movie_error_variants() {
    // no extension separator at all
    assert!(matches!(
        Movie::try_from("GH011234"),
        Err(Error::InvalidFileName(_))
    ));
    // stem of the wrong length
    assert!(matches!(
        Movie::try_from("picture.png"),
        Err(Error::InvalidFileName(_))
    ));
    // unknown encoding prefix
    assert!(matches!(
        Movie::try_from("GY111134.flv"),
        Err(Error::Encoding(_))
    ));
    // numeric file code zero
    assert!(matches!(
        Movie::try_from("GX010000.mp4"),
        Err(Error::InvalidMovieFileNumberZero)
    ));
    // numeric chapter code zero
    assert!(matches!(
        Movie::try_from("GH000001.mp4"),
        Err(Error::InvalidMovieChapterNumberZero)
    ));
}

#[test]
fn movie_loop_chapter_is_exempt_from_zero_check() {
    let parsed = Movie::try_from("GHAA0001.mp4").unwrap();
    assert_eq!(
        parsed.chapter,
        Identifier::try_from("AA").unwrap()
    );
    assert_eq!("GHAA0001.mp4", &parsed.file_name());
}
