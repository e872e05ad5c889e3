use gopro_merge::encoding::Encoding;
use gopro_merge::group::{collect_movies, group_movies, MovieGroup};
use gopro_merge::grouper::{FileGrouper, Grouper};
use gopro_merge::identifier::Identifier;
use gopro_merge::movie::{Fingerprint, Movie};

fn names(v: Vec<&str>) -> Vec<String> {
    v.into_iter().map(String::from).collect()
}

fn ident(s: &str) -> Identifier {
    Identifier::try_from(s).unwrap()
}

fn fp(encoding: Encoding, file: &str, ext: &str) -> Fingerprint {
    Fingerprint {
        encoding,
        file: ident(file),
        extension: ext.into(),
    }
}

#[test]
fn test_collect_movies() {
    // parseable names become movies in input order; the rest are discarded
    let collected = collect_movies(&names(vec![
        "GH011234.mp4",
        "GH021234.mp4",
        "file.png",
        "random.mp4",
        "aaaa",
        "111111",
    ]));
    let expected = vec![
        Movie {
            fingerprint: fp(Encoding::Avc, "1234", "mp4"),
            chapter: ident("01"),
        },
        Movie {
            fingerprint: fp(Encoding::Avc, "1234", "mp4"),
            chapter: ident("02"),
        },
    ];
    assert_eq!(expected, collected, "collected movies didn't match");

    // loop chapters, distinct files
    let collected = collect_movies(&names(vec!["GHAA0001.mp4", "GHAA0002.mp4"]));
    assert_eq!(2, collected.len());
    assert_eq!(fp(Encoding::Avc, "0001", "mp4"), collected[0].fingerprint);
    assert_eq!(ident("AA"), collected[0].chapter);
    assert_eq!(fp(Encoding::Avc, "0002", "mp4"), collected[1].fingerprint);

    // same file code under both encodings stays two movies
    let collected = collect_movies(&names(vec!["GH011234.mp4", "GX011234.mp4"]));
    assert_eq!(2, collected.len());
    assert_eq!(Encoding::Avc, collected[0].fingerprint.encoding);
    assert_eq!(Encoding::Hevc, collected[1].fingerprint.encoding);
}

#[test]
fn test_movies() {
    let result = group_movies(&names(vec![
        "GH011234.mp4",
        "GH021234.mp4",
        "GX011235.flv",
        "GH001111.mp4",
    ]));
    assert_eq!(2, result.len());
    assert_eq!(fp(Encoding::Avc, "1234", "mp4"), result[0].fingerprint);
    assert_eq!(vec![ident("01"), ident("02")], result[0].chapters);
    assert_eq!(fp(Encoding::Hevc, "1235", "flv"), result[1].fingerprint);
    assert_eq!(vec![ident("01")], result[1].chapters);
}

#[test]
fn grouping_example_two_groups() {
    let result = group_movies(&names(vec![
        "GH011234.mp4",
        "GH021234.mp4",
        "GH011235.mp4",
    ]));
    assert_eq!(2, result.len());
    assert_eq!(fp(Encoding::Avc, "1234", "mp4"), result[0].fingerprint);
    assert_eq!(vec![ident("01"), ident("02")], result[0].chapters);
    assert_eq!(fp(Encoding::Avc, "1235", "mp4"), result[1].fingerprint);
    assert_eq!(vec![ident("01")], result[1].chapters);
}

#[test]
fn rejected_inputs_are_in_no_group() {
    // bad stems, unknown prefixes, zero file code, zero chapter code
    let result = group_movies(&names(vec![
        "short.mp4",
        "GY111134.flv",
        "GX000000.mp4",
        "GH010000.mp4",
        "GH000001.mp4",
        "noextension",
    ]));
    assert!(result.is_empty());
}

#[test]
fn chapters_arrive_sorted_even_from_shuffled_input() {
    let result = group_movies(&names(vec![
        "GH031234.mp4",
        "GH011234.mp4",
        "GH021234.mp4",
    ]));
    assert_eq!(1, result.len());
    assert_eq!(
        vec![ident("01"), ident("02"), ident("03")],
        result[0].chapters
    );
}

#[test]
fn groups_sorted_by_fingerprint() {
    let result = group_movies(&names(vec![
        "GX011111.mp4",
        "GH019999.mp4",
        "GH011111.mp4",
    ]));
    assert_eq!(3, result.len());
    // all Avc fingerprints first (by file id), Hevc last
    assert_eq!(fp(Encoding::Avc, "1111", "mp4"), result[0].fingerprint);
    assert_eq!(fp(Encoding::Avc, "9999", "mp4"), result[1].fingerprint);
    assert_eq!(fp(Encoding::Hevc, "1111", "mp4"), result[2].fingerprint);
}

#[test]
fn duplicate_chapters_are_kept() {
    let result = group_movies(&names(vec!["GH011234.mp4", "GH011234.mp4"]));
    assert_eq!(1, result.len());
    assert_eq!(vec![ident("01"), ident("01")], result[0].chapters);
}

#[test]
fn file_grouper_groups_names() {
    let grouper = FileGrouper::new();
    let result = grouper.group(names(vec!["GH011234.mp4", "GH021234.mp4"]));
    assert_eq!(1, result.len());
    assert_eq!(2, result[0].chapters.len());
}

#[test]
fn group_names() {
    let group = MovieGroup {
        fingerprint: fp(Encoding::Avc, "1234", "mp4"),
        chapters: vec![ident("01"), ident("02")],
    };
    assert_eq!("GH001234.mp4", group.name());
    assert_eq!("GH021234.mp4", group.chapter_file_name(&ident("02")));
    assert_eq!("GHAB1234.mp4", group.file_name("AB"));
}
