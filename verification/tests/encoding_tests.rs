use gopro_merge::encoding::Encoding;

#[test]
fn encoding_try_from() {
    let ok = vec!["GH", "GX"];
    ok.into_iter()
        .for_each(|i| assert!(Encoding::try_from(i).is_ok()));

    let non_ok = vec!["gh", "gh", "", "faasda"];
    non_ok
        .into_iter()
        .for_each(|i| assert!(Encoding::try_from(i).is_err()));
}

#[test]
fn encoding_as_str() {
    assert_eq!("GH", Encoding::Avc.as_str());
    assert_eq!("GX", Encoding::Hevc.as_str());
}
