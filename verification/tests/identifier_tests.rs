use gopro_merge::identifier::{Error, Identifier, Kind};

#[test]
fn identifier_try_from_ok() {
    struct Test {
        input: &'static str,
        expected_string: &'static str,
        expected_kind: Kind,
        assert_numeric: Box<dyn Fn(Result<usize, Error>)>,
    }

    let tests = vec![
        Test {
            input: "0001",
            expected_string: "0001",
            expected_kind: Kind::File,
            assert_numeric: Box::new(|res: Result<usize, Error>| assert_eq!(1, res.unwrap())),
        },
        Test {
            input: "22",
            expected_string: "22",
            expected_kind: Kind::Chapter,
            assert_numeric: Box::new(|res: Result<usize, Error>| assert_eq!(22, res.unwrap())),
        },
        Test {
            input: "02",
            expected_string: "02",
            expected_kind: Kind::Chapter,
            assert_numeric: Box::new(|res: Result<usize, Error>| assert_eq!(2, res.unwrap())),
        },
        Test {
            input: "AA",
            expected_string: "AA",
            expected_kind: Kind::Loop,
            assert_numeric: Box::new(|res: Result<usize, Error>| match res {
                Err(Error::ParseInt(_)) => {}
                err => panic!("invalid numeric parsing result {:?}", err),
            }),
        },
    ];

    tests.into_iter().for_each(|test| {
        let id = Identifier::try_from(test.input).unwrap();
        assert_eq!(test.expected_string, id.string());
        assert_eq!(test.expected_kind, id.kind());
        (test.assert_numeric)(id.numeric());
    });
}

#[test]
fn identifier_try_from_err() {
    let non_ok = vec![
        "fdafda",
        "",
        "aaa22",
        "090909ff",
        "1",
        "222",
        "2222222222",
        "0",
    ];
    non_ok
        .into_iter()
        .for_each(|st| assert!(Identifier::try_from(st).is_err()));
}

#[test]
fn identifier_ordering_numeric_and_lexicographic() {
    let one = Identifier::try_from("01").unwrap();
    let two = Identifier::try_from("02").unwrap();
    let twenty = Identifier::try_from("20").unwrap();
    let loop_aa = Identifier::try_from("AA").unwrap();
    let loop_ab = Identifier::try_from("AB").unwrap();

    // numeric order between numeric chapters
    assert!(one.lt(&two));
    assert!(two.lt(&twenty));
    assert!(!two.lt(&one));
    // strictness
    assert!(!one.lt(&one));
    // numeric chapters sort before alphabetic loop codes (digits < letters)
    assert!(one.lt(&loop_aa));
    assert!(loop_aa.lt(&loop_ab));
    // exactly one of the three relations holds
    assert!(one != two);
    assert!(loop_aa != loop_ab);
}

#[test]
fn identifier_sign_prefixed_code_is_numeric() {
    // the standard numeral rules accept an optional leading '+'
    let id = Identifier::try_from("+1").unwrap();
    assert_eq!(Kind::Chapter, id.kind());
    assert_eq!(1, id.numeric().unwrap());
    assert_eq!("+1", id.string());
}
