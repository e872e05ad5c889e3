use gopro_merge::concat::calculate_total_duration;
use gopro_merge::duration::Duration;
use gopro_merge::progress::calculate_percentage;

#[test]
fn test_calculate_percentage() {
    fn test_case(len: u64, progress: u64, expected: u64) -> (Duration, Duration, u64) {
        (
            Duration::from_secs(len),
            Duration::from_secs(progress),
            expected,
        )
    }

    let tests = vec![
        test_case(9, 3, 33),
        test_case(10, 3, 30),
        test_case(10, 5, 50),
        test_case(100, 5, 5),
        test_case(33, 10, 30),
    ];

    tests.into_iter().for_each(|(len, progress, expected)| {
        let result = calculate_percentage(len, progress);
        assert_eq!(result, expected);
    });
}

#[test]
fn duration_summation() {
    // two chapters each measuring 5s + 449002us
    let single = Duration::from_secs(5).add(Duration::from_micros(449002));
    let total = calculate_total_duration(&vec![single, single]);
    assert_eq!(
        Duration::from_secs(10).add(Duration::from_micros(898004)),
        total
    );
    assert_eq!(10, total.as_secs());
    assert_eq!(898004, total.subsec_micros());
}

#[test]
fn duration_construction_normalizes_micros() {
    let d = Duration::from_micros(2_500_000);
    assert_eq!(2, d.as_secs());
    assert_eq!(500_000, d.subsec_micros());
    assert_eq!(d, Duration::from_secs(2).add(Duration::from_micros(500_000)));
}

#[test]
fn percentage_of_zero_length() {
    assert_eq!(
        0,
        calculate_percentage(Duration::default(), Duration::default())
    );
    assert_eq!(
        u64::MAX,
        calculate_percentage(Duration::default(), Duration::from_secs(1))
    );
}
