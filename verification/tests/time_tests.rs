use lycoric::time::{LyricTime, TimeRange};

#[test]
fn signed_arithmetic_is_in_microseconds() {
    let time = LyricTime::from_millis(-500) + LyricTime::from_secs(2);
    assert_eq!(time.as_micros(), 1_500_000);
    assert_eq!(time.to_seconds_string(), "1.500000s");
}

#[test]
fn ranges_are_end_exclusive_and_can_be_open() {
    let closed = TimeRange::new(LyricTime::from_secs(1), Some(LyricTime::from_secs(2)));
    assert!(closed.contains(LyricTime::from_secs(1)));
    assert!(!closed.contains(LyricTime::from_secs(2)));

    let open = TimeRange::new(LyricTime::from_secs(3), None);
    assert!(open.contains(LyricTime::from_secs(300)));
}

#[test]
fn arithmetic_saturates_and_checks() {
    assert_eq!(LyricTime::max_value().saturating_add(LyricTime::from_micros(1)), LyricTime::max_value());
    assert_eq!(LyricTime::min_value().saturating_sub(LyricTime::from_micros(1)), LyricTime::min_value());
    assert_eq!(LyricTime::max_value().checked_add(LyricTime::from_micros(1)), None);
    assert_eq!(
        LyricTime::from_micros(5).checked_sub(LyricTime::from_micros(7)),
        Some(LyricTime::from_micros(-2))
    );
    assert_eq!(LyricTime::from_secs(i64::MAX).as_micros(), i64::MAX);
    assert_eq!(LyricTime::from_millis(i64::MIN).as_micros(), i64::MIN);
    assert_eq!(LyricTime::min_value().abs_diff(LyricTime::max_value()), u64::MAX);
    assert_eq!(LyricTime::from_micros(-2_500_001).to_seconds_string(), "-2.500001s");
    assert_eq!(
        TimeRange::new(LyricTime::from_secs(1), Some(LyricTime::from_secs(4))).duration(),
        Some(LyricTime::from_secs(3))
    );
    assert!(!TimeRange::new(LyricTime::from_secs(4), Some(LyricTime::from_secs(1))).is_valid());
}
