use lycoric::player::{clamp_seconds, format_seconds, micros_to_duration_seconds};

#[test]
fn a_duration_spans_its_started_seconds() {
    assert_eq!(micros_to_duration_seconds(0), 0);
    assert_eq!(micros_to_duration_seconds(1), 1);
    assert_eq!(micros_to_duration_seconds(1_000_000), 1);
    assert_eq!(micros_to_duration_seconds(1_000_001), 2);
    assert_eq!(micros_to_duration_seconds(-3), 0);
    assert_eq!(micros_to_duration_seconds(i64::MAX), i64::MAX / 1_000_000);
}

#[test]
fn seek_positions_stay_on_the_bar() {
    assert_eq!(clamp_seconds(-4, 100), 0);
    assert_eq!(clamp_seconds(120, 100), 100);
    assert_eq!(clamp_seconds(42, 100), 42);
    assert_eq!(clamp_seconds(120, 0), 120);
    assert_eq!(clamp_seconds(-1, 0), 0);
}

#[test]
fn labels_read_minutes_and_two_digit_seconds() {
    assert_eq!(format_seconds(0), "0:00");
    assert_eq!(format_seconds(65), "1:05");
    assert_eq!(format_seconds(599), "9:59");
    assert_eq!(format_seconds(3600), "60:00");
    assert_eq!(format_seconds(-5), "0:00");
}
