use std::time::Duration;

use lycoric::render::{frame_delay, frame_delay_micros, WakeupKey};
use lycoric::time::LyricTime;

#[test]
fn frame_deadline_does_not_depend_on_media_playback() {
    assert_eq!(frame_delay(1_000, 4_000), Duration::from_micros(3_000));
    assert_eq!(frame_delay(5_000, 4_000), Duration::ZERO);
}

#[test]
fn the_wait_spans_the_whole_signed_range() {
    assert_eq!(frame_delay_micros(i64::MIN, i64::MAX), u64::MAX);
    assert_eq!(frame_delay_micros(-5, 7), 12);
    assert_eq!(frame_delay_micros(7, 7), 0);
}

#[test]
fn wakeup_keys_compare_by_target_and_serial() {
    let first = WakeupKey::Media { target: LyricTime::from_micros(10), serial: 1 };
    assert_eq!(first, WakeupKey::Media { target: LyricTime::from_micros(10), serial: 1 });
    assert_ne!(first, WakeupKey::Media { target: LyricTime::from_micros(10), serial: 2 });
    assert_ne!(first, WakeupKey::ManualScroll { deadline_us: 10 });
}
