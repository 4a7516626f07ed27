use lycoric::render::{gap_window, highlight_status, GapWindow, LaneHighlightStatus};
use lycoric::time::{LyricTime, TimeRange};

#[test]
fn gap_phase_requires_a_long_bounded_gap() {
    let start = LyricTime::from_micros(1_000_000);
    let long = TimeRange::new(start, Some(LyricTime::from_micros(1_800_000)));
    let short = TimeRange::new(start, Some(LyricTime::from_micros(1_799_999)));

    assert!(gap_window(long, LyricTime::from_micros(1_400_000)).is_some());
    assert!(gap_window(short, LyricTime::from_micros(1_400_000)).is_none());
    assert!(gap_window(long, LyricTime::from_micros(1_800_000)).is_none());
}

#[test]
fn a_gap_window_measures_from_both_edges() {
    let range = TimeRange::new(LyricTime::zero(), Some(LyricTime::from_micros(2_000_000)));
    assert_eq!(
        gap_window(range, LyricTime::from_micros(360_000)),
        Some(GapWindow { elapsed_us: 360_000, remaining_us: 1_640_000 })
    );
    let open = TimeRange::new(LyricTime::zero(), None);
    assert_eq!(gap_window(open, LyricTime::from_micros(360_000)), None);
}

#[test]
fn only_one_segment_is_dynamic_and_completed_prefix_is_stable() {
    let segments = vec![
        TimeRange::new(LyricTime::from_micros(0), Some(LyricTime::from_micros(100))),
        TimeRange::new(LyricTime::from_micros(100), Some(LyricTime::from_micros(200))),
    ];
    let first = highlight_status(&segments, LyricTime::from_micros(50));
    assert_eq!(first.completed_segments, 0);
    assert_eq!(first.current_segment, Some(0));

    let second = highlight_status(&segments, LyricTime::from_micros(150));
    assert_eq!(second.completed_segments, 1);
    assert_eq!(second.current_segment, Some(1));
    assert_eq!((second.elapsed_us, second.duration_us), (50, 100));
}

#[test]
fn highlight_stops_before_a_segment_that_has_not_begun() {
    let segments = vec![
        TimeRange::new(LyricTime::from_micros(0), None),
        TimeRange::new(LyricTime::from_micros(300), Some(LyricTime::from_micros(400))),
    ];
    assert_eq!(
        highlight_status(&segments, LyricTime::from_micros(200)),
        LaneHighlightStatus { completed_segments: 1, current_segment: None, elapsed_us: 0, duration_us: 0 }
    );
    assert_eq!(
        highlight_status(&segments, LyricTime::from_micros(500)),
        LaneHighlightStatus { completed_segments: 2, current_segment: None, elapsed_us: 0, duration_us: 0 }
    );
}
