use lycoric::danmaku::{CenterRowTracker, Color, DanmakuMode, Intensity};
use lycoric::model::{LaneKind, LineId, LyricLane, LyricLine, TimedSegment};
use lycoric::render::layout::{
    layout_window, overscanned_range, window_plan, WindowPlan,
    gap_before_range, lane_timing, ordered_lane_indices, shaping_language, slot_for_kind,
    LaneVisibility,
};
use lycoric::render::{CacheStamp, LaneSlot, Overscan, TransitionEasing, TransitionStyle};
use lycoric::time::{LyricTime, TimeRange};
use lycoric::timeline::TimelineLine;

#[test]
fn original_lane_precedes_custom_lanes_without_reordering_custom_content() {
    let line = LyricLine {
        id: LineId::new(1),
        range: TimeRange::new(LyricTime::zero(), Some(LyricTime::from_secs(2))),
        lanes: vec![
            LyricLane::new(LaneKind::custom("first"), "first"),
            LyricLane::new(LaneKind::Original, "main"),
            LyricLane::new(LaneKind::custom("second"), "second"),
        ],
    };
    assert_eq!(ordered_lane_indices(&line), vec![1, 0, 2]);
}

#[test]
fn custom_lane_uses_only_its_own_explicit_segment_timing() {
    let range = TimeRange::new(LyricTime::zero(), Some(LyricTime::from_secs(1)));
    let custom = LyricLane::new(LaneKind::custom("annotation"), "note");
    assert_eq!(lane_timing(&custom), (Vec::new(), Vec::new()));

    let custom = LyricLane {
        segments: vec![TimedSegment {
            range,
            text_range: 0..4,
        }],
        ..custom
    };
    assert_eq!(lane_timing(&custom), (vec![range], vec![0..4]));
}

#[test]
fn lane_language_overrides_track_language_for_shaping() {
    assert_eq!(shaping_language(Some("ja-JP"), Some("zh-CN")), Some("ja-JP"));
    assert_eq!(shaping_language(None, Some("zh-TW")), Some("zh-TW"));
    assert_eq!(shaping_language(Some(""), Some("ko-KR")), Some("ko-KR"));
    assert_eq!(shaping_language(Some(" "), Some("\t")), None);
    assert_eq!(shaping_language(None, None), None);
}

#[test]
fn lane_visibility_toggles_one_slot_at_a_time() {
    let mut visibility = LaneVisibility::default();
    assert_eq!(visibility.bits(), 3);
    assert!(visibility.is_visible(LaneSlot::Original));
    visibility.set_visible(LaneSlot::Other, false);
    assert!(!visibility.is_visible(LaneSlot::Other));
    assert!(visibility.is_visible(LaneSlot::Original));
    assert_eq!(visibility.bits(), 1);
    visibility.set_visible(LaneSlot::Original, false);
    assert_eq!(visibility.bits(), 0);
    visibility.set_visible(LaneSlot::Other, true);
    assert_eq!(visibility.bits(), 2);
    assert_eq!(slot_for_kind(&LaneKind::custom("x")), LaneSlot::Other);
    assert_eq!(slot_for_kind(&LaneKind::Original), LaneSlot::Original);
    assert_eq!(LaneSlot::all(), [LaneSlot::Original, LaneSlot::Other]);
}

fn timeline_line(start_ms: i64, end_ms: Option<i64>) -> TimelineLine {
    TimelineLine {
        timeline_index: 0,
        track_index: 0,
        line_index: 0,
        id: LineId::new(0),
        range: TimeRange::new(LyricTime::from_millis(start_ms), end_ms.map(LyricTime::from_millis)),
    }
}

#[test]
fn gaps_need_a_previous_end_and_the_minimum_duration() {
    let next = timeline_line(3_000, Some(4_000));
    assert_eq!(
        gap_before_range(None, &next),
        Some(TimeRange::new(LyricTime::zero(), Some(LyricTime::from_millis(3_000))))
    );
    let previous = timeline_line(1_000, Some(2_200));
    assert_eq!(
        gap_before_range(Some(&previous), &next),
        Some(TimeRange::new(LyricTime::from_millis(2_200), Some(LyricTime::from_millis(3_000))))
    );
    let close = timeline_line(1_000, Some(2_201));
    assert_eq!(gap_before_range(Some(&close), &next), None);
    let open = timeline_line(1_000, None);
    assert_eq!(gap_before_range(Some(&open), &next), None);
    let overlapping = timeline_line(1_000, Some(3_500));
    assert_eq!(gap_before_range(Some(&overlapping), &next), None);
    assert_eq!(gap_before_range(None, &timeline_line(700, None)), None);
}

#[test]
fn transitions_run_from_zero_to_their_duration() {
    let style = TransitionStyle::default();
    assert_eq!(style.duration_us, 800_000);
    assert_eq!(style.easing, TransitionEasing::EaseOut);
    assert_eq!(style.linear_fraction(-5), (0, 1));
    assert_eq!(style.linear_fraction(200_000), (200_000, 800_000));
    assert_eq!(style.linear_fraction(800_000), (1, 1));
    assert_eq!(TransitionStyle::new(0, TransitionEasing::Linear).linear_fraction(1), (1, 1));
    assert_eq!(TransitionEasing::default(), TransitionEasing::EaseInOut);
}

#[test]
fn overscan_totals_saturate() {
    assert_eq!(Overscan::default(), Overscan::new(4, 6));
    assert_eq!(Overscan::default().total(), 10);
    assert_eq!(Overscan::new(usize::MAX, 1).total(), usize::MAX);
    assert_eq!(CacheStamp::default().document_generation, 0);
}

#[test]
fn intensity_indices_and_overlay() {
    assert_eq!(Intensity::from(0), Intensity::Quarter);
    assert_eq!(Intensity::from(2), Intensity::Full);
    assert_eq!(Intensity::from(3), Intensity::Overlay);
    assert_eq!(Intensity::from(9), Intensity::Half);
    assert!(Intensity::Overlay.allows_overlay());
    assert!(!Intensity::Full.allows_overlay());
    assert_eq!(DanmakuMode::default(), DanmakuMode::Scroll);
    assert_eq!(Color::default(), Color { r: 255, g: 255, b: 255, a: 255 });
}

#[test]
fn center_rows_fill_in_order_then_overlay_in_turn() {
    let mut tracker = CenterRowTracker::new(2);
    assert_eq!(tracker.max_rows(), 2);
    assert_eq!(tracker.find_row(true), Some(0));
    assert_eq!(tracker.find_row(false), Some(1));
    assert_eq!(tracker.find_row(false), None);
    assert_eq!(tracker.find_row(true), Some(0));
    assert_eq!(tracker.find_row(true), Some(1));
    assert_eq!(tracker.find_row(true), Some(0));
    tracker.release(1);
    assert_eq!(tracker.find_row(false), Some(1));
    tracker.resize(3);
    assert_eq!(tracker.find_row(false), Some(2));
    tracker.clear();
    assert_eq!(tracker.find_row(false), Some(0));
    tracker.resize(0);
    assert_eq!(tracker.find_row(true), None);
    tracker.release(5);
}

#[test]
fn a_layout_window_is_clamped_to_the_document() {
    assert_eq!(layout_window(2..50, 10, None), 2..10);
    assert_eq!(layout_window(12..20, 10, None), 10..10);
    assert_eq!(layout_window(6..3, 10, None), 6..6);
}

#[test]
fn a_layout_window_takes_in_the_focus_line() {
    assert_eq!(layout_window(4..6, 10, Some(8)), 4..9);
    assert_eq!(layout_window(4..6, 10, Some(1)), 1..6);
    assert_eq!(layout_window(4..6, 10, Some(5)), 4..6);
    assert_eq!(layout_window(4..6, 10, Some(10)), 4..6);
}

#[test]
fn overscan_extends_the_visible_lines_within_the_document() {
    assert_eq!(overscanned_range(5, 7, Overscan::new(2, 3), 20), 3..11);
    assert_eq!(overscanned_range(1, 18, Overscan::new(4, 6), 20), 0..20);
    assert_eq!(overscanned_range(0, usize::MAX, Overscan::new(0, 1), 5), 0..5);
}

#[test]
fn moving_the_window_drops_lines_outside_it_and_lays_out_missing_ones() {
    let materialized = vec![false, false, true, true, true, false, false, false];
    assert_eq!(
        window_plan(1..5, 3..7, &materialized),
        WindowPlan { evict: vec![1, 2], build: vec![5, 6] }
    );
    assert_eq!(
        window_plan(0..0, 0..2, &materialized),
        WindowPlan { evict: vec![], build: vec![0, 1] }
    );
}
