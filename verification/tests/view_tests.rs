use lycoric::model::{LaneKind, LineId, LyricLane, LyricLine, LyricTrack, TimedSegment};
use lycoric::render::{
    anchor_event, frame_focus, is_large_seek, scroll_resumption, seek_request, AnimationReasons,
    ClockSample, FocusDecision, RenderEvent, RenderState,
};
use lycoric::time::{LyricTime, TimeRange};
use lycoric::timeline::Timeline;

fn timed_line(id: u64, start_ms: i64, end_ms: i64) -> LyricLine {
    LyricLine {
        id: LineId::new(id),
        range: TimeRange::new(LyricTime::from_millis(start_ms), Some(LyricTime::from_millis(end_ms))),
        lanes: vec![LyricLane {
            kind: LaneKind::Original,
            language: None,
            text: String::from("word"),
            segments: vec![TimedSegment {
                range: TimeRange::new(LyricTime::from_millis(start_ms), Some(LyricTime::from_millis(end_ms))),
                text_range: 0..4,
            }],
        }],
    }
}

fn timeline() -> Timeline {
    Timeline::from_track(&LyricTrack {
        language: None,
        kind: LaneKind::Original,
        lines: vec![timed_line(1, 1_000, 2_000), timed_line(2, 5_000, 6_000)],
    })
}

#[test]
fn a_long_pause_shows_its_gap_and_focuses_the_next_line() {
    let position = LyricTime::from_millis(3_000);
    let frame = timeline().frame_at(position);
    let decision = frame_focus(&frame, position, &vec![true]);
    assert_eq!(
        decision,
        FocusDecision {
            current_line: None,
            gap: Some(TimeRange::new(LyricTime::from_millis(2_000), Some(LyricTime::from_millis(5_000)))),
            gap_line: Some(1),
            focus: Some(1),
            word_animation: false,
            next_gap_event: None,
        }
    );
}

#[test]
fn a_sung_line_is_current_and_animates_its_visible_words() {
    let position = LyricTime::from_millis(1_500);
    let frame = timeline().frame_at(position);
    let decision = frame_focus(&frame, position, &vec![true]);
    assert_eq!(decision.current_line, Some(0));
    assert_eq!(decision.focus, Some(0));
    assert_eq!(decision.gap, None);
    assert!(decision.word_animation);
    assert_eq!(decision.next_gap_event, Some(LyricTime::from_millis(2_000)));
    let hidden = frame_focus(&frame, position, &vec![false]);
    assert!(!hidden.word_animation);
    let unknown = frame_focus(&frame, position, &Vec::new());
    assert!(!unknown.word_animation);
}

#[test]
fn before_the_first_line_the_intro_gap_focuses_it() {
    let position = LyricTime::from_millis(500);
    let frame = timeline().frame_at(position);
    let decision = frame_focus(&frame, position, &vec![true]);
    assert_eq!(decision.current_line, None);
    assert_eq!(decision.gap, Some(TimeRange::new(LyricTime::zero(), Some(LyricTime::from_millis(1_000)))));
    assert_eq!(decision.gap_line, Some(0));
    assert_eq!(decision.focus, Some(0));
}

#[test]
fn a_short_pause_shows_no_gap_and_keeps_the_previous_line_in_focus() {
    let timeline = Timeline::from_track(&LyricTrack {
        language: None,
        kind: LaneKind::Original,
        lines: vec![timed_line(1, 0, 1_000), timed_line(2, 1_500, 2_000)],
    });
    let position = LyricTime::from_millis(1_200);
    let decision = frame_focus(&timeline.frame_at(position), position, &vec![true]);
    assert_eq!(decision.gap, None);
    assert_eq!(decision.current_line, None);
    assert_eq!(decision.focus, Some(0));
    assert_eq!(decision.next_gap_event, None);
}

#[test]
fn large_seek_threshold_separates_drift_from_seeks() {
    let expected = LyricTime::from_micros(1_000_000);
    assert!(!is_large_seek(expected, LyricTime::from_micros(1_100_000)));
    assert!(!is_large_seek(expected, LyricTime::from_micros(1_750_000)));
    assert!(is_large_seek(expected, LyricTime::from_micros(1_750_001)));
    assert!(is_large_seek(expected, LyricTime::from_micros(5_000_000)));
}

#[test]
fn an_anchor_change_seeks_commits_and_resumes_manual_scroll() {
    let target = LyricTime::from_secs(40);
    let shown = RenderState::Static { position: LyricTime::from_secs(2) };
    assert_eq!(seek_request(shown, true, 3, target), Some(RenderEvent::Seek { generation: 3, target }));
    assert_eq!(seek_request(shown, false, 3, target), None);
    assert_eq!(seek_request(RenderState::Empty, true, 3, target), None);

    let sample = ClockSample { position: target, advancing: true };
    let seeking = RenderState::Seeking { generation: 3, target };
    assert_eq!(
        anchor_event(seeking, true, 3, sample, None, AnimationReasons::none()),
        RenderEvent::SeekCommitted { generation: 3 }
    );
    assert_eq!(
        anchor_event(shown, true, 3, sample, None, AnimationReasons::none()),
        RenderEvent::AnchorChanged { sample, next_event: None, animations: AnimationReasons::none() }
    );

    let scrolled = RenderState::ManualScroll { return_deadline_us: 9, advancing: true, animating: false };
    assert_eq!(
        scroll_resumption(scrolled, false, false, shown),
        Some(RenderEvent::UserScroll { return_deadline_us: 9, advancing: false })
    );
    assert_eq!(scroll_resumption(scrolled, true, false, shown), None);
    assert_eq!(scroll_resumption(scrolled, false, true, shown), None);
    assert_eq!(scroll_resumption(scrolled, false, false, scrolled), None);
    assert_eq!(scroll_resumption(shown, false, false, shown), None);
}
