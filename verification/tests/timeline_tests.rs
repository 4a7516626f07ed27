use lycoric::model::{LaneKind, LineId, LyricLane, LyricLine, LyricTrack, LyricsDocument, TimedSegment};
use lycoric::time::{LyricTime, TimeRange};
use lycoric::timeline::{Timeline, TimelineFrame, TimelineLine};

fn timeline_line(index: usize, start_us: i64, end_us: Option<i64>) -> TimelineLine {
    TimelineLine {
        timeline_index: index,
        track_index: 0,
        line_index: index,
        id: LineId::new(index as u64),
        range: TimeRange::new(
            LyricTime::from_micros(start_us),
            end_us.map(LyricTime::from_micros),
        ),
    }
}

fn gap_frame(
    position_us: i64, previous: Option<TimelineLine>, next: Option<TimelineLine>,
) -> TimelineFrame {
    TimelineFrame {
        position: LyricTime::from_micros(position_us),
        active_lines: Vec::new(),
        active_line: None,
        previous_line: previous,
        next_line: next,
        next_event: None,
    }
}

#[test]
fn bounded_gap_supports_intro_and_uses_previous_end() {
    let intro = gap_frame(500_000, None, Some(timeline_line(0, 2_000_000, Some(3_000_000))));
    assert_eq!(
        intro.bounded_gap(),
        Some(TimeRange::new(
            LyricTime::zero(),
            Some(LyricTime::from_micros(2_000_000))
        ))
    );

    let between = gap_frame(
        2_500_000,
        Some(timeline_line(0, 0, Some(2_000_000))),
        Some(timeline_line(1, 4_000_000, Some(5_000_000))),
    );
    assert_eq!(
        between.bounded_gap(),
        Some(TimeRange::new(
            LyricTime::from_micros(2_000_000),
            Some(LyricTime::from_micros(4_000_000))
        ))
    );
}

#[test]
fn bounded_gap_requires_a_next_line_and_gap_position() {
    let outro = gap_frame(3_000_000, Some(timeline_line(0, 0, Some(2_000_000))), None);
    assert_eq!(outro.bounded_gap(), None);

    let before_intro = gap_frame(-1, None, Some(timeline_line(0, 2_000_000, None)));
    assert_eq!(before_intro.bounded_gap(), None);
}

fn line(id: u64, start: i64, end: Option<i64>) -> LyricLine {
    LyricLine {
        id: LineId::new(id),
        range: TimeRange::new(LyricTime::from_secs(start), end.map(LyricTime::from_secs)),
        lanes: vec![LyricLane {
            kind: LaneKind::Original,
            language: None,
            text: String::from("word"),
            segments: Vec::new(),
        }],
    }
}

fn track(lines: Vec<LyricLine>) -> LyricTrack {
    LyricTrack {
        language: None,
        kind: LaneKind::Original,
        lines,
    }
}

fn progress(elapsed: u64, duration: u64) -> f64 {
    elapsed as f64 / duration as f64
}

#[test]
fn interval_index_finds_overlaps_and_open_ranges() {
    let timeline = Timeline::from_track(&track(vec![
        line(1, 1, Some(5)),
        line(2, 2, Some(3)),
        line(3, 9, None),
    ]));
    assert_eq!(timeline.frame_at(LyricTime::from_secs(2)).active_lines.len(), 2);
    assert_eq!(
        timeline.frame_at(LyricTime::from_secs(4)).active_lines[0].line.id,
        LineId::new(1)
    );
    assert_eq!(
        timeline.frame_at(LyricTime::max_value()).active_lines[0].line.id,
        LineId::new(3)
    );
}

#[test]
fn ended_overlapping_segment_does_not_mask_an_earlier_active_segment() {
    let mut timed = line(1, 1, Some(6));
    timed.lanes[0].segments = vec![
        TimedSegment {
            range: TimeRange::new(LyricTime::from_secs(1), Some(LyricTime::from_secs(5))),
            text_range: 0..2,
        },
        TimedSegment {
            range: TimeRange::new(LyricTime::from_secs(2), Some(LyricTime::from_secs(3))),
            text_range: 2..4,
        },
    ];
    let timeline = Timeline::from_track(&track(vec![timed]));

    let frame = timeline.frame_at(LyricTime::from_secs(4));
    let segment = frame.active_lines[0].active_segments[0];
    assert_eq!(segment.segment_index, 0);
    assert_eq!(progress(segment.elapsed, segment.duration), 0.75);
}

#[test]
fn open_and_zero_duration_segments_have_stable_progress_semantics() {
    let mut open = line(1, 1, None);
    open.lanes[0].segments = vec![TimedSegment {
        range: TimeRange::new(LyricTime::from_secs(1), None),
        text_range: 0..4,
    }];
    let frame = Timeline::from_track(&track(vec![open])).frame_at(LyricTime::from_secs(2));
    let segment = frame.active_lines[0].active_segments[0];
    assert_eq!(progress(segment.elapsed, segment.duration), 0.0);

    let mut empty = line(1, 1, Some(5));
    empty.lanes[0].segments = Vec::new();
    for _ in 0..7 {
        empty.lanes[0].segments.push(TimedSegment {
            range: TimeRange::new(LyricTime::from_secs(9), Some(LyricTime::from_secs(9))),
            text_range: 0..0,
        });
    }
    empty.lanes[0].segments.push(TimedSegment {
        range: TimeRange::new(LyricTime::from_secs(2), Some(LyricTime::from_secs(2))),
        text_range: 0..4,
    });
    let frame = Timeline::from_track(&track(vec![empty])).frame_at(LyricTime::from_secs(2));
    let segment = frame.active_lines[0].active_segments[0];
    assert_eq!(segment.segment_index, 7);
    assert_eq!(progress(segment.elapsed, segment.duration), 1.0);
}

#[test]
fn computes_segment_progress() {
    let mut timed = line(1, 1, Some(4));
    timed.lanes[0].segments.push(TimedSegment {
        range: TimeRange::new(LyricTime::from_secs(1), Some(LyricTime::from_secs(3))),
        text_range: 0..4,
    });
    let timeline = Timeline::from_track(&track(vec![timed]));
    let frame = timeline.frame_at(LyricTime::from_secs(2));
    let segment = frame.active_lines[0].active_segments[0];
    assert_eq!(progress(segment.elapsed, segment.duration), 0.5);
}

#[test]
fn blank_lines_are_left_out_and_lines_are_sorted_by_start() {
    let mut blank = line(7, 0, Some(1));
    blank.lanes[0].text = String::from("  ");
    let timeline = Timeline::from_track(&track(vec![
        line(1, 5, Some(6)),
        blank,
        line(2, 3, Some(4)),
        line(3, 5, Some(7)),
    ]));
    let ids: Vec<u64> = timeline.lines().iter().map(|line| line.id.get()).collect();
    assert_eq!(ids, vec![2, 1, 3]);
    let indices: Vec<usize> = timeline.lines().iter().map(|line| line.line_index).collect();
    assert_eq!(indices, vec![2, 0, 3]);
    assert_eq!(timeline.len(), 3);
    assert!(!timeline.is_empty());
    assert_eq!(timeline.line(1).map(|line| line.timeline_index), Some(1));
    assert_eq!(timeline.line(3), None);
}

#[test]
fn frames_report_neighbours_and_the_next_event() {
    let timeline = Timeline::from_track(&track(vec![
        line(1, 1, Some(2)),
        line(2, 4, Some(5)),
        line(3, 6, Some(8)),
    ]));
    let gap = timeline.frame_at(LyricTime::from_secs(3));
    assert!(gap.is_gap());
    assert_eq!(gap.previous_line.map(|line| line.id), Some(LineId::new(1)));
    assert_eq!(gap.next_line.map(|line| line.id), Some(LineId::new(2)));
    assert_eq!(gap.next_event, Some(LyricTime::from_secs(4)));
    assert_eq!(
        gap.bounded_gap(),
        Some(TimeRange::new(LyricTime::from_secs(2), Some(LyricTime::from_secs(4))))
    );

    let active = timeline.frame_at(LyricTime::from_secs(4));
    assert_eq!(active.active_line_id(), Some(LineId::new(2)));
    assert_eq!(active.previous_line.map(|line| line.id), Some(LineId::new(1)));
    assert_eq!(active.next_line.map(|line| line.id), Some(LineId::new(3)));
    assert_eq!(active.next_event, Some(LyricTime::from_secs(5)));

    assert_eq!(timeline.next_event_after(LyricTime::from_secs(8)), None);
    assert_eq!(
        timeline.previous_event_at_or_before(LyricTime::from_secs(3)),
        Some(LyricTime::from_secs(2))
    );
    assert_eq!(timeline.previous_event_at_or_before(LyricTime::from_millis(999)), None);
}

#[test]
fn visible_range_widens_the_active_lines() {
    let timeline = Timeline::from_track(&track(vec![
        line(1, 1, Some(2)),
        line(2, 3, Some(6)),
        line(3, 4, Some(5)),
        line(4, 7, Some(8)),
        line(5, 9, Some(10)),
    ]));
    assert_eq!(timeline.visible_range(LyricTime::from_secs(4), 1, 1), 0..4);
    assert_eq!(timeline.visible_range(LyricTime::from_secs(8), 0, 0), 3..4);
    assert_eq!(timeline.visible_range(LyricTime::from_secs(0), 2, 10), 0..5);
    assert_eq!(Timeline::default().visible_range(LyricTime::zero(), 1, 1), 0..0);
}

#[test]
fn document_timeline_uses_the_primary_track() {
    let mut sidecar = track(vec![line(9, 1, None)]);
    sidecar.kind = LaneKind::custom("sidecar");
    let empty_original = track(Vec::new());
    let document = LyricsDocument {
        tracks: vec![empty_original, sidecar],
        ..LyricsDocument::default()
    };
    let timeline = Timeline::new(&document);
    assert_eq!(timeline.lines()[0].track_index, 1);
    assert_eq!(timeline.lines()[0].id, LineId::new(9));
    assert!(Timeline::from_document_track(&document, 2).is_none());
    assert!(Timeline::from_document_track(&document, 0).unwrap().is_empty());
    assert!(Timeline::new(&LyricsDocument::default()).is_empty());
}

#[test]
fn a_cloned_timeline_answers_like_its_source() {
    let timeline = Timeline::from_track(&track(vec![
        line(1, 1, Some(5)),
        line(2, 2, Some(3)),
        line(3, 9, None),
    ]));
    let copy = timeline.clone();
    assert_eq!(copy.len(), timeline.len());
    for seconds in [0, 1, 2, 4, 7, 9, 12] {
        let position = LyricTime::from_secs(seconds);
        assert_eq!(copy.frame_at(position), timeline.frame_at(position));
    }
}

#[test]
fn the_primary_timeline_is_the_timeline_of_the_primary_track() {
    let document = LyricsDocument {
        metadata: Default::default(),
        tracks: vec![track(vec![line(1, 1, Some(5)), line(2, 2, Some(3))])],
        duration: None,
    };
    let primary = Timeline::new(&document);
    let by_index = Timeline::from_document_track(&document, 0).unwrap();
    assert_eq!(primary.lines(), by_index.lines());
    for seconds in [0, 1, 2, 3, 5, 8] {
        let position = LyricTime::from_secs(seconds);
        assert_eq!(primary.next_event_after(position), by_index.next_event_after(position));
    }
    let empty = Timeline::new(&LyricsDocument { metadata: Default::default(), tracks: Vec::new(), duration: None });
    assert!(empty.is_empty());
    assert_eq!(empty.next_event_after(LyricTime::zero()), None);
}
