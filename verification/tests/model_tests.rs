use lycoric::diagnostics::{Diagnostic, DiagnosticCode, SourceSpan};
use lycoric::model::{
    LaneKind, LineId, LyricLane, LyricLine, LyricTrack, LyricsDocument, LyricsMetadata,
    MetadataTag, TimedSegment,
};
use lycoric::time::{LyricTime, TimeRange};

#[test]
fn diagnostics_carry_optional_source_locations() {
    let diagnostic = Diagnostic::warning(DiagnosticCode::MalformedTag, "bad tag")
        .with_span(SourceSpan::at(2, 4, 10, 3));
    assert_eq!(diagnostic.span.unwrap().start.line, 2);
    assert!(diagnostic.describe().contains("2:4"));
}

#[test]
fn diagnostic_text_names_the_code_and_message() {
    let plain = Diagnostic::error(DiagnosticCode::InvalidOffset, "bad offset");
    assert_eq!(plain.describe(), "InvalidOffset: bad offset");
    let placed = plain.with_span(SourceSpan::at(12, 7, 30, 2));
    assert_eq!(placed.describe(), "12:7: InvalidOffset: bad offset");
    assert_eq!(placed.span.unwrap().end.column, 9);
    assert_eq!(placed.span.unwrap().end.byte_offset, 32);
}

#[test]
fn validates_unicode_segment_boundaries() {
    let mut lane = LyricLane::new(LaneKind::custom("annotation"), "歌かな");
    lane.segments.push(TimedSegment {
        range: TimeRange::new(LyricTime::zero(), None),
        text_range: 0..3,
    });
    assert!(lane.has_valid_text_ranges());

    lane.segments[0].text_range = 0..1;
    assert!(!lane.has_valid_text_ranges());
}

#[test]
fn text_ranges_past_the_end_or_reversed_are_invalid() {
    let mut lane = LyricLane::new(LaneKind::Original, "ab");
    lane.segments.push(TimedSegment {
        range: TimeRange::new(LyricTime::zero(), None),
        text_range: 0..2,
    });
    assert!(lane.has_valid_text_ranges());
    lane.segments[0].text_range = 1..3;
    assert!(!lane.has_valid_text_ranges());
    lane.segments[0].text_range = 2..1;
    assert!(!lane.has_valid_text_ranges());
}

#[test]
fn primary_track_prefers_nonempty_original_then_first_nonempty_track() {
    let empty_original = LyricTrack::new(LaneKind::Original);
    let sidecar_kind = LaneKind::custom("sidecar");
    let mut sidecar_track = LyricTrack::new(sidecar_kind.clone());
    sidecar_track.lines.push(LyricLine {
        id: LineId::new(1),
        range: TimeRange::new(LyricTime::zero(), None),
        lanes: Vec::new(),
    });
    let mut document = LyricsDocument {
        tracks: vec![empty_original, sidecar_track],
        ..LyricsDocument::default()
    };

    assert_eq!(
        document.primary_track().map(|track| &track.kind),
        Some(&sidecar_kind)
    );
    assert_eq!(
        document.primary_track_mut().map(|track| &track.kind),
        Some(&sidecar_kind)
    );
    assert!(
        LyricsDocument {
            tracks: vec![LyricTrack::new(LaneKind::Original)],
            ..LyricsDocument::default()
        }
        .primary_track()
        .is_none()
    );
}

#[test]
fn custom_lanes_and_unknown_metadata_are_retained() {
    let kind = LaneKind::custom("annotation");
    assert_eq!(kind, LaneKind::Other(String::from("annotation")));

    let mut metadata = LyricsMetadata::default();
    metadata.unknown.push(MetadataTag::new("x-vendor", "value"));
    assert_eq!(metadata.value("X-VENDOR"), Some("value"));
}

#[test]
fn metadata_lookup_prefers_known_fields_and_the_last_unknown_tag() {
    let mut metadata = LyricsMetadata::default();
    metadata.title = Some(String::from("Song"));
    metadata.unknown.push(MetadataTag::new("mood", "calm"));
    metadata.unknown.push(MetadataTag::new("MOOD", "bright"));
    assert_eq!(metadata.value("Ti"), Some("Song"));
    assert_eq!(metadata.value("ar"), None);
    assert_eq!(metadata.value("mood"), Some("bright"));
    assert_eq!(metadata.value("tempo"), None);
}

#[test]
fn visible_text_needs_a_non_whitespace_character() {
    let mut line = LyricLine {
        id: LineId::new(0),
        range: TimeRange::new(LyricTime::zero(), None),
        lanes: vec![LyricLane::new(LaneKind::Original, " \u{3000}\t")],
    };
    assert!(!line.has_visible_text());
    line.lanes.push(LyricLane::new(LaneKind::custom("note"), " x "));
    assert!(line.has_visible_text());
    assert_eq!(
        line.lane(&LaneKind::custom("note")).map(|lane| lane.text.as_str()),
        Some(" x ")
    );
    assert!(line.lane(&LaneKind::custom("other")).is_none());
}
