use lycoric::assemble::variants::{find_match, MatchResult, VariantAssembler};
use lycoric::assemble::MatchStrategy;
use lycoric::diagnostics::DiagnosticCode;
use lycoric::model::{LaneKind, LineId, LyricLane, LyricLine, LyricTrack, LyricsDocument, LyricsMetadata, TimedSegment};
use lycoric::time::{LyricTime, TimeRange};

fn line(id: u64, seconds: i64, kind: LaneKind, text: &str) -> LyricLine {
    LyricLine {
        id: LineId::new(id),
        range: TimeRange::new(
            LyricTime::from_secs(seconds),
            Some(LyricTime::from_secs(seconds + 1)),
        ),
        lanes: vec![LyricLane {
            kind,
            language: None,
            text: String::from(text),
            segments: Vec::new(),
        }],
    }
}

fn line_with_segment(
    id: u64, line_start_millis: i64, line_end_millis: i64, segment_start_millis: i64,
    segment_end_millis: Option<i64>, kind: LaneKind,
) -> LyricLine {
    let mut line = LyricLine {
        id: LineId::new(id),
        range: TimeRange::new(
            LyricTime::from_millis(line_start_millis),
            Some(LyricTime::from_millis(line_end_millis)),
        ),
        lanes: vec![LyricLane::new(kind, "word")],
    };
    line.lanes[0].segments.push(TimedSegment {
        range: TimeRange::new(
            LyricTime::from_millis(segment_start_millis),
            segment_end_millis.map(LyricTime::from_millis),
        ),
        text_range: 0..4,
    });
    line
}

fn document(kind: LaneKind, lines: Vec<LyricLine>) -> LyricsDocument {
    LyricsDocument {
        metadata: LyricsMetadata::default(),
        tracks: vec![LyricTrack {
            language: None,
            kind,
            lines,
        }],
        duration: None,
    }
}

#[test]
fn exact_timestamp_merges_a_sidecar_lane() {
    let primary = document(
        LaneKind::Original,
        vec![line(10, 1, LaneKind::Original, "original")],
    );
    let sidecar = document(
        LaneKind::custom("sidecar"),
        vec![line(20, 1, LaneKind::custom("sidecar"), "sidecar")],
    );
    let report = VariantAssembler::new(MatchStrategy::ExactTimestamp).merge(primary, sidecar);
    assert!(report.diagnostics.is_empty());
    assert_eq!(report.document.tracks.len(), 1);
    assert_eq!(report.document.tracks[0].lines[0].lanes.len(), 2);
}

#[test]
fn tolerance_reports_fuzzy_matches() {
    let primary = document(
        LaneKind::Original,
        vec![line(1, 10, LaneKind::Original, "a")],
    );
    let mut sidecar_line = line(2, 10, LaneKind::custom("sidecar"), "b");
    sidecar_line.range.start = sidecar_line.range.start + LyricTime::from_millis(20);
    let sidecar = document(LaneKind::custom("sidecar"), vec![sidecar_line]);
    let report = VariantAssembler::new(MatchStrategy::TimestampTolerance {
        tolerance: LyricTime::from_millis(50),
    })
    .merge(primary, sidecar);
    assert_eq!(report.diagnostics[0].code, DiagnosticCode::FuzzyMatch);
    assert_eq!(report.document.tracks[0].lines[0].lanes.len(), 2);
}

#[test]
fn ambiguous_matches_remain_in_a_separate_track() {
    let primary = document(
        LaneKind::Original,
        vec![
            line(1, 1, LaneKind::Original, "a"),
            line(2, 1, LaneKind::Original, "b"),
        ],
    );
    let sidecar = document(
        LaneKind::custom("sidecar"),
        vec![line(3, 1, LaneKind::custom("sidecar"), "c")],
    );
    let report = VariantAssembler::new(MatchStrategy::ExactTimestamp).merge(primary, sidecar);
    assert_eq!(report.diagnostics[0].code, DiagnosticCode::AmbiguousMatch);
    assert_eq!(report.document.tracks.len(), 2);
    assert_eq!(
        report.document.tracks[1].lines[0].lanes[0].text.as_str(),
        "c"
    );
}

#[test]
fn ordered_merge_preserves_conflicting_lanes() {
    let mut primary_line = line(1, 1, LaneKind::Original, "a");
    primary_line
        .lanes
        .push(LyricLane::new(LaneKind::custom("sidecar"), "old"));
    let primary = document(LaneKind::Original, vec![primary_line]);
    let sidecar = document(
        LaneKind::custom("sidecar"),
        vec![line(2, 99, LaneKind::custom("sidecar"), "new")],
    );
    let report = VariantAssembler::new(MatchStrategy::Ordered).merge(primary, sidecar);
    assert_eq!(report.diagnostics[0].code, DiagnosticCode::LaneConflict);
    assert_eq!(report.document.tracks[0].lines[0].lanes.len(), 3);
}

#[test]
fn ordered_merge_shifts_enhanced_timing_to_the_target_start() {
    let primary = document(
        LaneKind::Original,
        vec![line(1, 1, LaneKind::Original, "a")],
    );
    let sidecar = document(
        LaneKind::custom("sidecar"),
        vec![line_with_segment(
            2,
            99_000,
            100_000,
            99_200,
            Some(99_800),
            LaneKind::custom("sidecar"),
        )],
    );

    let report = VariantAssembler::new(MatchStrategy::Ordered).merge(primary, sidecar);
    let segment = &report.document.tracks[0].lines[0].lanes[1].segments[0];
    assert_eq!(segment.range.start, LyricTime::from_millis(1_200));
    assert_eq!(segment.range.end, Some(LyricTime::from_millis(1_800)));
    assert!(
        report
            .diagnostics
            .iter()
            .all(|diagnostic| diagnostic.code != DiagnosticCode::InvalidRange)
    );
}

#[test]
fn matched_sidecar_segments_are_normalized_for_every_matching_strategy() {
    let cases = [
        (
            MatchStrategy::ExactTimestamp,
            line_with_segment(
                2,
                10_000,
                11_000,
                9_000,
                Some(12_000),
                LaneKind::custom("sidecar"),
            ),
        ),
        (
            MatchStrategy::TimestampTolerance {
                tolerance: LyricTime::from_millis(50),
            },
            line_with_segment(
                2,
                10_020,
                11_020,
                9_000,
                Some(12_000),
                LaneKind::custom("sidecar"),
            ),
        ),
        (
            MatchStrategy::ExplicitLineId,
            line_with_segment(
                1,
                99_000,
                100_000,
                99_000,
                Some(100_000),
                LaneKind::custom("sidecar"),
            ),
        ),
    ];

    for (strategy, sidecar_line) in cases {
        let primary = document(
            LaneKind::Original,
            vec![line(1, 10, LaneKind::Original, "a")],
        );
        let sidecar = document(LaneKind::custom("sidecar"), vec![sidecar_line]);
        let report = VariantAssembler::new(strategy).merge(primary, sidecar);
        let target = &report.document.tracks[0].lines[0];
        let segment = &target.lanes[1].segments[0];
        assert_eq!(segment.range, target.range, "strategy: {strategy:?}");
        assert!(
            report
                .diagnostics
                .iter()
                .any(|diagnostic| diagnostic.code == DiagnosticCode::InvalidRange),
            "strategy: {strategy:?}"
        );
    }
}

#[test]
fn keep_separate_is_lossless_and_quiet() {
    let primary = document(
        LaneKind::Original,
        vec![line(1, 1, LaneKind::Original, "a")],
    );
    let sidecar = document(
        LaneKind::custom("annotation"),
        vec![line(2, 1, LaneKind::custom("annotation"), "annotation")],
    );
    let report = VariantAssembler::new(MatchStrategy::KeepSeparate).merge(primary, sidecar);
    assert!(report.diagnostics.is_empty());
    assert_eq!(report.document.tracks.len(), 2);
}

#[test]
fn negative_tolerance_is_not_silent() {
    let primary = document(
        LaneKind::Original,
        vec![line(1, 1, LaneKind::Original, "a")],
    );
    let sidecar = document(
        LaneKind::custom("sidecar"),
        vec![line(2, 1, LaneKind::custom("sidecar"), "b")],
    );
    let report = VariantAssembler::new(MatchStrategy::TimestampTolerance {
        tolerance: LyricTime::from_millis(-1),
    })
    .merge(primary, sidecar);
    assert_eq!(report.diagnostics[0].code, DiagnosticCode::InvalidRange);
}

#[test]
fn tolerance_picks_the_single_closest_line() {
    let target = vec![
        line(1, 10, LaneKind::Original, "a"),
        line(2, 11, LaneKind::Original, "b"),
    ];
    let mut sidecar = line(3, 10, LaneKind::custom("sidecar"), "c");
    sidecar.range.start = LyricTime::from_millis(10_900);
    let strategy = MatchStrategy::TimestampTolerance { tolerance: LyricTime::from_millis(200) };
    assert_eq!(
        find_match(&target, &sidecar, strategy, 0),
        MatchResult::Found { index: 1, fuzzy_distance: Some(100_000) }
    );
    sidecar.range.start = LyricTime::from_millis(12_000);
    assert_eq!(find_match(&target, &sidecar, strategy, 0), MatchResult::Missing);
    assert_eq!(
        find_match(&target, &sidecar, MatchStrategy::Ordered, 1),
        MatchResult::Found { index: 1, fuzzy_distance: None }
    );
    assert_eq!(
        find_match(&target, &sidecar, MatchStrategy::Ordered, 2),
        MatchResult::Missing
    );
}

#[test]
fn assembling_several_sidecars_merges_each_in_turn() {
    let primary = document(
        LaneKind::Original,
        vec![line(1, 1, LaneKind::Original, "a")],
    );
    let first = document(
        LaneKind::custom("first"),
        vec![line(2, 1, LaneKind::custom("first"), "x")],
    );
    let second = document(
        LaneKind::custom("second"),
        vec![line(3, 1, LaneKind::custom("second"), "y")],
    );
    let assembler = VariantAssembler::new(MatchStrategy::ExactTimestamp);
    assert_eq!(assembler.strategy(), MatchStrategy::ExactTimestamp);
    let report = assembler.assemble(primary, vec![first, second]);
    assert!(report.diagnostics.is_empty());
    let document = report.into_document();
    assert_eq!(document.tracks.len(), 1);
    assert_eq!(document.tracks[0].lines[0].lanes.len(), 3);
    assert_eq!(document.tracks[0].lines[0].lanes[2].text.as_str(), "y");
}

#[test]
fn metadata_gaps_are_filled_from_the_sidecar() {
    let mut primary = document(LaneKind::Original, vec![line(1, 1, LaneKind::Original, "a")]);
    primary.metadata.title = Some(String::from("primary title"));
    primary.metadata.length = Some(LyricTime::from_secs(100));
    primary.duration = Some(LyricTime::from_secs(50));
    let mut sidecar = document(LaneKind::custom("sidecar"), vec![line(2, 1, LaneKind::custom("sidecar"), "b")]);
    sidecar.metadata.title = Some(String::from("sidecar title"));
    sidecar.metadata.artist = Some(String::from("sidecar artist"));
    sidecar.metadata.length = Some(LyricTime::from_secs(120));
    sidecar.metadata.unknown.push(lycoric::model::MetadataTag::new("mood", "calm"));
    sidecar.duration = Some(LyricTime::from_secs(40));
    let report = VariantAssembler::new(MatchStrategy::ExactTimestamp).merge(primary, sidecar);
    let metadata = &report.document.metadata;
    assert_eq!(metadata.title.as_deref(), Some("primary title"));
    assert_eq!(metadata.artist.as_deref(), Some("sidecar artist"));
    assert_eq!(metadata.length, Some(LyricTime::from_secs(120)));
    assert_eq!(metadata.unknown.len(), 1);
    assert_eq!(metadata.unknown[0].key.as_str(), "mood");
    assert_eq!(report.document.duration, Some(LyricTime::from_secs(50)));
}

#[test]
fn an_inverted_target_line_collapses_its_segments_to_its_start() {
    let mut target_line = line(1, 10, LaneKind::Original, "a");
    target_line.range.end = Some(LyricTime::from_secs(9));
    let primary = document(LaneKind::Original, vec![target_line]);
    let sidecar = document(
        LaneKind::custom("sidecar"),
        vec![line_with_segment(2, 10_000, 11_000, 10_200, Some(10_500), LaneKind::custom("sidecar"))],
    );
    let report = VariantAssembler::new(MatchStrategy::ExactTimestamp).merge(primary, sidecar);
    let segment = &report.document.tracks[0].lines[0].lanes[1].segments[0];
    assert_eq!(segment.range.start, LyricTime::from_secs(10));
    assert_eq!(segment.range.end, Some(LyricTime::from_secs(10)));
    assert_eq!(report.diagnostics.len(), 2);
    assert!(report.diagnostics.iter().all(|diagnostic| diagnostic.code == DiagnosticCode::InvalidRange));
}

#[test]
fn ordered_shift_that_overflows_is_saturated_and_reported() {
    let mut target_line = line(1, 0, LaneKind::Original, "a");
    target_line.range = TimeRange::new(LyricTime::max_value(), None);
    let primary = document(LaneKind::Original, vec![target_line]);
    let mut sidecar_line = line_with_segment(2, 0, 1_000, 0, Some(500), LaneKind::custom("sidecar"));
    sidecar_line.range.start = LyricTime::min_value();
    let sidecar = document(LaneKind::custom("sidecar"), vec![sidecar_line]);
    let report = VariantAssembler::new(MatchStrategy::Ordered).merge(primary, sidecar);
    assert_eq!(report.diagnostics[0].code, DiagnosticCode::TimeOverflow);
    let segment = &report.document.tracks[0].lines[0].lanes[1].segments[0];
    assert_eq!(segment.range.start, LyricTime::max_value());
    assert_eq!(segment.range.end, Some(LyricTime::max_value()));
}

#[test]
fn unmatched_lines_of_each_sidecar_track_form_tracks_in_order() {
    let primary = document(LaneKind::Original, vec![line(1, 1, LaneKind::Original, "a")]);
    let mut sidecar = document(
        LaneKind::custom("first"),
        vec![line(2, 1, LaneKind::custom("first"), "x"), line(3, 7, LaneKind::custom("first"), "y")],
    );
    sidecar.tracks.push(LyricTrack {
        language: Some(String::from("ja")),
        kind: LaneKind::custom("second"),
        lines: vec![line(4, 8, LaneKind::custom("second"), "z")],
    });
    let report = VariantAssembler::new(MatchStrategy::ExactTimestamp).merge(primary, sidecar);
    let tracks = &report.document.tracks;
    assert_eq!(tracks.len(), 3);
    assert_eq!(tracks[0].lines[0].lanes.len(), 2);
    assert_eq!(tracks[1].kind, LaneKind::custom("first"));
    assert_eq!(tracks[1].lines.len(), 1);
    assert_eq!(tracks[1].lines[0].id, LineId::new(3));
    assert_eq!(tracks[2].language.as_deref(), Some("ja"));
    assert_eq!(tracks[2].lines[0].id, LineId::new(4));
    let codes: Vec<DiagnosticCode> = report.diagnostics.iter().map(|diagnostic| diagnostic.code).collect();
    assert_eq!(codes, vec![DiagnosticCode::UnmatchedSidecarLine, DiagnosticCode::UnmatchedSidecarLine]);
}

#[test]
fn sidecar_lines_join_the_first_original_track() {
    let mut primary = document(LaneKind::custom("notes"), vec![line(1, 1, LaneKind::custom("notes"), "n")]);
    primary.tracks.push(LyricTrack {
        language: None,
        kind: LaneKind::Original,
        lines: vec![line(5, 1, LaneKind::Original, "a")],
    });
    let sidecar = document(LaneKind::custom("sidecar"), vec![line(6, 1, LaneKind::custom("sidecar"), "b")]);
    let report = VariantAssembler::new(MatchStrategy::ExactTimestamp).merge(primary, sidecar);
    assert!(report.diagnostics.is_empty());
    assert_eq!(report.document.tracks[0].lines[0].lanes.len(), 1);
    assert_eq!(report.document.tracks[1].lines[0].lanes.len(), 2);
}

#[test]
fn sidecars_with_no_primary_tracks_are_kept_whole() {
    let primary = LyricsDocument { metadata: LyricsMetadata::default(), tracks: Vec::new(), duration: None };
    let sidecar = document(LaneKind::custom("sidecar"), vec![line(2, 1, LaneKind::custom("sidecar"), "b")]);
    let report = VariantAssembler::new(MatchStrategy::ExplicitLineId).merge(primary, sidecar);
    assert!(report.diagnostics.is_empty());
    assert_eq!(report.document.tracks.len(), 1);
    assert_eq!(report.document.tracks[0].lines[0].id, LineId::new(2));
}

#[test]
fn an_explicit_id_shared_by_two_lines_is_ambiguous() {
    let target = vec![line(7, 1, LaneKind::Original, "a"), line(7, 2, LaneKind::Original, "b")];
    let sidecar = line(7, 5, LaneKind::custom("sidecar"), "c");
    assert_eq!(find_match(&target, &sidecar, MatchStrategy::ExplicitLineId, 0), MatchResult::Ambiguous);
    assert_eq!(find_match(&target, &sidecar, MatchStrategy::KeepSeparate, 0), MatchResult::Missing);
    let exact = line(9, 2, LaneKind::custom("sidecar"), "d");
    assert_eq!(
        find_match(&target, &exact, MatchStrategy::TimestampTolerance { tolerance: LyricTime::from_millis(10) }, 0),
        MatchResult::Found { index: 1, fuzzy_distance: None }
    );
}

#[test]
fn assembling_one_sidecar_is_merging_it() {
    let primary = document(LaneKind::Original, vec![line(1, 1, LaneKind::Original, "a")]);
    let sidecar = document(LaneKind::custom("sidecar"), vec![line_with_segment(2, 99_000, 100_000, 99_200, Some(99_800), LaneKind::custom("sidecar"))]);
    let assembler = VariantAssembler::new(MatchStrategy::Ordered);
    let merged = assembler.merge(primary.clone(), sidecar.clone());
    let assembled = assembler.assemble(primary.clone(), vec![sidecar]);
    assert_eq!(merged.document, assembled.document);
    assert_eq!(merged.diagnostics, assembled.diagnostics);
    let nothing = assembler.assemble(primary.clone(), Vec::new());
    assert_eq!(nothing.document, primary);
    assert!(nothing.diagnostics.is_empty());
}

#[test]
fn placement_warnings_come_per_lane_in_order_with_their_messages() {
    let primary = document(LaneKind::Original, vec![line(1, 1, LaneKind::Original, "a")]);
    let sidecar = document(
        LaneKind::Original,
        vec![line_with_segment(2, 1_000, 2_000, 5_000, Some(6_000), LaneKind::Original)],
    );
    let report = VariantAssembler::new(MatchStrategy::ExactTimestamp).merge(primary, sidecar);
    let seen: Vec<(DiagnosticCode, &str)> = report
        .diagnostics
        .iter()
        .map(|diagnostic| (diagnostic.code, diagnostic.message.as_str()))
        .collect();
    assert_eq!(
        seen,
        vec![
            (DiagnosticCode::InvalidRange, "enhanced segment 0 had timing outside target line 1 and was normalized"),
            (
                DiagnosticCode::LaneConflict,
                "line 1 already contained this lane kind and language; both lanes were preserved",
            ),
        ]
    );
    assert!(report.diagnostics.iter().all(|diagnostic| diagnostic.span.is_none()));
}
