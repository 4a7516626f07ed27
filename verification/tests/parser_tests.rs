use lycoric::diagnostics::{DiagnosticCode, DiagnosticSeverity, SourceSpan};
use lycoric::model::{LaneKind, LineId, LyricLane, LyricLine, LyricsDocument, TimedSegment};
use lycoric::parser::lrc::{LrcParser, ParsedLine};
use lycoric::parser::timestamp::{parse_timestamp, TimestampError};
use lycoric::parser::{parse_lrc, ParseMode, ParseOptions};
use lycoric::time::{LyricTime, TimeRange};

fn document(input: &str) -> LyricsDocument {
    parse_lrc(input, &ParseOptions::default())
        .document
        .expect("lenient parsing should return a document")
}

#[test]
fn parses_metadata_bom_crlf_offset_and_multiple_timestamps() {
    let report = parse_lrc(
        "\u{feff}[ar:Artist]\r\n[x-vendor:kept]\r\n[offset:-500]\r\n[00:01.00][00:02.1234567]歌\r\n",
        &ParseOptions::default(),
    );
    let document = report.document.unwrap();
    assert_eq!(document.metadata.artist.as_deref(), Some("Artist"));
    assert_eq!(document.metadata.value("x-vendor"), Some("kept"));
    assert_eq!(document.metadata.offset, LyricTime::from_millis(-500));
    assert_eq!(document.tracks[0].lines.len(), 2);
    assert_eq!(
        document.tracks[0].lines[0].range.start,
        LyricTime::from_micros(500_000)
    );
    assert_eq!(
        document.tracks[0].lines[1].range.start,
        LyricTime::from_micros(1_623_456)
    );
    assert!(
        report
            .diagnostics
            .iter()
            .any(|diagnostic| diagnostic.code == DiagnosticCode::UnknownMetadata)
    );
}

#[test]
fn parses_inline_voice_wrappers_and_preserves_enhanced_overlap() {
    let source = "[00:38.000][v1:<00:38.000>Main <00:38.120>vocal <00:38.360>here]\n\
                  [00:38.200][bg:<00:38.200>la <00:38.300>la <00:38.500>la]\n\
                  [00:39.000]next";
    let document = document(source);
    let lines = &document.tracks[0].lines;

    assert_eq!(lines[0].lanes[0].text.as_str(), "Main vocal here");
    assert_eq!(lines[1].lanes[0].text.as_str(), "la la la");
    assert_eq!(lines[0].range.end, Some(LyricTime::from_millis(38_360)));
    assert!(lines[0].range.end.unwrap() > lines[1].range.start);
}

#[test]
fn parses_enhanced_segments_with_utf8_byte_ranges() {
    let document = document("[00:10.00]<00:10.00>Hello <00:10.50>世界\n[00:12]next");
    let line = &document.tracks[0].lines[0];
    let lane = &line.lanes[0];
    assert_eq!(lane.text.as_str(), "Hello 世界");
    assert_eq!(&lane.text[lane.segments[0].text_range.clone()], "Hello ");
    assert_eq!(&lane.text[lane.segments[1].text_range.clone()], "世界");
    assert_eq!(
        lane.segments[0].range.end,
        Some(LyricTime::from_millis(10_500))
    );
    assert_eq!(lane.segments[1].range.end, Some(LyricTime::from_secs(12)));
    assert!(lane.has_valid_text_ranges());
}

#[test]
fn shifts_enhanced_segments_for_repeated_line_timestamps() {
    let document = document("[00:10][00:20]<00:10>one <00:11>two\n[00:30]end");
    let repeated = &document.tracks[0].lines[1].lanes[0].segments;
    assert_eq!(repeated[0].range.start, LyricTime::from_secs(20));
    assert_eq!(repeated[1].range.start, LyricTime::from_secs(21));
}

#[test]
fn duplicate_lines_share_the_next_strictly_later_end() {
    let document = document("[00:01]a\n[00:01]b\n[00:02]c");
    let lines = &document.tracks[0].lines;
    assert_eq!(lines[0].range.end, Some(LyricTime::from_secs(2)));
    assert_eq!(lines[1].range.end, Some(LyricTime::from_secs(2)));
    assert_eq!(lines[2].range.end, Some(LyricTime::from_secs(7)));
}

#[test]
fn media_duration_precedes_last_line_fallback() {
    let options = ParseOptions {
        media_duration: Some(LyricTime::from_secs(9)),
        ..ParseOptions::default()
    };
    let report = parse_lrc("[00:01]a", &options);
    assert_eq!(
        report.document.unwrap().tracks[0].lines[0].range.end,
        Some(LyricTime::from_secs(9))
    );
}

#[test]
fn lenient_mode_repairs_order_but_strict_mode_rejects_it() {
    let input = "[00:02]later\n[00:01]earlier";
    let lenient = parse_lrc(input, &ParseOptions::lenient());
    let lines = &lenient.document.unwrap().tracks[0].lines;
    assert_eq!(lines[0].lanes[0].text.as_str(), "earlier");
    assert!(
        lenient
            .diagnostics
            .iter()
            .any(|diagnostic| diagnostic.code == DiagnosticCode::OutOfOrderTimestamp)
    );

    let strict = parse_lrc(input, &ParseOptions::strict());
    assert!(strict.document.is_none());
    assert!(strict.has_errors());
    assert!(strict.diagnostics[0].span.is_some());
}

#[test]
fn malformed_enhanced_tags_are_preserved_in_lenient_text() {
    let report = parse_lrc("[00:01]a<00:x>b<c><00:02\n", &ParseOptions::lenient());
    let document = report.document.unwrap();
    assert_eq!(
        document.tracks[0].lines[0].lanes[0].text.as_str(),
        "a<00:x>b<c><00:02"
    );
    assert!(
        report
            .diagnostics
            .iter()
            .any(|diagnostic| diagnostic.code == DiagnosticCode::MalformedTag)
    );
}

#[test]
fn metadata_followed_by_unstamped_text_is_diagnosed() {
    let report = parse_lrc("[ar:Artist]unexpected", &ParseOptions::strict());
    assert!(report.document.is_none());
    assert!(
        report
            .diagnostics
            .iter()
            .any(|diagnostic| diagnostic.code == DiagnosticCode::MissingTimestamp)
    );
}

#[test]
fn strict_mode_allows_reused_timestamps_to_cross_later_source_lines() {
    let report = parse_lrc("[00:10][01:10]reused\n[00:20]next", &ParseOptions::strict());
    assert!(report.document.is_some());
    assert!(
        report
            .diagnostics
            .iter()
            .all(|diagnostic| diagnostic.code != DiagnosticCode::OutOfOrderTimestamp)
    );
    let starts: Vec<_> = report.document.unwrap().tracks[0]
        .lines
        .iter()
        .map(|line| line.range.start)
        .collect();
    assert_eq!(
        starts,
        vec![
            LyricTime::from_secs(10),
            LyricTime::from_secs(20),
            LyricTime::from_secs(70),
        ]
    );
}

#[test]
fn strict_mode_rejects_backwards_timestamps_within_one_source_line() {
    let report = parse_lrc("[00:20][00:10]bad", &ParseOptions::strict());
    assert!(report.document.is_none());
    assert!(report.diagnostics.iter().any(|diagnostic| {
        diagnostic.code == DiagnosticCode::OutOfOrderTimestamp
            && diagnostic.message.contains("same source line")
    }));
}

#[test]
fn invalid_media_duration_falls_back_to_valid_length_metadata() {
    let mut options = ParseOptions::lenient();
    options.media_duration = Some(LyricTime::from_secs(-1));
    let report = parse_lrc("[length:00:08]\n[00:01]line", &options);
    let document = report.document.unwrap();
    assert_eq!(document.duration, Some(LyricTime::from_secs(8)));
    assert_eq!(
        document.tracks[0].lines[0].range.end,
        Some(LyricTime::from_secs(8))
    );
    assert!(
        report
            .diagnostics
            .iter()
            .any(|diagnostic| diagnostic.code == DiagnosticCode::InvalidRange)
    );
}

#[test]
fn lenient_document_duration_covers_inferred_line_ends() {
    let mut options = ParseOptions::lenient();
    options.media_duration = Some(LyricTime::from_secs(2));
    let report = parse_lrc("[00:10]late", &options);
    let document = report.document.unwrap();
    assert_eq!(
        document.tracks[0].lines[0].range.end,
        Some(LyricTime::from_secs(15))
    );
    assert_eq!(document.duration, Some(LyricTime::from_secs(15)));
}

#[test]
fn parser_normalization_diagnoses_and_repairs_lane_segment_overlap() {
    let options = ParseOptions::lenient();
    let mut parser = LrcParser::new(&options);
    let span = SourceSpan::at(1, 1, 0, 1);
    let mut lines = vec![ParsedLine {
        line: LyricLine {
            id: LineId::new(0),
            range: TimeRange::new(LyricTime::from_secs(1), Some(LyricTime::from_secs(4))),
            lanes: vec![LyricLane {
                kind: LaneKind::Original,
                language: None,
                text: String::from("ab"),
                segments: vec![
                    TimedSegment {
                        range: TimeRange::new(
                            LyricTime::from_secs(1),
                            Some(LyricTime::from_secs(3)),
                        ),
                        text_range: 0..1,
                    },
                    TimedSegment {
                        range: TimeRange::new(
                            LyricTime::from_secs(2),
                            Some(LyricTime::from_secs(4)),
                        ),
                        text_range: 1..2,
                    },
                ],
            }],
        },
        source_order: 0,
        span,
    }];

    let strict_options = ParseOptions::strict();
    let mut strict_parser = LrcParser::new(&strict_options);
    let mut strict_lines = lines.clone();
    strict_parser.normalize_segment_ranges(&mut strict_lines);
    assert!(strict_parser.diagnostics.iter().any(|diagnostic| {
        diagnostic.code == DiagnosticCode::InvalidRange
            && diagnostic.severity == DiagnosticSeverity::Error
    }));

    parser.normalize_segment_ranges(&mut lines);

    assert_eq!(
        lines[0].line.lanes[0].segments[0].range.end,
        Some(LyricTime::from_secs(2))
    );
    assert!(parser.diagnostics.iter().any(|diagnostic| {
        diagnostic.code == DiagnosticCode::InvalidRange
            && diagnostic.message.contains("same lane overlapped")
    }));
}

#[test]
fn each_repair_is_recorded_once_at_the_severity_of_the_mode() {
    let span = SourceSpan::at(1, 1, 0, 1);
    let line = ParsedLine {
        line: LyricLine {
            id: LineId::new(0),
            range: TimeRange::new(LyricTime::from_secs(1), Some(LyricTime::from_secs(4))),
            lanes: vec![LyricLane {
                kind: LaneKind::Original,
                language: None,
                text: String::from("ab"),
                segments: vec![
                    TimedSegment {
                        range: TimeRange::new(LyricTime::from_secs(1), Some(LyricTime::from_secs(3))),
                        text_range: 0..1,
                    },
                    TimedSegment {
                        range: TimeRange::new(LyricTime::from_secs(2), Some(LyricTime::from_secs(4))),
                        text_range: 1..2,
                    },
                ],
            }],
        },
        source_order: 0,
        span,
    };
    for (options, severity) in [
        (ParseOptions::lenient(), DiagnosticSeverity::Warning),
        (ParseOptions::strict(), DiagnosticSeverity::Error),
    ] {
        let mut parser = LrcParser::new(&options);
        let mut lines = vec![line.clone()];
        parser.normalize_segment_ranges(&mut lines);
        assert_eq!(parser.mode(), options.mode);
        let recorded = parser.diagnostics();
        assert_eq!(recorded.len(), 1);
        assert_eq!(recorded[0].code, DiagnosticCode::InvalidRange);
        assert_eq!(recorded[0].severity, severity);
        assert_eq!(
            recorded[0].message,
            "segments in the same lane overlapped; the earlier segment was truncated"
        );
        assert_eq!(recorded[0].span, Some(span));
    }
}

#[test]
fn parse_options_assign_sidecar_lane_kind_and_language() {
    let options = ParseOptions {
        lane_kind: LaneKind::custom("annotation"),
        language: Some(String::from("en")),
        ..ParseOptions::default()
    };
    let document = parse_lrc("[00:01]note", &options).document.unwrap();
    assert_eq!(document.tracks[0].kind, LaneKind::custom("annotation"));
    assert_eq!(
        document.tracks[0].lines[0].lanes[0].language.as_deref(),
        Some("en")
    );
}

fn timestamp(text: &str) -> Result<LyricTime, TimestampError> {
    let chars: Vec<char> = text.chars().collect();
    parse_timestamp(&chars, 0, chars.len())
}

#[test]
fn timestamps_accept_minutes_seconds_and_any_fraction_length() {
    assert_eq!(timestamp("01:02"), Ok(LyricTime::from_secs(62)));
    assert_eq!(timestamp("00:01.5"), Ok(LyricTime::from_millis(1_500)));
    assert_eq!(timestamp("00:00.1234567"), Ok(LyricTime::from_micros(123_456)));
    assert_eq!(timestamp("100:00"), Ok(LyricTime::from_secs(6_000)));
    assert_eq!(timestamp("00:60"), Err(TimestampError::SecondsOutOfRange));
    assert_eq!(timestamp("0a:10"), Err(TimestampError::InvalidMinutes));
    assert_eq!(timestamp("00:1x"), Err(TimestampError::InvalidSeconds));
    assert_eq!(timestamp("00:1."), Err(TimestampError::InvalidSeconds));
    assert_eq!(timestamp("0010"), Err(TimestampError::MissingSeparator));
    assert_eq!(
        timestamp("99999999999999999999:00"),
        Err(TimestampError::Overflow)
    );
}

#[test]
fn lenient_parsing_of_empty_input_gives_an_empty_document() {
    let report = parse_lrc("", &ParseOptions::lenient());
    assert!(!report.has_errors());
    let document = report.document.unwrap();
    assert_eq!(document.tracks.len(), 1);
    assert!(document.tracks[0].lines.is_empty());
    assert_eq!(ParseOptions::default().mode, ParseMode::Lenient);
}

#[test]
fn strict_report_converts_to_its_diagnostics() {
    let report = parse_lrc("[00:20][00:10]bad", &ParseOptions::strict());
    let count = report.diagnostics.len();
    match report.into_result() {
        Ok(_) => panic!("strict parsing of backwards timestamps must fail"),
        Err(diagnostics) => assert_eq!(diagnostics.len(), count),
    }
    assert!(parse_lrc("[00:01]ok", &ParseOptions::strict()).into_result().is_ok());
}

#[test]
fn problems_are_reported_in_reading_order() {
    let report = parse_lrc("[00:02.00]a\n[00:01.00]b<00:03.x>c\n[xx]", &ParseOptions::lenient());
    let codes: Vec<DiagnosticCode> = report.diagnostics.iter().map(|diagnostic| diagnostic.code).collect();
    assert_eq!(
        codes,
        vec![
            DiagnosticCode::InvalidTimestamp,
            DiagnosticCode::OutOfOrderTimestamp,
            DiagnosticCode::MalformedTag,
        ]
    );
    assert!(report.diagnostics.iter().all(|diagnostic| diagnostic.severity == DiagnosticSeverity::Warning));
    assert!(report.document.is_some());
}

#[test]
fn strict_parsing_fails_exactly_when_a_problem_is_recorded() {
    let clean = parse_lrc("[ar:someone]\n[00:01.00]a\n[00:02.00]b", &ParseOptions::strict());
    assert!(clean.diagnostics.is_empty());
    assert!(clean.document.is_some());
    let noted = parse_lrc("[mood:calm]\n[00:01.00]a", &ParseOptions::strict());
    assert_eq!(noted.diagnostics.len(), 1);
    assert_eq!(noted.diagnostics[0].code, DiagnosticCode::UnknownMetadata);
    assert_eq!(noted.diagnostics[0].severity, DiagnosticSeverity::Warning);
    assert!(noted.document.is_some());
    let broken = parse_lrc("[offset:abc]\n[00:01.00]a", &ParseOptions::strict());
    assert_eq!(broken.diagnostics.len(), 1);
    assert_eq!(broken.diagnostics[0].code, DiagnosticCode::InvalidOffset);
    assert_eq!(broken.diagnostics[0].severity, DiagnosticSeverity::Error);
    assert!(broken.document.is_none());
}

#[test]
fn a_problem_is_reported_at_the_tag_that_caused_it() {
    let report = parse_lrc("[00:01]a\n[zz]b", &ParseOptions::lenient());
    let first = &report.diagnostics[0];
    assert_eq!(first.code, DiagnosticCode::MalformedTag);
    assert_eq!(first.message, "unrecognized LRC tag [zz]");
    let span = first.span.unwrap();
    assert_eq!((span.start.line, span.start.column, span.start.byte_offset), (2, 1, 9));
    assert_eq!((span.end.line, span.end.column, span.end.byte_offset), (2, 5, 13));
}

#[test]
fn notes_and_problems_come_in_source_order_with_their_messages() {
    let report = parse_lrc("[ar:x]\n[zz:1]\n[00:01]a\n[qq]b", &ParseOptions::lenient());
    let seen: Vec<(DiagnosticCode, &str)> = report
        .diagnostics
        .iter()
        .map(|diagnostic| (diagnostic.code, diagnostic.message.as_str()))
        .collect();
    assert_eq!(
        seen,
        vec![
            (DiagnosticCode::UnknownMetadata, "unknown metadata tag [zz:...] was preserved"),
            (DiagnosticCode::MalformedTag, "unrecognized LRC tag [qq]"),
            (DiagnosticCode::MissingTimestamp, "lyric text has no valid line timestamp"),
        ]
    );
    assert_eq!(report.diagnostics[0].severity, DiagnosticSeverity::Warning);
}
