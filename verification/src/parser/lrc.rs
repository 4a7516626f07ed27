//! The LRC parser: line and enhanced word timestamps, metadata tags and inline voice tags.

use std::ops::Range;

use vstd::prelude::*;
use vstd::string::StringExecFns;

use super::grammar::{
    length_problems, chunk_end, has_bom, length_after, line_end_of, metadata_after, metadata_problems, metadata_view, offset_after, raw_views,
    read_from, read_input, read_line, scan_tags, span_at, stamped_lines, empty_metadata, MetadataView, RawView,
    line_problems, previous_start, read_problems, tag_problems, input_problems,
};
use super::timestamp::{
    is_inline_variant_tag, looks_like_timestamp, parse_signed, parse_timestamp, signed_value, timestamp_like,
    timestamp_value, TimestampError,
};
use super::{any_error, contains_error, ParseMode, ParseOptions, ParseReport};
use crate::diagnostics::{Diagnostic, DiagnosticCode, DiagnosticSeverity, SourcePosition, SourceSpan};
use crate::model::{
    copy_text, find_known_key, lane_times_only, LaneKind, LineId, LyricLane, LyricLine, LyricTrack, LyricsDocument,
    LyricsMetadata, MetadataTag, TimedSegment,
};
use crate::text::{
    byte_len, char_width, chars_of, find_char, is_boundary, lemma_byte_len_concat,
    lemma_byte_len_push, push_range, range_is_blank, string_from_range, trim_bounds,
};
use crate::time::{fits_i64, saturate_i64, LyricTime, TimeRange};

verus! {

/// The UTF-8 length of `chars[start..end]`.
pub open spec fn bytes_between(chars: Seq<char>, start: int, end: int) -> nat {
    byte_len(chars.subrange(start, end))
}

pub proof fn lemma_bytes_split(chars: Seq<char>, a: int, b: int, c: int)
    requires
        0 <= a <= b <= c <= chars.len(),
    ensures
        bytes_between(chars, a, c) == bytes_between(chars, a, b) + bytes_between(chars, b, c),
{
    lemma_byte_len_concat(chars.subrange(a, b), chars.subrange(b, c));
    assert(chars.subrange(a, c) =~= chars.subrange(a, b) + chars.subrange(b, c));
}

pub proof fn lemma_bytes_within(chars: Seq<char>, a: int, b: int, c: int, d: int)
    requires
        0 <= a <= b <= c <= d <= chars.len(),
    ensures
        bytes_between(chars, b, c) <= bytes_between(chars, a, d),
{
    lemma_bytes_split(chars, a, b, d);
    lemma_bytes_split(chars, b, c, d);
}

pub proof fn lemma_bytes_whole(chars: Seq<char>)
    ensures
        bytes_between(chars, 0, chars.len() as int) == byte_len(chars),
{
    assert(chars.subrange(0, chars.len() as int) =~= chars);
}

/// `bytes_between(chars, start, end)`.
fn count_bytes(chars: &Vec<char>, start: usize, end: usize) -> (count: usize)
    requires
        start <= end <= chars.len(),
        bytes_between(chars@, start as int, end as int) <= usize::MAX,
    ensures
        count == bytes_between(chars@, start as int, end as int),
{
    let mut count: usize = 0;
    let mut i = start;
    while i < end
        invariant
            start <= i <= end <= chars.len(),
            bytes_between(chars@, start as int, end as int) <= usize::MAX,
            count == bytes_between(chars@, start as int, i as int),
        decreases end - i,
    {
        proof {
            lemma_bytes_split(chars@, start as int, i + 1, end as int);
            assert(chars@.subrange(start as int, i + 1) =~= chars@.subrange(start as int, i as int).push(chars@[i as int]));
            lemma_byte_len_push(chars@.subrange(start as int, i as int), chars@[i as int]);
        }
        count = count + char_width(chars[i]);
        i += 1;
    }
    count
}

/// Appends `chars[start..end]` to `text`, whose UTF-8 length is `bytes`; returns the new length.
fn push_counting(text: &mut String, bytes: usize, chars: &Vec<char>, start: usize, end: usize) -> (total: usize)
    requires
        start <= end <= chars.len(),
        bytes == byte_len(old(text)@),
        bytes + bytes_between(chars@, start as int, end as int) <= usize::MAX,
    ensures
        final(text)@ == old(text)@ + chars@.subrange(start as int, end as int),
        total == byte_len(final(text)@),
        total == bytes + bytes_between(chars@, start as int, end as int),
{
    let added = count_bytes(chars, start, end);
    push_range(text, chars, start, end);
    proof {
        lemma_byte_len_concat(old(text)@, chars@.subrange(start as int, end as int));
    }
    bytes + added
}

/// A byte range that names a span of `text`.
pub open spec fn range_in_text(text: Seq<char>, range: Range<usize>) -> bool {
    &&& range.start <= range.end
    &&& range.end <= byte_len(text)
    &&& is_boundary(text, range.start as int)
    &&& is_boundary(text, range.end as int)
}

/// A boundary of a prefix stays a boundary of the whole text.
pub proof fn lemma_boundary_extends(text: Seq<char>, more: Seq<char>, offset: int)
    requires
        is_boundary(text, offset),
    ensures
        is_boundary(text + more, offset),
{
    let k = choose|k: int| 0 <= k <= text.len() && #[trigger] byte_len(text.take(k)) == offset;
    assert((text + more).take(k) =~= text.take(k));
}

pub proof fn lemma_boundary_end(text: Seq<char>)
    ensures
        is_boundary(text, byte_len(text) as int),
{
    assert(text.take(text.len() as int) =~= text);
}

pub proof fn lemma_boundary_zero(text: Seq<char>)
    ensures
        is_boundary(text, 0),
{
    assert(text.take(0) =~= Seq::<char>::empty());
    assert(byte_len(text.take(0)) == 0);
}

/// A segment of a lane before its times are shifted: optional start and end and a byte
/// range of the lane's text.
#[derive(Debug)]
pub struct RawSegment {
    pub start: Option<LyricTime>,
    pub end: Option<LyricTime>,
    pub text_range: Range<usize>,
}

impl Clone for RawSegment {
    fn clone(&self) -> (copy: RawSegment)
        ensures
            copy == *self,
    {
        RawSegment {
            start: self.start,
            end: self.end,
            text_range: Range { start: self.text_range.start, end: self.text_range.end },
        }
    }
}

/// An enhanced word timestamp: its time and the byte length of the text before it.
pub struct WordMarker {
    pub time: LyricTime,
    pub text_offset: usize,
}

/// The segment that a marker opens: it runs to the next marker, or to the end of the text.
pub open spec fn marker_segment(markers: Seq<WordMarker>, i: int, text_len: nat) -> RawSegment {
    RawSegment {
        start: Some(markers[i].time),
        end: if i + 1 < markers.len() {
            Some(markers[i + 1].time)
        } else {
            None
        },
        text_range: Range {
            start: markers[i].text_offset,
            end: if i + 1 < markers.len() {
                markers[i + 1].text_offset
            } else {
                text_len as usize
            },
        },
    }
}

/// The segments of the markers `markers[..count]`: those with some text.
pub open spec fn marker_segments(markers: Seq<WordMarker>, count: int, text_len: nat) -> Seq<RawSegment>
    decreases count,
{
    if count <= 0 {
        Seq::empty()
    } else {
        let earlier = marker_segments(markers, count - 1, text_len);
        let segment = marker_segment(markers, count - 1, text_len);
        if segment.text_range.start < segment.text_range.end {
            earlier.push(segment)
        } else {
            earlier
        }
    }
}

/// The segments of a marked-up line: an untimed lead-in before the first marker when
/// there is text there, then one segment per marker that has text.
pub open spec fn segments_of_markers(markers: Seq<WordMarker>, text_len: nat) -> Seq<RawSegment> {
    if markers.len() == 0 {
        Seq::empty()
    } else {
        let lead = if markers[0].text_offset > 0 {
            seq![RawSegment {
                start: None,
                end: Some(markers[0].time),
                text_range: Range { start: 0, end: markers[0].text_offset },
            }]
        } else {
            Seq::empty()
        };
        lead + marker_segments(markers, markers.len() as int, text_len)
    }
}

/// Markers whose offsets do not decrease, each at most `text_len`.
pub open spec fn markers_ordered(markers: Seq<WordMarker>, text_len: nat) -> bool {
    &&& forall|i: int, j: int|
        0 <= i <= j < markers.len() ==> markers[i].text_offset <= markers[j].text_offset
    &&& forall|i: int| 0 <= i < markers.len() ==> markers[i].text_offset <= text_len
}

proof fn lemma_marker_segments_len(markers: Seq<WordMarker>, count: int, text_len: nat)
    ensures
        marker_segments(markers, count, text_len).len() <= if count < 0 {
            0
        } else {
            count
        },
    decreases count,
{
    if count > 0 {
        lemma_marker_segments_len(markers, count - 1, text_len);
    }
}

/// `segments_of_markers(markers, text_len)`.
pub fn segments_from_markers(markers: &Vec<WordMarker>, text_len: usize) -> (segments: Vec<RawSegment>)
    ensures
        segments@ == segments_of_markers(markers@, text_len as nat),
{
    let mut segments: Vec<RawSegment> = Vec::new();
    if markers.len() == 0 {
        return segments;
    }
    if markers[0].text_offset > 0 {
        segments.push(RawSegment {
            start: None,
            end: Some(markers[0].time),
            text_range: Range { start: 0, end: markers[0].text_offset },
        });
    }
    let ghost lead = segments@;
    let mut index: usize = 0;
    while index < markers.len()
        invariant
            index <= markers@.len(),
            markers@.len() > 0,
            lead == (if markers@[0].text_offset > 0 {
                seq![RawSegment {
                    start: None,
                    end: Some(markers@[0].time),
                    text_range: Range { start: 0, end: markers@[0].text_offset },
                }]
            } else {
                Seq::empty()
            }),
            segments@ == lead + marker_segments(markers@, index as int, text_len as nat),
        decreases markers.len() - index,
    {
        let marker = &markers[index];
        let text_end = if index + 1 < markers.len() {
            markers[index + 1].text_offset
        } else {
            text_len
        };
        let end = if index + 1 < markers.len() {
            Some(markers[index + 1].time)
        } else {
            None
        };
        if marker.text_offset < text_end {
            segments.push(RawSegment {
                start: Some(marker.time),
                end,
                text_range: Range { start: marker.text_offset, end: text_end },
            });
        }
        proof {
            assert(marker_segment(markers@, index as int, text_len as nat).text_range.end == text_end);
        }
        index += 1;
        proof {
            assert(segments@ =~= lead + marker_segments(markers@, index as int, text_len as nat));
        }
    }
    segments
}

/// Every segment of `segments` names a span of `text`.
pub open spec fn segments_in_text(text: Seq<char>, segments: Seq<RawSegment>) -> bool {
    forall|i: int| 0 <= i < segments.len() ==> range_in_text(text, #[trigger] segments[i].text_range)
}

proof fn lemma_marker_segments_in_text(markers: Seq<WordMarker>, count: int, text: Seq<char>)
    requires
        count <= markers.len(),
        markers_ordered(markers, byte_len(text)),
        forall|i: int| 0 <= i < markers.len() ==> is_boundary(text, #[trigger] markers[i].text_offset as int),
        byte_len(text) <= usize::MAX,
    ensures
        segments_in_text(text, marker_segments(markers, count, byte_len(text))),
    decreases count,
{
    if count > 0 {
        lemma_marker_segments_in_text(markers, count - 1, text);
        let segment = marker_segment(markers, count - 1, byte_len(text));
        lemma_boundary_end(text);
        assert(is_boundary(text, markers[count - 1].text_offset as int));
        if count < markers.len() {
            assert(is_boundary(text, markers[count].text_offset as int));
        }
        assert(range_in_text(text, segment.text_range) || segment.text_range.start >= segment.text_range.end);
        let earlier = marker_segments(markers, count - 1, byte_len(text));
        if segment.text_range.start < segment.text_range.end {
            assert forall|i: int| 0 <= i < earlier.push(segment).len() implies range_in_text(
                text,
                #[trigger] earlier.push(segment)[i].text_range,
            ) by {
                if i < earlier.len() {
                    assert(earlier.push(segment)[i] == earlier[i]);
                }
            }
        }
    }
}

/// The segments of ordered markers at boundaries of `text` name spans of `text`.
pub proof fn lemma_segments_in_text(markers: Seq<WordMarker>, text: Seq<char>)
    requires
        markers_ordered(markers, byte_len(text)),
        forall|i: int| 0 <= i < markers.len() ==> is_boundary(text, #[trigger] markers[i].text_offset as int),
        byte_len(text) <= usize::MAX,
    ensures
        segments_in_text(text, segments_of_markers(markers, byte_len(text))),
{
    if markers.len() > 0 {
        lemma_marker_segments_in_text(markers, markers.len() as int, text);
        lemma_boundary_zero(text);
        assert(is_boundary(text, markers[0].text_offset as int));
        let lead = if markers[0].text_offset > 0 {
            seq![RawSegment {
                start: None,
                end: Some(markers[0].time),
                text_range: Range { start: 0, end: markers[0].text_offset },
            }]
        } else {
            Seq::empty()
        };
        let rest = marker_segments(markers, markers.len() as int, byte_len(text));
        assert forall|i: int| 0 <= i < (lead + rest).len() implies range_in_text(
            text,
            #[trigger] (lead + rest)[i].text_range,
        ) by {
            if i < lead.len() {
                assert((lead + rest)[i] == lead[i]);
            } else {
                assert((lead + rest)[i] == rest[i - lead.len()]);
            }
        }
    }
}


/// The marker an enhanced word timestamp at `time` adds after `text`: a timestamp earlier
/// than the previous marker is clamped to it.
pub open spec fn next_marker(markers: Seq<WordMarker>, time: LyricTime, text: Seq<char>) -> WordMarker {
    WordMarker {
        time: if markers.len() > 0 && time.0 < markers.last().time.0 {
            markers.last().time
        } else {
            time
        },
        text_offset: byte_len(text) as usize,
    }
}

/// The text and markers of `chars[cursor..end]` scanned after `text` and `markers`: text
/// outside angle brackets is kept; a bracketed timestamp becomes a marker; any other
/// bracketed run, or an unclosed bracket and the rest of the body, stays in the text.
pub open spec fn scan_body(chars: Seq<char>, cursor: int, end: int, text: Seq<char>, markers: Seq<WordMarker>) -> (Seq<char>, Seq<WordMarker>)
    decreases end - cursor,
{
    if cursor >= end || cursor < 0 || end > chars.len() {
        (text, markers)
    } else {
        match crate::text::find_from(chars, '<', cursor, end) {
            None => (text + chars.subrange(cursor, end), markers),
            Some(open) => {
                let before = text + chars.subrange(cursor, open);
                match crate::text::find_from(chars, '>', open + 1, end) {
                    None => (before + chars.subrange(open, end), markers),
                    Some(close) => if close + 1 <= cursor || close + 1 > end {
                        (text, markers)
                    } else {
                        match super::timestamp::timestamp_value(chars.subrange(open + 1, close)) {
                            Ok(value) => scan_body(
                                chars,
                                close + 1,
                                end,
                                before,
                                markers.push(next_marker(markers, LyricTime(value as i64), before)),
                            ),
                            Err(_) => scan_body(chars, close + 1, end, before + chars.subrange(open, close + 1), markers),
                        }
                    },
                }
            },
        }
    }
}

/// A recorded problem, or a note on a kept metadata tag: its kind, its message, and where in
/// the source it lies.
pub type Problem = (DiagnosticCode, Seq<char>, Option<SourceSpan>);

/// The problem of kind `code` with `message` at `span` when `problem` holds, else none.
pub open spec fn mark(problem: bool, code: DiagnosticCode, message: Seq<char>, span: Option<SourceSpan>) -> Seq<Problem> {
    if problem {
        seq![(code, message, span)]
    } else {
        Seq::empty()
    }
}

/// The problems scanning `chars[cursor..end]` after `text` and `markers` records: an
/// enhanced word timestamp earlier than the one before it, a bracketed run that looks like
/// a timestamp but is none, and an unclosed bracket whose rest looks like a timestamp.
pub open spec fn body_problems(
    chars: Seq<char>,
    source: SourceLine,
    line_start: int,
    cursor: int,
    end: int,
    text: Seq<char>,
    markers: Seq<WordMarker>,
) -> Seq<Problem>
    decreases end - cursor,
{
    if cursor >= end || cursor < 0 || end > chars.len() {
        Seq::empty()
    } else {
        match crate::text::find_from(chars, '<', cursor, end) {
            None => Seq::empty(),
            Some(open) => {
                let before = text + chars.subrange(cursor, open);
                match crate::text::find_from(chars, '>', open + 1, end) {
                    None => mark(
                        timestamp_like(chars.subrange(open + 1, end)),
                        DiagnosticCode::MalformedTag,
                        "unclosed enhanced word timestamp"@,
                        Some(span_at(source, chars, line_start, open, end)),
                    ),
                    Some(close) => if close + 1 <= cursor || close + 1 > end {
                        Seq::empty()
                    } else {
                        match timestamp_value(chars.subrange(open + 1, close)) {
                            Ok(value) => mark(
                                markers.len() > 0 && value < markers.last().time.0,
                                DiagnosticCode::OutOfOrderTimestamp,
                                "enhanced word timestamp moved backwards and was clamped"@,
                                Some(span_at(source, chars, line_start, open, close + 1)),
                            ) + body_problems(
                                chars,
                                source,
                                line_start,
                                close + 1,
                                end,
                                before,
                                markers.push(next_marker(markers, LyricTime(value as i64), before)),
                            ),
                            Err(error) => mark(
                                timestamp_like(chars.subrange(open + 1, close)),
                                DiagnosticCode::InvalidTimestamp,
                                "invalid enhanced word timestamp: "@ + error.message_text(),
                                Some(span_at(source, chars, line_start, open, close + 1)),
                            ) + body_problems(
                                chars,
                                source,
                                line_start,
                                close + 1,
                                end,
                                before + chars.subrange(open, close + 1),
                                markers,
                            ),
                        }
                    },
                }
            },
        }
    }
}

/// The problems of the first `n` timestamps of a source line: one for each that is earlier
/// than the one before.
pub open spec fn backward_steps(stamps: Seq<(LyricTime, SourceSpan)>, n: int) -> Seq<Problem>
    decreases n,
{
    if n <= 1 || n > stamps.len() {
        Seq::empty()
    } else {
        backward_steps(stamps, n - 1) + mark(
            stamps[n - 1].0.0 < stamps[n - 2].0.0,
            DiagnosticCode::OutOfOrderTimestamp,
            "timestamps on the same source line moved backwards; lines were stably sorted"@,
            Some(stamps[n - 1].1),
        )
    }
}

/// The problems the order of a source line's timestamps records: a first timestamp earlier
/// than the first of the previous timestamped line, and each timestamp earlier than the one
/// before it.
pub open spec fn order_problems(stamps: Seq<(LyricTime, SourceSpan)>, previous: Option<LyricTime>) -> Seq<Problem> {
    mark(
        stamps.len() > 0 && (previous matches Some(p) && stamps[0].0.0 < p.0),
        DiagnosticCode::OutOfOrderTimestamp,
        "source line timestamp moved backwards; lines were stably sorted"@,
        Some(stamps[0].1),
    ) + backward_steps(stamps, stamps.len() as int)
}

/// The text and segments of the body `chars[start..end]` of a line.
pub open spec fn scanned_body(chars: Seq<char>, start: int, end: int) -> (Seq<char>, Seq<RawSegment>) {
    let (text, markers) = scan_body(chars, start, end, Seq::empty(), Seq::empty());
    (text, segments_of_markers(markers, byte_len(text)))
}

/// Where a source line starts: its 1-based number and the byte offset of its first byte.
#[derive(Clone, Copy, Debug)]
pub struct SourceLine {
    pub number: usize,
    pub byte_offset: usize,
}

/// A line of `chars` whose spans can be measured without overflow.
pub open spec fn line_fits(chars: Seq<char>, source: SourceLine, line_start: int, line_end: int) -> bool {
    &&& 0 <= line_start <= line_end <= chars.len()
    &&& chars.len() < usize::MAX
    &&& source.byte_offset + bytes_between(chars, line_start, line_end) <= usize::MAX
}

impl SourceLine {
    /// The span of `chars[start..end]` on the line that starts at `line_start`: columns
    /// count characters from one, byte offsets count from the start of the input.
    pub fn span(self, chars: &Vec<char>, line_start: usize, line_end: usize, start: usize, end: usize) -> (span: SourceSpan)
        requires
            line_fits(chars@, self, line_start as int, line_end as int),
            line_start <= start <= end <= line_end,
        ensures
            span.start.line == self.number,
            span.end.line == self.number,
            span.start.column == start - line_start + 1,
            span.end.column == end - line_start + 1,
            span.start.byte_offset == self.byte_offset + bytes_between(chars@, line_start as int, start as int),
            span.end.byte_offset == self.byte_offset + bytes_between(chars@, line_start as int, end as int),
            span == span_at(self, chars@, line_start as int, start as int, end as int),
    {
        proof {
            lemma_bytes_within(chars@, line_start as int, line_start as int, start as int, line_end as int);
            lemma_bytes_within(chars@, line_start as int, line_start as int, end as int, line_end as int);
        }
        let start_bytes = count_bytes(chars, line_start, start);
        let end_bytes = count_bytes(chars, line_start, end);
        SourceSpan::new(
            SourcePosition::new(self.number, start - line_start + 1, self.byte_offset + start_bytes),
            SourcePosition::new(self.number, end - line_start + 1, self.byte_offset + end_bytes),
        )
    }
}

/// A timestamped source line before times are shifted and lines are sorted.
pub struct RawLine {
    pub id: LineId,
    pub start: LyricTime,
    pub reference_start: LyricTime,
    pub text: String,
    pub segments: Vec<RawSegment>,
    pub source_order: usize,
    pub span: SourceSpan,
}

/// A parsed line with the position of its timestamp in the source.
#[derive(Clone, Debug)]
pub struct ParsedLine {
    pub line: LyricLine,
    pub source_order: usize,
    pub span: SourceSpan,
}

/// The severity of a recovered problem: an error when parsing strictly, else a warning.
pub open spec fn severity_for(mode: ParseMode) -> DiagnosticSeverity {
    match mode {
        ParseMode::Strict => DiagnosticSeverity::Error,
        ParseMode::Lenient => DiagnosticSeverity::Warning,
    }
}

/// The kind, message and place of each of `diagnostics`, in order.
pub open spec fn diagnostic_marks(diagnostics: Seq<Diagnostic>) -> Seq<Problem>
    decreases diagnostics.len(),
{
    if diagnostics.len() == 0 {
        Seq::empty()
    } else {
        diagnostic_marks(diagnostics.drop_last()).push(
            (diagnostics.last().code, diagnostics.last().message@, diagnostics.last().span),
        )
    }
}

/// Whether `marks` hold a problem: anything but a note on an unknown metadata tag.
pub open spec fn records_problem(marks: Seq<Problem>) -> bool {
    exists|i: int| 0 <= i < marks.len() && (#[trigger] marks[i]).0 != DiagnosticCode::UnknownMetadata
}

/// How many of `diagnostics` note an unknown metadata tag.
pub open spec fn note_count(diagnostics: Seq<Diagnostic>) -> int
    decreases diagnostics.len(),
{
    if diagnostics.len() == 0 {
        0
    } else {
        note_count(diagnostics.drop_last()) + if diagnostics.last().code == DiagnosticCode::UnknownMetadata {
            1int
        } else {
            0int
        }
    }
}

pub proof fn lemma_diagnostic_marks_push(diagnostics: Seq<Diagnostic>, diagnostic: Diagnostic)
    ensures
        diagnostic_marks(diagnostics.push(diagnostic)) == diagnostic_marks(diagnostics).push(
            (diagnostic.code, diagnostic.message@, diagnostic.span),
        ),
        note_count(diagnostics.push(diagnostic)) == note_count(diagnostics) + if diagnostic.code
            == DiagnosticCode::UnknownMetadata {
            1int
        } else {
            0int
        },
{
    assert(diagnostics.push(diagnostic).drop_last() =~= diagnostics);
}

/// Every diagnostic has its mark.
pub proof fn lemma_marks_len(diagnostics: Seq<Diagnostic>)
    ensures
        diagnostics.len() == diagnostic_marks(diagnostics).len(),
        forall|i: int|
            0 <= i < diagnostics.len() ==> #[trigger] diagnostic_marks(diagnostics)[i] == (
                diagnostics[i].code,
                diagnostics[i].message@,
                diagnostics[i].span,
            ),
    decreases diagnostics.len(),
{
    if diagnostics.len() > 0 {
        lemma_marks_len(diagnostics.drop_last());
        assert forall|i: int| 0 <= i < diagnostics.len() implies #[trigger] diagnostic_marks(diagnostics)[i] == (
            diagnostics[i].code,
            diagnostics[i].message@,
            diagnostics[i].span,
        ) by {
            if i < diagnostics.len() - 1 {
                assert(diagnostics.drop_last()[i] == diagnostics[i]);
            }
        }
    }
}

/// The state of one run of the LRC parser.
pub struct LrcParser {
    mode: ParseMode,
    lane_kind: LaneKind,
    language: Option<String>,
    media_duration: Option<LyricTime>,
    fallback_duration: Option<LyricTime>,
    pub diagnostics: Vec<Diagnostic>,
    metadata: LyricsMetadata,
    raw_lines: Vec<RawLine>,
    next_line_id: u64,
    source_order: usize,
    previous_source_start: Option<LyricTime>,
}

impl LrcParser {
    /// Only strict parsing reports errors.
    pub closed spec fn severities_ok(self) -> bool {
        forall|i: int|
            0 <= i < self.diagnostics@.len() ==> (#[trigger] self.diagnostics@[i]).severity == if self.diagnostics@[i].code
                == DiagnosticCode::UnknownMetadata {
                DiagnosticSeverity::Warning
            } else {
                severity_for(self.mode)
            }
    }

    /// The parser's options.
    pub closed spec fn settings(self) -> (ParseMode, LaneKind, Option<String>, Option<LyricTime>, Option<LyricTime>) {
        (self.mode, self.lane_kind, self.language, self.media_duration, self.fallback_duration)
    }

    /// The raw lines are numbered in source order and their segments name spans of their text.
    pub closed spec fn lines_ok(self) -> bool {
        &&& self.next_line_id == self.raw_lines@.len()
        &&& self.source_order == self.raw_lines@.len()
        &&& forall|k: int|
            0 <= k < self.raw_lines@.len() ==> {
                &&& (#[trigger] self.raw_lines@[k]).source_order == k
                &&& self.raw_lines@[k].id.0 == k
                &&& segments_in_text(self.raw_lines@[k].text@, self.raw_lines@[k].segments@)
            }
    }

    /// Nothing has been read yet.
    pub closed spec fn unread(self) -> bool {
        &&& self.raw_lines@.len() == 0
        &&& self.metadata.is_empty()
        &&& self.previous_source_start is None
        &&& self.diagnostics@.len() == 0
    }

    /// The diagnostics recorded so far.
    pub closed spec fn reported(self) -> Seq<Diagnostic> {
        self.diagnostics@
    }

    pub closed spec fn wf(self) -> bool {
        &&& self.severities_ok()
        &&& self.lines_ok()
        &&& note_count(self.diagnostics@) == self.metadata.unknown@.len()
    }

    /// The diagnostics recorded so far.
    pub fn diagnostics(&self) -> (recorded: &Vec<Diagnostic>)
        ensures
            recorded@ == self.reported(),
    {
        &self.diagnostics
    }

    /// The mode this parser reads in.
    pub fn mode(&self) -> (mode: ParseMode)
        ensures
            mode == self.settings().0,
    {
        self.mode
    }

    pub fn new(options: &ParseOptions) -> (parser: LrcParser)
        ensures
            parser.wf(),
            parser.settings() == (
                options.mode,
                options.lane_kind,
                options.language,
                options.media_duration,
                options.fallback_duration,
            ),
            parser.reported().len() == 0,
            parser.unread(),
    {
        LrcParser {
            mode: options.mode,
            lane_kind: options.lane_kind.clone(),
            language: copy_text(&options.language),
            media_duration: options.media_duration,
            fallback_duration: options.fallback_duration,
            diagnostics: Vec::new(),
            metadata: LyricsMetadata::empty(),
            raw_lines: Vec::new(),
            next_line_id: 0,
            source_order: 0,
            previous_source_start: None,
        }
    }

    /// Records a problem: an error when parsing strictly, else a warning.
    fn recover(&mut self, code: DiagnosticCode, message: String, span: Option<SourceSpan>)
        requires
            old(self).wf(),
            code != DiagnosticCode::UnknownMetadata,
        ensures
            diagnostic_marks(final(self).diagnostics@) == diagnostic_marks(old(self).diagnostics@).push((code, message@, span)),
            final(self).wf(),
            final(self).settings() == old(self).settings(),
            final(self).diagnostics@ == old(self).diagnostics@.push(
                Diagnostic { severity: severity_for(old(self).mode), code, message, span },
            ),
            final(self).metadata == old(self).metadata,
            final(self).raw_lines@ == old(self).raw_lines@,
            final(self).previous_source_start == old(self).previous_source_start,
    {
        let severity = match self.mode {
            ParseMode::Strict => DiagnosticSeverity::Error,
            ParseMode::Lenient => DiagnosticSeverity::Warning,
        };
        proof {
            lemma_diagnostic_marks_push(self.diagnostics@, Diagnostic { severity, code, message, span });
        }
        self.diagnostics.push(Diagnostic { severity, code, message, span });
    }

    /// `recover` with a fixed message.
    fn recover_str(&mut self, code: DiagnosticCode, message: &str, span: Option<SourceSpan>)
        requires
            old(self).wf(),
            code != DiagnosticCode::UnknownMetadata,
        ensures
            diagnostic_marks(final(self).diagnostics@) == diagnostic_marks(old(self).diagnostics@).push((code, message@, span)),
            final(self).wf(),
            final(self).settings() == old(self).settings(),
            final(self).diagnostics@.len() == old(self).diagnostics@.len() + 1,
            final(self).diagnostics@.last().severity == severity_for(old(self).mode),
            final(self).diagnostics@.last().code == code,
            final(self).diagnostics@.last().message@ == message@,
            final(self).diagnostics@.last().span == span,
            final(self).diagnostics@.drop_last() == old(self).diagnostics@,
            final(self).metadata == old(self).metadata,
            final(self).raw_lines@ == old(self).raw_lines@,
            final(self).previous_source_start == old(self).previous_source_start,
    {
        self.recover(code, String::from_str(message), span);
        proof {
            assert(self.diagnostics@.drop_last() =~= old(self).diagnostics@);
        }
    }

    /// `time + delta`, saturated; an overflow is recorded.
    fn shift_time(&mut self, time: LyricTime, delta: LyricTime, span: SourceSpan) -> (shifted: LyricTime)
        requires
            old(self).wf(),
        ensures
            final(self).wf(),
            shifted.micros() == saturate_i64(time.micros() + delta.micros()),
            diagnostic_marks(final(self).diagnostics@) == diagnostic_marks(old(self).diagnostics@) + mark(
                !fits_i64(time.micros() + delta.micros()),
                DiagnosticCode::TimeOverflow,
                "timestamp overflowed and was saturated"@,
                Some(span),
            ),
            final(self).settings() == old(self).settings(),
            final(self).metadata == old(self).metadata,
            final(self).raw_lines@ == old(self).raw_lines@,
            final(self).previous_source_start == old(self).previous_source_start,
    {
        match time.checked_add(delta) {
            Some(shifted) => shifted,
            None => {
                self.recover_str(
                    DiagnosticCode::TimeOverflow,
                    "timestamp overflowed and was saturated",
                    Some(span),
                );
                time.saturating_add(delta)
            },
        }
    }

    /// `time` moved by the repeated-timestamp shift and then the offset; each overflow is
    /// recorded.
    fn shift_moment(&mut self, time: Option<LyricTime>, occurrence: LyricTime, offset: LyricTime, span: SourceSpan) -> (moved:
        Option<LyricTime>)
        requires
            old(self).wf(),
        ensures
            final(self).wf(),
            final(self).settings() == old(self).settings(),
            final(self).metadata == old(self).metadata,
            final(self).raw_lines@ == old(self).raw_lines@,
            final(self).previous_source_start == old(self).previous_source_start,
            diagnostic_marks(final(self).diagnostics@) == diagnostic_marks(old(self).diagnostics@) + moment_problems(
                time,
                occurrence,
                offset,
                span,
            ),
            moved == match time {
                Some(t) => Some(shifted(shifted(t, occurrence), offset)),
                None => None,
            },
    {
        match time {
            Some(t) => {
                let moved = self.shift_time(t, occurrence, span);
                Some(self.shift_time(moved, offset, span))
            },
            None => None,
        }
    }

    /// The metadata read so far is as in `other`.
    pub closed spec fn same_metadata(self, other: LrcParser) -> bool {
        self.metadata == other.metadata
    }

    /// The raw lines, the line numbering and the previous line start are as in `other`.
    pub closed spec fn same_lines(self, other: LrcParser) -> bool {
        &&& self.raw_lines@ == other.raw_lines@
        &&& self.next_line_id == other.next_line_id
        &&& self.source_order == other.source_order
        &&& self.previous_source_start == other.previous_source_start
    }

    fn parse_length(&mut self, chars: &Vec<char>, start: usize, end: usize, span: SourceSpan)
        requires
            old(self).wf(),
            start <= end <= chars.len(),
        ensures
            final(self).wf(),
            final(self).settings() == old(self).settings(),
            final(self).same_lines(*old(self)),
            metadata_view(final(self).metadata) == length_after(
                metadata_view(old(self).metadata),
                chars@.subrange(start as int, end as int),
            ),
            diagnostic_marks(final(self).diagnostics@) == diagnostic_marks(old(self).diagnostics@) + length_problems(
                chars@.subrange(start as int, end as int),
                span,
            ),
    {
        match parse_timestamp(chars, start, end) {
            Ok(length) => self.metadata.length = Some(length),
            Err(error) => {
                let mut message = String::from_str("invalid length metadata: ");
                message.append(error.message());
                self.recover(DiagnosticCode::InvalidMetadata, message, Some(span));
            },
        }
    }

    fn parse_offset(&mut self, chars: &Vec<char>, start: usize, end: usize, span: SourceSpan)
        requires
            old(self).wf(),
            start <= end <= chars.len(),
        ensures
            final(self).wf(),
            final(self).settings() == old(self).settings(),
            final(self).same_lines(*old(self)),
            metadata_view(final(self).metadata) == offset_after(
                metadata_view(old(self).metadata),
                chars@.subrange(start as int, end as int),
            ),
            diagnostic_marks(final(self).diagnostics@) == diagnostic_marks(old(self).diagnostics@) + mark(
                !(signed_value(chars@.subrange(start as int, end as int)) matches Some(millis) && fits_i64(millis * 1000)),
                DiagnosticCode::InvalidOffset,
                "offset must be a signed integer number of milliseconds"@,
                Some(span),
            ),
    {
        let offset = match parse_signed(chars, start, end) {
            Some(milliseconds) => milliseconds.checked_mul(1000),
            None => None,
        };
        match offset {
            Some(offset) => self.metadata.offset = LyricTime(offset),
            None => self.recover_str(
                DiagnosticCode::InvalidOffset,
                "offset must be a signed integer number of milliseconds",
                Some(span),
            ),
        }
    }

    /// Reads a `key:value` metadata tag held in `chars[start..end]`.
    fn parse_metadata(&mut self, chars: &Vec<char>, start: usize, end: usize, span: SourceSpan)
        requires
            old(self).wf(),
            start <= end <= chars.len(),
        ensures
            final(self).wf(),
            final(self).settings() == old(self).settings(),
            final(self).same_lines(*old(self)),
            metadata_view(final(self).metadata) == metadata_after(metadata_view(old(self).metadata), chars@, start as int, end as int),
            diagnostic_marks(final(self).diagnostics@) == diagnostic_marks(old(self).diagnostics@) + metadata_problems(
                chars@,
                start as int,
                end as int,
                span,
            ),
    {
        let colon = match find_char(chars, ':', start, end) {
            Some(colon) => colon,
            None => {
                self.recover_str(
                    DiagnosticCode::InvalidMetadata,
                    "metadata tag has no value separator",
                    Some(span),
                );
                return ;
            },
        };
        proof {
            crate::text::lemma_find_from(chars@, ':', start as int, end as int);
        }
        let (key_start, key_end) = trim_bounds(chars, start, colon);
        if key_start == key_end {
            self.recover_str(
                DiagnosticCode::InvalidMetadata,
                "metadata key cannot be empty",
                Some(span),
            );
            return ;
        }
        let (value_start, value_end) = trim_bounds(chars, colon + 1, end);
        match find_known_key(chars, key_start, key_end) {
            Some(index) => {
                let value = string_from_range(chars, value_start, value_end);
                if index == 0 {
                    self.metadata.artist = Some(value);
                } else if index == 1 {
                    self.metadata.album = Some(value);
                } else if index == 2 {
                    self.metadata.title = Some(value);
                } else if index == 3 {
                    self.metadata.author = Some(value);
                } else if index == 4 {
                    self.metadata.creator = Some(value);
                } else if index == 5 {
                    self.metadata.editor = Some(value);
                } else {
                    self.metadata.version = Some(value);
                }
            },
            None => {
                let length_word = vec!['l', 'e', 'n', 'g', 't', 'h'];
                let offset_word = vec!['o', 'f', 'f', 's', 'e', 't'];
                if crate::text::range_eq_ignore_ascii_case(chars, key_start, key_end, &length_word) {
                    self.parse_length(chars, value_start, value_end, span);
                } else if crate::text::range_eq_ignore_ascii_case(chars, key_start, key_end, &offset_word) {
                    self.parse_offset(chars, value_start, value_end, span);
                } else {
                    let key = string_from_range(chars, key_start, key_end);
                    let value = string_from_range(chars, value_start, value_end);
                    let mut message = String::from_str("unknown metadata tag [");
                    push_range(&mut message, chars, key_start, key_end);
                    message.append(":...] was preserved");
                    let ghost unknown_before = metadata_view(self.metadata).unknown;
                    self.metadata.unknown.push(MetadataTag { key, value });
                    proof {
                        assert(metadata_view(self.metadata).unknown =~= unknown_before.push((
                            chars@.subrange(key_start as int, key_end as int),
                            chars@.subrange(value_start as int, value_end as int),
                        )));
                    }
                    let note = Diagnostic {
                        severity: DiagnosticSeverity::Warning,
                        code: DiagnosticCode::UnknownMetadata,
                        message,
                        span: Some(span),
                    };
                    proof {
                        lemma_diagnostic_marks_push(self.diagnostics@, note);
                    }
                    self.diagnostics.push(note);
                }
            },
        }
    }

    /// Splits the body of a line into its text and the segments that its enhanced word
    /// timestamps (`<mm:ss.xx>`) mark; other angle-bracket tags stay in the text.
    #[verifier::rlimit(40)]
    fn scan_enhanced_text(
        &mut self,
        chars: &Vec<char>,
        body_start: usize,
        body_end: usize,
        source: SourceLine,
        line_start: usize,
        line_end: usize,
    ) -> (scanned: (String, Vec<RawSegment>))
        requires
            old(self).wf(),
            line_fits(chars@, source, line_start as int, line_end as int),
            line_start <= body_start <= body_end <= line_end,
        ensures
            final(self).wf(),
            final(self).settings() == old(self).settings(),
            final(self).same_lines(*old(self)),
            segments_in_text(scanned.0@, scanned.1@),
            byte_len(scanned.0@) <= bytes_between(chars@, body_start as int, body_end as int),
            (scanned.0@, scanned.1@) == scanned_body(chars@, body_start as int, body_end as int),
            final(self).metadata == old(self).metadata,
            diagnostic_marks(final(self).diagnostics@) == diagnostic_marks(old(self).diagnostics@) + body_problems(
                chars@,
                source,
                line_start as int,
                body_start as int,
                body_end as int,
                Seq::empty(),
                Seq::empty(),
            ),
    {
        proof {
            lemma_bytes_within(chars@, line_start as int, body_start as int, body_end as int, line_end as int);
        }
        let ghost original = *self;
        let mut text = String::new();
        let mut text_bytes: usize = 0;
        let mut markers: Vec<WordMarker> = Vec::new();
        let mut cursor = body_start;
        proof {
            assert(text@ =~= Seq::<char>::empty());
            assert(markers@ =~= Seq::<WordMarker>::empty());
        }
        while cursor < body_end
            invariant
                self.wf(),
                self.settings() == original.settings(),
                self.same_lines(original),
                line_fits(chars@, source, line_start as int, line_end as int),
                line_start <= body_start <= cursor <= body_end <= line_end,
                bytes_between(chars@, body_start as int, body_end as int) <= usize::MAX,
                text_bytes == byte_len(text@),
                text_bytes <= bytes_between(chars@, body_start as int, cursor as int),
                markers_ordered(markers@, text_bytes as nat),
                forall|i: int|
                    0 <= i < markers@.len() ==> is_boundary(text@, #[trigger] markers@[i].text_offset as int),
                scan_body(chars@, cursor as int, body_end as int, text@, markers@) == scan_body(
                    chars@,
                    body_start as int,
                    body_end as int,
                    Seq::empty(),
                    Seq::empty(),
                ),
                self.metadata == original.metadata,
                diagnostic_marks(self.diagnostics@) + body_problems(
                    chars@,
                    source,
                    line_start as int,
                    cursor as int,
                    body_end as int,
                    text@,
                    markers@,
                ) == diagnostic_marks(original.diagnostics@) + body_problems(
                    chars@,
                    source,
                    line_start as int,
                    body_start as int,
                    body_end as int,
                    Seq::empty(),
                    Seq::empty(),
                ),
            decreases body_end - cursor,
        {
            let ghost text_before = text@;
            let ghost markers_before = markers@;
            let ghost cursor_before = cursor;
            let ghost problems_before = diagnostic_marks(self.diagnostics@);
            match find_char(chars, '<', cursor, body_end) {
                None => {
                    proof {
                        lemma_bytes_split(chars@, body_start as int, cursor as int, body_end as int);
                    }
                    text_bytes = push_counting(&mut text, text_bytes, chars, cursor, body_end);
                    cursor = body_end;
                },
                Some(start) => {
                    proof {
                        crate::text::lemma_find_from(chars@, '<', cursor as int, body_end as int);
                        lemma_bytes_split(chars@, body_start as int, cursor as int, start as int);
                        lemma_bytes_within(chars@, body_start as int, body_start as int, start as int, body_end as int);
                    }
                    text_bytes = push_counting(&mut text, text_bytes, chars, cursor, start);
                    match find_char(chars, '>', start + 1, body_end) {
                        None => {
                            if looks_like_timestamp(chars, start + 1, body_end) {
                                let span = source.span(chars, line_start, line_end, start, body_end);
                                self.recover_str(
                                    DiagnosticCode::MalformedTag,
                                    "unclosed enhanced word timestamp",
                                    Some(span),
                                );
                            }
                            proof {
                                lemma_bytes_split(chars@, body_start as int, start as int, body_end as int);
                                lemma_bytes_split(chars@, body_start as int, cursor as int, start as int);
                            }
                            text_bytes = push_counting(&mut text, text_bytes, chars, start, body_end);
                            cursor = body_end;
                        },
                        Some(end) => {
                            proof {
                                crate::text::lemma_find_from(chars@, '>', start + 1, body_end as int);
                                lemma_bytes_split(chars@, body_start as int, start as int, end + 1);
                                lemma_bytes_split(chars@, body_start as int, cursor as int, start as int);
                                lemma_bytes_within(chars@, body_start as int, body_start as int, end + 1, body_end as int);
                            }
                            let span = source.span(chars, line_start, line_end, start, end + 1);
                            match parse_timestamp(chars, start + 1, end) {
                                Ok(time) => {
                                    let mut time = time;
                                    let count = markers.len();
                                    if count > 0 && time.0 < markers[count - 1].time.0 {
                                        self.recover_str(
                                            DiagnosticCode::OutOfOrderTimestamp,
                                            "enhanced word timestamp moved backwards and was clamped",
                                            Some(span),
                                        );
                                        time = markers[count - 1].time;
                                    }
                                    proof {
                                        lemma_boundary_end(text@);
                                    }
                                    markers.push(WordMarker { time, text_offset: text_bytes });
                                },
                                Err(error) => {
                                    if looks_like_timestamp(chars, start + 1, end) {
                                        let mut message = String::from_str("invalid enhanced word timestamp: ");
                                        message.append(error.message());
                                        self.recover(DiagnosticCode::InvalidTimestamp, message, Some(span));
                                    }
                                    text_bytes = push_counting(&mut text, text_bytes, chars, start, end + 1);
                                },
                            }
                            cursor = end + 1;
                        },
                    }
                },
            }
            proof {
                let more = text@.subrange(text_before.len() as int, text@.len() as int);
                assert(text@ =~= text_before + more);
                assert forall|i: int| 0 <= i < markers@.len() implies is_boundary(
                    text@,
                    #[trigger] markers@[i].text_offset as int,
                ) by {
                    if i < markers@.len() && markers@[i].text_offset as int != text_bytes as int {
                        lemma_boundary_extends(text_before, more, markers@[i].text_offset as int);
                    }
                    if markers@[i].text_offset as int == text_bytes as int {
                        lemma_boundary_end(text@);
                    }
                }
                assert(scan_body(chars@, cursor_before as int, body_end as int, text_before, markers_before)
                    == scan_body(chars@, cursor as int, body_end as int, text@, markers@));
                assert(problems_before + body_problems(
                    chars@,
                    source,
                    line_start as int,
                    cursor_before as int,
                    body_end as int,
                    text_before,
                    markers_before,
                ) == diagnostic_marks(self.diagnostics@) + body_problems(
                    chars@,
                    source,
                    line_start as int,
                    cursor as int,
                    body_end as int,
                    text@,
                    markers@,
                ));
            }
        }
        let segments = segments_from_markers(&markers, text_bytes);
        proof {
            lemma_segments_in_text(markers@, text@);
        }
        (text, segments)
    }

    /// Records lines whose timestamps on one source line moved backwards, or whose first
    /// timestamp precedes the first timestamp of the previous source line.
    fn validate_source_timestamp_order(&mut self, timestamps: &Vec<(LyricTime, SourceSpan)>)
        requires
            old(self).wf(),
            timestamps@.len() >= 1,
        ensures
            diagnostic_marks(final(self).diagnostics@) == diagnostic_marks(old(self).diagnostics@) + order_problems(
                timestamps@,
                old(self).previous_source_start,
            ),
            final(self).wf(),
            final(self).settings() == old(self).settings(),
            final(self).same_lines(*old(self)),
            final(self).metadata == old(self).metadata,
    {
        let (first, first_span) = timestamps[0];
        match self.previous_source_start {
            Some(previous) => if first.0 < previous.0 {
                self.recover_str(
                    DiagnosticCode::OutOfOrderTimestamp,
                    "source line timestamp moved backwards; lines were stably sorted",
                    Some(first_span),
                );
            },
            None => {},
        }
        let ghost original = *self;
        let ghost opening = diagnostic_marks(old(self).diagnostics@) + mark(
            old(self).previous_source_start matches Some(p) && timestamps@[0].0.0 < p.0,
            DiagnosticCode::OutOfOrderTimestamp,
            "source line timestamp moved backwards; lines were stably sorted"@,
            Some(timestamps@[0].1),
        );
        let mut i: usize = 1;
        while i < timestamps.len()
            invariant
                1 <= i <= timestamps@.len(),
                diagnostic_marks(self.diagnostics@) == opening + backward_steps(timestamps@, i as int),
                self.wf(),
                self.settings() == original.settings(),
                self.same_lines(original),
                self.metadata == original.metadata,
            decreases timestamps.len() - i,
        {
            if timestamps[i].0.0 < timestamps[i - 1].0.0 {
                self.recover_str(
                    DiagnosticCode::OutOfOrderTimestamp,
                    "timestamps on the same source line moved backwards; lines were stably sorted",
                    Some(timestamps[i].1),
                );
            }
            i += 1;
        }
    }

    /// Records one raw line per timestamp, all sharing the text and segments.
    fn push_timestamped_lines(
        &mut self,
        timestamps: Vec<(LyricTime, SourceSpan)>,
        text: String,
        segments: Vec<RawSegment>,
    )
        requires
            old(self).wf(),
            timestamps@.len() >= 1,
            segments_in_text(text@, segments@),
            old(self).raw_lines@.len() + timestamps@.len() < usize::MAX,
        ensures
            diagnostic_marks(final(self).diagnostics@) == diagnostic_marks(old(self).diagnostics@) + order_problems(
                timestamps@,
                old(self).previous_source_start,
            ),
            final(self).previous_source_start == Some(timestamps@[0].0),
            final(self).wf(),
            final(self).settings() == old(self).settings(),
            final(self).raw_lines@.len() == old(self).raw_lines@.len() + timestamps@.len(),
            final(self).metadata == old(self).metadata,
            raw_views(final(self).raw_lines@) == raw_views(old(self).raw_lines@) + stamped_lines(
                timestamps@,
                text@,
                segments@,
                old(self).raw_lines@.len() as int,
            ),
    {
        let ghost first = self.raw_lines@.len() as int;
        let ghost views_before = raw_views(self.raw_lines@);
        let reference_start = timestamps[0].0;
        self.validate_source_timestamp_order(&timestamps);
        let ghost original = *self;
        let mut i: usize = 0;
        while i < timestamps.len()
            invariant
                i <= timestamps@.len(),
                self.wf(),
                self.settings() == original.settings(),
                self.raw_lines@.len() == original.raw_lines@.len() + i,
                original.raw_lines@.len() + timestamps@.len() < usize::MAX,
                segments_in_text(text@, segments@),
                self.metadata == original.metadata,
                original.raw_lines@.len() == first,
                views_before.len() == first,
                reference_start == timestamps@[0].0,
                raw_views(self.raw_lines@) == views_before + stamped_lines(timestamps@, text@, segments@, first).take(
                    i as int,
                ),
                self.diagnostics@ == original.diagnostics@,
            decreases timestamps.len() - i,
        {
            let (start, span) = timestamps[i];
            let line_segments = segments.clone();
            proof {
                assert(line_segments@ =~= segments@);
            }
            let ghost before = self.raw_lines@;
            self.raw_lines.push(RawLine {
                id: LineId(self.next_line_id),
                start,
                reference_start,
                text: text.clone(),
                segments: line_segments,
                source_order: self.source_order,
                span,
            });
            self.next_line_id = self.next_line_id + 1;
            self.source_order = self.source_order + 1;
            proof {
                assert forall|k: int| 0 <= k < self.raw_lines@.len() implies {
                    &&& (#[trigger] self.raw_lines@[k]).source_order == k
                    &&& self.raw_lines@[k].id.0 == k
                    &&& segments_in_text(self.raw_lines@[k].text@, self.raw_lines@[k].segments@)
                } by {
                    if k < before.len() {
                        assert(self.raw_lines@[k] == before[k]);
                    }
                }
                assert(raw_views(self.raw_lines@) =~= views_before + stamped_lines(timestamps@, text@, segments@, first).take(
                    i + 1,
                )) by {
                    assert(raw_views(before) == views_before + stamped_lines(timestamps@, text@, segments@, first).take(i as int));
                    assert forall|k: int| 0 <= k < before.len() implies raw_views(self.raw_lines@)[k] == raw_views(before)[k] by {
                        assert(self.raw_lines@[k] == before[k]);
                    }
                    let n = before.len() as int;
                    assert(n == first + i);
                    let pushed = self.raw_lines@[n];
                    assert(pushed.text@ == text@);
                    assert(pushed.segments@ == segments@);
                    assert(pushed.id.0 == n);
                    assert(raw_views(self.raw_lines@)[n] == stamped_lines(timestamps@, text@, segments@, first)[i as int]);
                    let all = stamped_lines(timestamps@, text@, segments@, first);
                    let goal = views_before + all.take(i + 1);
                    assert(views_before.len() == first);
                    assert(all.len() == timestamps@.len());
                    assert(all.take(i + 1).len() == i + 1);
                    assert(goal.len() == n + 1);
                    assert forall|k: int| 0 <= k < n + 1 implies raw_views(self.raw_lines@)[k] == goal[k] by {
                        if k < n {
                            assert(raw_views(before)[k] == (views_before + all.take(i as int))[k]);
                            if k >= first {
                                assert(all.take(i as int)[k - first] == all[k - first]);
                            }
                        }
                    }
                }
            }
            i += 1;
        }
        proof {
            assert(stamped_lines(timestamps@, text@, segments@, first).take(timestamps@.len() as int)
                =~= stamped_lines(timestamps@, text@, segments@, first));
        }
        self.previous_source_start = Some(reference_start);
    }

    /// Reads one source line, `chars[line_start..line_end]`.
    #[verifier::spinoff_prover]
    #[verifier::rlimit(60)]
    fn parse_source_line(&mut self, chars: &Vec<char>, line_start: usize, line_end: usize, source: SourceLine)
        requires
            old(self).wf(),
            line_fits(chars@, source, line_start as int, line_end as int),
            old(self).raw_lines@.len() <= line_start,
            old(self).previous_source_start == previous_start(raw_views(old(self).raw_lines@)),
        ensures
            final(self).previous_source_start == previous_start(raw_views(final(self).raw_lines@)),
            diagnostic_marks(final(self).diagnostics@) == diagnostic_marks(old(self).diagnostics@) + line_problems(
                chars@,
                source,
                line_start as int,
                line_end as int,
                metadata_view(old(self).metadata),
                raw_views(old(self).raw_lines@),
            ),
            final(self).wf(),
            final(self).settings() == old(self).settings(),
            final(self).raw_lines@.len() <= line_end,
            (metadata_view(final(self).metadata), raw_views(final(self).raw_lines@)) == read_line(
                chars@,
                source,
                line_start as int,
                line_end as int,
                metadata_view(old(self).metadata),
                raw_views(old(self).raw_lines@),
            ),
    {
        if line_start == line_end {
            return ;
        }
        let ghost original = *self;
        let ghost scanned = scan_tags(
            chars@,
            source,
            line_start as int,
            line_start as int,
            line_end as int,
            Seq::empty(),
            metadata_view(original.metadata),
        );
        let mut cursor = line_start;
        let mut timestamps: Vec<(LyricTime, SourceSpan)> = Vec::new();
        proof {
            assert(timestamps@ =~= Seq::<(LyricTime, SourceSpan)>::empty());
        }
        while cursor < line_end && chars[cursor] == '['
            invariant_except_break
                diagnostic_marks(self.diagnostics@) + tag_problems(
                    chars@,
                    source,
                    line_start as int,
                    cursor as int,
                    line_end as int,
                    timestamps@.len() > 0,
                ) == diagnostic_marks(original.diagnostics@) + tag_problems(
                    chars@,
                    source,
                    line_start as int,
                    line_start as int,
                    line_end as int,
                    false,
                ),
            invariant
                self.wf(),
                self.settings() == original.settings(),
                self.same_lines(original),
                line_fits(chars@, source, line_start as int, line_end as int),
                line_start <= cursor <= line_end,
                2 * timestamps@.len() <= cursor - line_start,
                original.raw_lines@.len() <= line_start,
                scan_tags(
                    chars@,
                    source,
                    line_start as int,
                    cursor as int,
                    line_end as int,
                    timestamps@,
                    metadata_view(self.metadata),
                ) == scanned,
            ensures
                self.wf(),
                self.settings() == original.settings(),
                self.same_lines(original),
                line_start <= cursor <= line_end,
                2 * timestamps@.len() <= cursor - line_start,
                scanned == (timestamps@, cursor as int, metadata_view(self.metadata)),
                diagnostic_marks(self.diagnostics@) == diagnostic_marks(original.diagnostics@) + tag_problems(
                    chars@,
                    source,
                    line_start as int,
                    line_start as int,
                    line_end as int,
                    false,
                ),
            decreases line_end - cursor,
        {
            let end = match find_char(chars, ']', cursor + 1, line_end) {
                Some(end) => end,
                None => {
                    let span = source.span(chars, line_start, line_end, cursor, line_end);
                    self.recover_str(DiagnosticCode::MalformedTag, "unclosed LRC tag", Some(span));
                    break;
                },
            };
            proof {
                crate::text::lemma_find_from(chars@, ']', cursor + 1, line_end as int);
            }
            let tag_span = source.span(chars, line_start, line_end, cursor, end + 1);
            if timestamps.len() > 0 && is_inline_variant_tag(chars, cursor + 1, end) {
                break;
            }
            match parse_timestamp(chars, cursor + 1, end) {
                Ok(timestamp) => timestamps.push((timestamp, tag_span)),
                Err(error) => {
                    if looks_like_timestamp(chars, cursor + 1, end) {
                        let mut message = String::from_str("invalid line timestamp: ");
                        message.append(error.message());
                        self.recover(DiagnosticCode::InvalidTimestamp, message, Some(tag_span));
                    } else if find_char(chars, ':', cursor + 1, end).is_some() {
                        self.parse_metadata(chars, cursor + 1, end, tag_span);
                    } else {
                        let mut message = String::from_str("unrecognized LRC tag [");
                        push_range(&mut message, chars, cursor + 1, end);
                        message.append("]");
                        self.recover(DiagnosticCode::MalformedTag, message, Some(tag_span));
                        if timestamps.len() > 0 {
                            break;
                        }
                    }
                },
            }
            cursor = end + 1;
        }
        if timestamps.len() == 0 {
            if !range_is_blank(chars, cursor, line_end) {
                let span = source.span(chars, line_start, line_end, cursor, line_end);
                self.recover_str(
                    DiagnosticCode::MissingTimestamp,
                    "lyric text has no valid line timestamp",
                    Some(span),
                );
            }
            return ;
        }
        let (variant_offset, body_end) = match unwrap_inline_variant(chars, cursor, line_end) {
            Some(bounds) => bounds,
            None => (0, line_end),
        };
        let body_start = cursor + variant_offset;
        let (text, segments) = self.scan_enhanced_text(chars, body_start, body_end, source, line_start, line_end);
        self.push_timestamped_lines(timestamps, text, segments);
    }
}

/// The body of an inline voice tag `[key:body]` held in `chars[start..end]`: the offset of
/// the body from `start`, and where it ends.
pub open spec fn inline_variant_body(chars: Seq<char>, start: int, end: int) -> Option<(int, int)> {
    if end - start >= 2 && chars[start] == '[' && chars[end - 1] == ']' {
        match crate::text::find_from(chars, ':', start, end - 1) {
            Some(colon) => if crate::parser::timestamp::voice_key(chars.subrange(start + 1, colon)) {
                Some((colon + 1 - start, end - 1))
            } else {
                None
            },
            None => None,
        }
    } else {
        None
    }
}

/// `inline_variant_body(chars, start, end)`.
fn unwrap_inline_variant(chars: &Vec<char>, start: usize, end: usize) -> (body: Option<(usize, usize)>)
    requires
        start <= end <= chars.len(),
    ensures
        match body {
            Some((offset, body_end)) => inline_variant_body(chars@, start as int, end as int)
                == Some((offset as int, body_end as int)) && start + offset <= body_end <= end,
            None => inline_variant_body(chars@, start as int, end as int) is None,
        },
{
    if end - start < 2 || chars[start] != '[' || chars[end - 1] != ']' {
        return None;
    }
    proof {
        crate::text::lemma_find_from(chars@, ':', start as int, end - 1);
    }
    let colon = match find_char(chars, ':', start, end - 1) {
        Some(colon) => colon,
        None => return None,
    };
    if colon < start + 1 {
        return None;
    }
    if !crate::parser::timestamp::is_voice_key(chars, start + 1, colon) {
        return None;
    }
    Some((colon + 1 - start, end - 1))
}

/// A UTF-8 encoding has at least one byte per character.
pub proof fn lemma_byte_len_at_least_len(chars: Seq<char>)
    ensures
        chars.len() <= byte_len(chars),
    decreases chars.len(),
{
    if chars.len() > 0 {
        lemma_byte_len_at_least_len(chars.drop_last());
    }
}

/// A parsed line holds one lane, of the parser's kind and language, whose segments name
/// spans of its text.
pub open spec fn line_shape(line: LyricLine, kind: LaneKind, language: Option<String>) -> bool {
    &&& line.lanes@.len() == 1
    &&& line.lanes@[0].kind == kind
    &&& line.lanes@[0].language == language
    &&& line.lanes@[0].text_ranges_valid()
}

pub open spec fn all_shaped(lines: Seq<ParsedLine>, kind: LaneKind, language: Option<String>) -> bool {
    forall|i: int| 0 <= i < lines.len() ==> line_shape(#[trigger] lines[i].line, kind, language)
}

/// Line starts do not decrease, and lines that start together keep their source order.
pub open spec fn in_start_order(lines: Seq<ParsedLine>) -> bool {
    forall|i: int, j: int|
        0 <= i < j < lines.len() ==> {
            ||| lines[i].line.range.start.0 < lines[j].line.range.start.0
            ||| (lines[i].line.range.start.0 == lines[j].line.range.start.0
                && lines[i].source_order < lines[j].source_order)
        }
}

/// A segment lies within a line: it starts no earlier than the line, and when the line
/// ends, it starts no later than that and ends within the line.
pub open spec fn segment_within(segment: TimedSegment, line: TimeRange) -> bool {
    &&& line.start.0 <= segment.range.start.0
    &&& (line.end matches Some(line_end) ==> {
        &&& segment.range.start.0 <= line_end.0
        &&& segment.range.end matches Some(end) && line.start.0 <= end.0 <= line_end.0
    })
}

/// When a line's range is well ordered, each segment of each lane lies within it.
pub open spec fn segments_within(line: LyricLine) -> bool {
    line.range.well_ordered() ==> forall|l: int, k: int|
        0 <= l < line.lanes@.len() && 0 <= k < line.lanes@[l].segments@.len()
            ==> segment_within(#[trigger] line.lanes@[l].segments@[k], line.range)
}

/// The end of the last group of lines: the media duration when it follows the start,
/// else the start plus a positive fallback.
pub open spec fn final_end_for(start: LyricTime, duration: Option<LyricTime>, fallback: Option<LyricTime>) -> Option<LyricTime> {
    match duration {
        Some(d) if d.0 > start.0 => Some(d),
        _ => match fallback {
            Some(f) if f.0 > 0 => Some(LyricTime(saturate_i64(start.micros() + f.micros()) as i64)),
            _ => None,
        },
    }
}

impl LrcParser {
    /// Reads every source line of `chars`.
    #[verifier::rlimit(80)]
    fn parse_lines(&mut self, chars: &Vec<char>)
        requires
            old(self).wf(),
            old(self).raw_lines@.len() == 0,
            old(self).previous_source_start is None,
            byte_len(chars@) < usize::MAX,
        ensures
            final(self).wf(),
            final(self).settings() == old(self).settings(),
            (metadata_view(final(self).metadata), raw_views(final(self).raw_lines@)) == (if has_bom(chars@) {
                read_from(chars@, 1, 0, 3, metadata_view(old(self).metadata), raw_views(old(self).raw_lines@))
            } else {
                read_from(chars@, 0, 0, 0, metadata_view(old(self).metadata), raw_views(old(self).raw_lines@))
            }),
            diagnostic_marks(final(self).diagnostics@) == diagnostic_marks(old(self).diagnostics@) + (if has_bom(chars@) {
                read_problems(chars@, 1, 0, 3, metadata_view(old(self).metadata), raw_views(old(self).raw_lines@))
            } else {
                read_problems(chars@, 0, 0, 0, metadata_view(old(self).metadata), raw_views(old(self).raw_lines@))
            }),
            final(self).previous_source_start == previous_start(raw_views(final(self).raw_lines@)),
    {
        proof {
            lemma_byte_len_at_least_len(chars@);
            lemma_bytes_whole(chars@);
        }
        let ghost original = *self;
        let ghost target = if has_bom(chars@) {
            read_from(chars@, 1, 0, 3, metadata_view(original.metadata), raw_views(original.raw_lines@))
        } else {
            read_from(chars@, 0, 0, 0, metadata_view(original.metadata), raw_views(original.raw_lines@))
        };
        let ghost target_problems = if has_bom(chars@) {
            read_problems(chars@, 1, 0, 3, metadata_view(original.metadata), raw_views(original.raw_lines@))
        } else {
            read_problems(chars@, 0, 0, 0, metadata_view(original.metadata), raw_views(original.raw_lines@))
        };
        let len = chars.len();
        let mut position: usize = 0;
        let mut byte_offset: usize = 0;
        if len > 0 && chars[0] == '\u{feff}' {
            position = 1;
            byte_offset = 3;
            proof {
                assert(chars@.subrange(0, 1) =~= seq![chars@[0]]);
                assert(seq![chars@[0]] =~= Seq::<char>::empty().push(chars@[0]));
                lemma_byte_len_push(Seq::<char>::empty(), chars@[0]);
            }
        }
        let mut index: usize = 0;
        while position < len
            invariant
                self.wf(),
                self.settings() == original.settings(),
                len == chars@.len(),
                len < usize::MAX,
                byte_len(chars@) < usize::MAX,
                bytes_between(chars@, 0, len as int) == byte_len(chars@),
                position <= len,
                index <= position,
                byte_offset == bytes_between(chars@, 0, position as int),
                self.raw_lines@.len() <= position,
                self.previous_source_start == previous_start(raw_views(self.raw_lines@)),
                read_from(
                    chars@,
                    position as int,
                    index as int,
                    byte_offset as int,
                    metadata_view(self.metadata),
                    raw_views(self.raw_lines@),
                ) == target,
                diagnostic_marks(self.diagnostics@) + read_problems(
                    chars@,
                    position as int,
                    index as int,
                    byte_offset as int,
                    metadata_view(self.metadata),
                    raw_views(self.raw_lines@),
                ) == diagnostic_marks(original.diagnostics@) + target_problems,
            decreases len - position,
        {
            proof {
                crate::text::lemma_find_from(chars@, '\n', position as int, len as int);
            }
            let chunk_end = match find_char(chars, '\n', position, len) {
                Some(newline) => newline + 1,
                None => len,
            };
            let mut line_end = if chars[chunk_end - 1] == '\n' {
                chunk_end - 1
            } else {
                chunk_end
            };
            if line_end > position && chars[line_end - 1] == '\r' {
                line_end = line_end - 1;
            }
            proof {
                lemma_bytes_split(chars@, 0, position as int, chunk_end as int);
                lemma_bytes_split(chars@, 0, chunk_end as int, len as int);
                lemma_bytes_within(chars@, position as int, position as int, line_end as int, chunk_end as int);
            }
            let source = SourceLine { number: index + 1, byte_offset };
            self.parse_source_line(chars, position, line_end, source);
            let chunk_bytes = count_bytes(chars, position, chunk_end);
            byte_offset = byte_offset + chunk_bytes;
            position = chunk_end;
            index = index + 1;
        }
    }

    /// The media duration when it is not negative, else a non-negative `length` tag.
    fn document_duration(&mut self) -> (duration: Option<LyricTime>)
        requires
            old(self).wf(),
        ensures
            final(self).wf(),
            final(self).settings() == old(self).settings(),
            final(self).same_lines(*old(self)),
            final(self).metadata == old(self).metadata,
            diagnostic_marks(final(self).diagnostics@) == diagnostic_marks(old(self).diagnostics@) + duration_problems(
                old(self).media_duration,
            ),
            duration == match old(self).media_duration {
                Some(d) if d.0 >= 0 => Some(d),
                _ => match old(self).metadata.length {
                    Some(l) if l.0 >= 0 => Some(l),
                    _ => None,
                },
            },
    {
        match self.media_duration {
            Some(duration) => {
                if duration.0 >= 0 {
                    return Some(duration);
                }
                self.recover_str(
                    DiagnosticCode::InvalidRange,
                    "media duration cannot be negative; valid length metadata was used instead",
                    None,
                );
            },
            None => {},
        }
        match self.metadata.length {
            Some(length) => if length.0 >= 0 {
                Some(length)
            } else {
                None
            },
            None => None,
        }
    }

    /// The end of the final group of lines, which starts at `start`.
    fn final_line_end(&mut self, start: LyricTime, duration: Option<LyricTime>, span: SourceSpan) -> (end: Option<LyricTime>)
        requires
            old(self).wf(),
        ensures
            final(self).wf(),
            final(self).settings() == old(self).settings(),
            final(self).same_lines(*old(self)),
            final(self).metadata == old(self).metadata,
            end == final_end_for(start, duration, old(self).fallback_duration),
            diagnostic_marks(final(self).diagnostics@) == diagnostic_marks(old(self).diagnostics@) + final_end_problems(
                start,
                duration,
                old(self).fallback_duration,
                span,
            ),
    {
        match duration {
            Some(duration) => {
                if duration.0 > start.0 {
                    return Some(duration);
                }
                self.recover_str(
                    DiagnosticCode::InvalidRange,
                    "media duration does not follow the final line start; fallback was used",
                    Some(span),
                );
            },
            None => {},
        }
        let fallback = match self.fallback_duration {
            Some(fallback) => fallback,
            None => return None,
        };
        if fallback.0 <= 0 {
            self.recover_str(
                DiagnosticCode::InvalidRange,
                "fallback duration must be positive",
                Some(span),
            );
            return None;
        }
        Some(self.shift_time(start, fallback, span))
    }
}

/// `a` and `b` are the same parsed line but for the times of their segments.
pub open spec fn segment_times_only(a: ParsedLine, b: ParsedLine) -> bool {
    &&& a.source_order == b.source_order
    &&& a.span == b.span
    &&& a.line.id == b.line.id
    &&& a.line.range == b.line.range
    &&& a.line.lanes@.len() == b.line.lanes@.len()
    &&& forall|l: int| 0 <= l < a.line.lanes@.len() ==> lane_times_only(#[trigger] a.line.lanes@[l], b.line.lanes@[l])
}

/// `a` and `b` are the same parsed line but for the end of the line's range.
pub open spec fn line_end_only(a: ParsedLine, b: ParsedLine) -> bool {
    &&& a.source_order == b.source_order
    &&& a.span == b.span
    &&& a.line.id == b.line.id
    &&& a.line.range.start == b.line.range.start
    &&& a.line.lanes == b.line.lanes
}

pub proof fn lemma_shape_kept_by_times(a: ParsedLine, b: ParsedLine, kind: LaneKind, language: Option<String>)
    requires
        line_shape(a.line, kind, language),
        segment_times_only(a, b),
    ensures
        line_shape(b.line, kind, language),
{
    let la = a.line.lanes@[0];
    let lb = b.line.lanes@[0];
    assert(lane_times_only(la, lb));
    assert forall|k: int| 0 <= k < lb.segments@.len() implies crate::model::valid_text_range(
        lb.text@,
        #[trigger] lb.segments@[k],
    ) by {
        assert(la.segments@[k].text_range == lb.segments@[k].text_range);
        assert(crate::model::valid_text_range(la.text@, la.segments@[k]));
    }
}

/// A segment's range clamped into the line from `line_start` to `line_end`: the start is
/// moved into the line, an open end takes the line's end, an end before the start moves to
/// the start, and an end after the line's end moves to it (or to the start, if later).
pub open spec fn clamped_range(range: TimeRange, line_start: LyricTime, line_end: Option<LyricTime>) -> TimeRange {
    let raised = if range.start.0 < line_start.0 {
        line_start
    } else {
        range.start
    };
    let start = match line_end {
        Some(end) => if raised.0 > end.0 {
            end
        } else {
            raised
        },
        None => raised,
    };
    let open_end = match range.end {
        Some(end) => Some(end),
        None => line_end,
    };
    let ordered_end = match open_end {
        Some(end) => if end.0 < start.0 {
            Some(start)
        } else {
            open_end
        },
        None => open_end,
    };
    let end = match (ordered_end, line_end) {
        (Some(end), Some(limit)) => if end.0 > limit.0 {
            Some(crate::time::max_time(limit, start))
        } else {
            ordered_end
        },
        _ => ordered_end,
    };
    TimeRange { start, end }
}

/// The repairs clamping `range` into a line records: a start before the line, a start
/// after the line's end, an end before the start, and an end after the line's end.
pub open spec fn clamp_problems(
    range: TimeRange,
    line_start: LyricTime,
    line_end: Option<LyricTime>,
    span: SourceSpan,
) -> Seq<Problem> {
    let raised = if range.start.0 < line_start.0 {
        line_start
    } else {
        range.start
    };
    let start = match line_end {
        Some(end) => if raised.0 > end.0 {
            end
        } else {
            raised
        },
        None => raised,
    };
    let open_end = match range.end {
        Some(end) => Some(end),
        None => line_end,
    };
    let ordered_end = match open_end {
        Some(end) => if end.0 < start.0 {
            Some(start)
        } else {
            open_end
        },
        None => open_end,
    };
    mark(
        range.start.0 < line_start.0,
        DiagnosticCode::InvalidRange,
        "segment started before its line and was clamped"@,
        Some(span),
    ) + mark(
        line_end matches Some(end) && raised.0 > end.0,
        DiagnosticCode::InvalidRange,
        "segment started after its line ended and was clamped"@,
        Some(span),
    ) + mark(
        open_end matches Some(end) && end.0 < start.0,
        DiagnosticCode::InvalidRange,
        "segment end preceded its start and was clamped"@,
        Some(span),
    ) + mark(
        ordered_end matches Some(end) && (line_end matches Some(limit) && end.0 > limit.0),
        DiagnosticCode::InvalidRange,
        "segment ended after its line and was clamped"@,
        Some(span),
    )
}

/// The repairs normalizing the first `count` segments of a lane records: the clamps, and
/// each segment before a clamped one that is cut off at its start.
pub open spec fn lane_repairs(
    segments: Seq<TimedSegment>,
    line_start: LyricTime,
    line_end: Option<LyricTime>,
    span: SourceSpan,
    count: int,
) -> Seq<Problem>
    decreases count,
{
    if count <= 0 || count > segments.len() {
        Seq::empty()
    } else {
        let k = count - 1;
        let earlier = normalized_prefix(segments, line_start, line_end, k);
        let range = clamped_range(segments[k].range, line_start, line_end);
        lane_repairs(segments, line_start, line_end, span, k) + clamp_problems(
            segments[k].range,
            line_start,
            line_end,
            span,
        ) + mark(
            k > 0 && match earlier[k - 1].range.end {
                Some(previous_end) => range.start.0 < previous_end.0,
                None => true,
            },
            DiagnosticCode::InvalidRange,
            "segments in the same lane overlapped; the earlier segment was truncated"@,
            Some(span),
        )
    }
}

/// The repairs normalizing the first `n` lanes of a line records.
pub open spec fn lanes_repairs(
    lanes: Seq<LyricLane>,
    line_start: LyricTime,
    line_end: Option<LyricTime>,
    span: SourceSpan,
    n: int,
) -> Seq<Problem>
    decreases n,
{
    if n <= 0 || n > lanes.len() {
        Seq::empty()
    } else {
        lanes_repairs(lanes, line_start, line_end, span, n - 1) + lane_repairs(
            lanes[n - 1].segments@,
            line_start,
            line_end,
            span,
            lanes[n - 1].segments@.len() as int,
        )
    }
}

/// The repairs normalizing the first `n` lines records.
pub open spec fn lines_repairs(lines: Seq<ParsedLine>, n: int) -> Seq<Problem>
    decreases n,
{
    if n <= 0 || n > lines.len() {
        Seq::empty()
    } else {
        let line = lines[n - 1].line;
        lines_repairs(lines, n - 1) + lanes_repairs(
            line.lanes@,
            line.range.start,
            line.range.end,
            lines[n - 1].span,
            line.lanes@.len() as int,
        )
    }
}

/// The segments of a lane after the first `count` were normalized: each is clamped into
/// the line in turn, and the segment before it, when it has no end or ends after the
/// clamped start, is cut off at that start.
pub open spec fn normalized_prefix(segments: Seq<TimedSegment>, line_start: LyricTime, line_end: Option<LyricTime>, count: int) -> Seq<TimedSegment>
    decreases count,
{
    if count <= 0 || count > segments.len() {
        segments
    } else {
        let earlier = normalized_prefix(segments, line_start, line_end, count - 1);
        let k = count - 1;
        let range = clamped_range(segments[k].range, line_start, line_end);
        let truncated = if k > 0 && match earlier[k - 1].range.end {
            Some(previous_end) => range.start.0 < previous_end.0,
            None => true,
        } {
            earlier.update(
                k - 1,
                TimedSegment {
                    range: TimeRange { start: earlier[k - 1].range.start, end: Some(range.start) },
                    text_range: earlier[k - 1].text_range,
                },
            )
        } else {
            earlier
        };
        truncated.update(k, TimedSegment { range, text_range: segments[k].text_range })
    }
}

/// `after` is `before` with its segments normalized into the line from `line_start` to
/// `line_end`.
pub open spec fn lane_normalized(before: LyricLane, after: LyricLane, line_start: LyricTime, line_end: Option<LyricTime>) -> bool {
    &&& after.kind == before.kind
    &&& after.language == before.language
    &&& after.text == before.text
    &&& after.segments@ == normalized_prefix(
        before.segments@,
        line_start,
        line_end,
        before.segments@.len() as int,
    )
}

/// `after` is `before` with the segments of every lane normalized into the line.
pub open spec fn line_normalized(before: ParsedLine, after: ParsedLine) -> bool {
    &&& after.source_order == before.source_order
    &&& after.span == before.span
    &&& after.line.id == before.line.id
    &&& after.line.range == before.line.range
    &&& after.line.lanes@.len() == before.line.lanes@.len()
    &&& forall|l: int|
        0 <= l < before.line.lanes@.len() ==> lane_normalized(
            #[trigger] before.line.lanes@[l],
            after.line.lanes@[l],
            before.line.range.start,
            before.line.range.end,
        )
}

proof fn lemma_normalized_prefix_len(segments: Seq<TimedSegment>, line_start: LyricTime, line_end: Option<LyricTime>, count: int)
    ensures
        normalized_prefix(segments, line_start, line_end, count).len() == segments.len(),
        forall|k: int| 0 <= k < segments.len() ==> (#[trigger] normalized_prefix(segments, line_start, line_end, count)[k]).text_range == segments[k].text_range,
        forall|k: int| count <= k < segments.len() && 0 <= count ==> #[trigger] normalized_prefix(segments, line_start, line_end, count)[k] == segments[k],
    decreases count,
{
    if 0 < count <= segments.len() {
        lemma_normalized_prefix_len(segments, line_start, line_end, count - 1);
    }
}

/// `time`, or the later of it and `latest` when there is one.
pub open spec fn later_opt(latest: Option<LyricTime>, time: LyricTime) -> Option<LyricTime> {
    match latest {
        Some(current) => Some(crate::time::max_time(current, time)),
        None => Some(time),
    }
}

/// `latest` widened by the starts of `segments[..count]`.
pub open spec fn lane_latest(latest: Option<LyricTime>, segments: Seq<TimedSegment>, count: int) -> Option<LyricTime>
    decreases count,
{
    if count <= 0 || count > segments.len() {
        latest
    } else {
        later_opt(lane_latest(latest, segments, count - 1), segments[count - 1].range.start)
    }
}

/// `latest` widened by the segment starts of `lanes[..count]`.
pub open spec fn line_latest(latest: Option<LyricTime>, lanes: Seq<LyricLane>, count: int) -> Option<LyricTime>
    decreases count,
{
    if count <= 0 || count > lanes.len() {
        latest
    } else {
        let segments = lanes[count - 1].segments@;
        lane_latest(line_latest(latest, lanes, count - 1), segments, segments.len() as int)
    }
}

/// `latest` widened by the segment starts of `lines[first..count]`.
pub open spec fn group_latest(latest: Option<LyricTime>, lines: Seq<ParsedLine>, first: int, count: int) -> Option<LyricTime>
    decreases count - first,
{
    if count <= first || first < 0 || count > lines.len() {
        latest
    } else {
        let lanes = lines[count - 1].line.lanes@;
        line_latest(group_latest(latest, lines, first, count - 1), lanes, lanes.len() as int)
    }
}

/// Where the run of lines that start together with line `i` ends.
pub open spec fn run_end(lines: Seq<ParsedLine>, i: int) -> int
    decreases lines.len() - i,
{
    if 0 <= i && i + 1 < lines.len() && lines[i + 1].line.range.start == lines[i].line.range.start {
        run_end(lines, i + 1)
    } else {
        i + 1
    }
}

/// Where the run of lines that start together with line `i` begins.
pub open spec fn run_begin(lines: Seq<ParsedLine>, i: int) -> int
    decreases i,
{
    if 0 < i < lines.len() && lines[i - 1].line.range.start == lines[i].line.range.start {
        run_begin(lines, i - 1)
    } else {
        i
    }
}

/// The end inferred for the run of lines that begins at `first`: the start of the next
/// run, or the latest segment start of the run when later; for the last run, the final end
/// for its start, or its latest segment start when later or when there is no final end.
#[verifier::opaque]
pub open spec fn run_inferred_end(lines: Seq<ParsedLine>, first: int, duration: Option<LyricTime>, fallback: Option<LyricTime>) -> Option<LyricTime> {
    let end = run_end(lines, first);
    let next = if end < lines.len() {
        Some(lines[end].line.range.start)
    } else {
        None
    };
    let latest = group_latest(None, lines, first, end);
    match (next, latest) {
        (Some(next), Some(segment)) => Some(crate::time::max_time(next, segment)),
        (Some(next), None) => Some(next),
        (None, Some(segment)) => match final_end_for(lines[first].line.range.start, duration, fallback) {
            Some(end) => Some(crate::time::max_time(end, segment)),
            None => Some(segment),
        },
        (None, None) => final_end_for(lines[first].line.range.start, duration, fallback),
    }
}

/// `run_end(lines@, first)`.
fn run_end_of(lines: &Vec<ParsedLine>, first: usize) -> (end: usize)
    requires
        first < lines@.len(),
    ensures
        end == run_end(lines@, first as int),
        first < end <= lines@.len(),
{
    let count = lines.len();
    let start = lines[first].line.range.start;
    let mut end = first + 1;
    while end < lines.len() && lines[end].line.range.start == start
        invariant
            first < end <= lines@.len(),
            start == lines@[first as int].line.range.start,
            forall|i: int| first <= i < end ==> (#[trigger] lines@[i]).line.range.start == start,
            run_end(lines@, end - 1) == run_end(lines@, first as int),
        decreases lines.len() - end,
    {
        end += 1;
    }
    proof {
        lemma_run_end_bounds(lines@, first as int);
    }
    end
}

/// The latest segment start among `lines[first..end]`.
fn latest_segment_start(lines: &Vec<ParsedLine>, first: usize, end: usize) -> (latest: Option<LyricTime>)
    requires
        first <= end <= lines@.len(),
    ensures
        latest == group_latest(None, lines@, first as int, end as int),
{
    let mut latest: Option<LyricTime> = None;
    let mut g = first;
    while g < end
        invariant
            first <= g <= end <= lines@.len(),
            latest == group_latest(None, lines@, first as int, g as int),
        decreases end - g,
    {
        let lanes = &lines[g].line.lanes;
        let mut l: usize = 0;
        while l < lanes.len()
            invariant
                first <= g < end <= lines@.len(),
                lanes@ == lines@[g as int].line.lanes@,
                l <= lanes@.len(),
                latest == line_latest(group_latest(None, lines@, first as int, g as int), lanes@, l as int),
            decreases lanes.len() - l,
        {
            let segments = &lanes[l].segments;
            let mut k: usize = 0;
            while k < segments.len()
                invariant
                    l < lanes@.len(),
                    segments@ == lanes@[l as int].segments@,
                    k <= segments@.len(),
                    latest == lane_latest(
                        line_latest(group_latest(None, lines@, first as int, g as int), lanes@, l as int),
                        segments@,
                        k as int,
                    ),
                decreases segments.len() - k,
            {
                let segment_start = segments[k].range.start;
                latest = match latest {
                    Some(current) => Some(current.later(segment_start)),
                    None => Some(segment_start),
                };
                k += 1;
            }
            l += 1;
        }
        g += 1;
    }
    latest
}

/// Runs read only the lines from where they start.
proof fn lemma_run_end_suffix(a: Seq<ParsedLine>, b: Seq<ParsedLine>, i: int)
    requires
        a.len() == b.len(),
        0 <= i,
        forall|j: int| i <= j < a.len() ==> #[trigger] a[j] == b[j],
    ensures
        run_end(a, i) == run_end(b, i),
    decreases a.len() - i,
{
    if i + 1 < a.len() {
        lemma_run_end_suffix(a, b, i + 1);
    }
}

/// The latest segment start of `lines[first..count]` reads only those lines.
proof fn lemma_group_latest_same(a: Seq<ParsedLine>, b: Seq<ParsedLine>, first: int, count: int)
    requires
        a.len() == b.len(),
        forall|j: int| first <= j < count ==> #[trigger] a[j] == b[j],
    ensures
        group_latest(None, a, first, count) == group_latest(None, b, first, count),
    decreases count - first,
{
    if count > first && first >= 0 && count <= a.len() {
        lemma_group_latest_same(a, b, first, count - 1);
    }
}

proof fn lemma_run_end_bounds(lines: Seq<ParsedLine>, i: int)
    requires
        0 <= i < lines.len(),
    ensures
        i < run_end(lines, i) <= lines.len(),
        forall|j: int| i <= j < run_end(lines, i) ==> #[trigger] lines[j].line.range.start == lines[i].line.range.start,
        run_end(lines, i) < lines.len() ==> lines[run_end(lines, i)].line.range.start != lines[i].line.range.start,
    decreases lines.len() - i,
{
    if i + 1 < lines.len() && lines[i + 1].line.range.start == lines[i].line.range.start {
        lemma_run_end_bounds(lines, i + 1);
    }
}

/// Every line of a run that begins at `first` has its run begin there.
proof fn lemma_run_begin_of_member(lines: Seq<ParsedLine>, first: int, i: int)
    requires
        0 <= first <= i < run_end(lines, first),
        first < lines.len(),
        first == 0 || lines[first - 1].line.range.start != lines[first].line.range.start,
    ensures
        run_begin(lines, i) == first,
    decreases i - first,
{
    lemma_run_end_bounds(lines, first);
    if i > first {
        lemma_run_begin_of_member(lines, first, i - 1);
        assert(lines[i - 1].line.range.start == lines[first].line.range.start);
        assert(lines[i].line.range.start == lines[first].line.range.start);
    }
}

/// The document duration widened to cover the end of every well-ordered line among `lines[..count]`.
pub open spec fn covering_duration(duration: Option<LyricTime>, lines: Seq<ParsedLine>, count: int) -> Option<LyricTime>
    decreases count,
{
    if count <= 0 {
        duration
    } else {
        let earlier = covering_duration(duration, lines, count - 1);
        let range = lines[count - 1].line.range;
        if range.well_ordered() && range.end is Some {
            let end = range.end.unwrap();
            match earlier {
                Some(d) => Some(crate::time::max_time(d, end)),
                None => Some(end),
            }
        } else {
            earlier
        }
    }
}

/// `time` moved by `delta`, saturated.
/// A time overflow when `time + delta` leaves the representable range.
pub open spec fn overflows(time: LyricTime, delta: LyricTime, span: SourceSpan) -> Seq<Problem> {
    mark(
        !fits_i64(time.0 + delta.0),
        DiagnosticCode::TimeOverflow,
        "timestamp overflowed and was saturated"@,
        Some(span),
    )
}

/// The problems moving an enhanced time by the repeated-timestamp shift and then the offset
/// records.
pub open spec fn moment_problems(
    time: Option<LyricTime>,
    occurrence: LyricTime,
    offset: LyricTime,
    span: SourceSpan,
) -> Seq<Problem> {
    match time {
        Some(t) => overflows(t, occurrence, span) + overflows(shifted(t, occurrence), offset, span),
        None => Seq::empty(),
    }
}

/// The problems moving the first `n` segments records.
pub open spec fn segment_build_problems(
    segments: Seq<RawSegment>,
    occurrence: LyricTime,
    offset: LyricTime,
    span: SourceSpan,
    n: int,
) -> Seq<Problem>
    decreases n,
{
    if n <= 0 || n > segments.len() {
        Seq::empty()
    } else {
        segment_build_problems(segments, occurrence, offset, span, n - 1) + moment_problems(
            segments[n - 1].start,
            occurrence,
            offset,
            span,
        ) + moment_problems(segments[n - 1].end, occurrence, offset, span)
    }
}

/// How far a raw line's timestamp is from the first timestamp of its source line, saturated.
pub open spec fn occurrence_of(raw: RawView) -> LyricTime {
    LyricTime(saturate_i64(raw.start.0 - raw.reference_start.0) as i64)
}

/// The problems building the first `n` raw lines with `offset` records: each time that
/// overflows when moved.
pub open spec fn build_problems(raws: Seq<RawView>, offset: LyricTime, n: int) -> Seq<Problem>
    decreases n,
{
    if n <= 0 || n > raws.len() {
        Seq::empty()
    } else {
        build_problems(raws, offset, n - 1) + overflows(raws[n - 1].start, offset, raws[n - 1].span)
            + segment_build_problems(
            raws[n - 1].segments,
            occurrence_of(raws[n - 1]),
            offset,
            raws[n - 1].span,
            raws[n - 1].segments.len() as int,
        )
    }
}

/// The problems finding the end of the last run of lines, which starts at `start`, records:
/// a duration that does not follow the start, a fallback that is not positive, and a
/// fallback end that overflows.
pub open spec fn final_end_problems(
    start: LyricTime,
    duration: Option<LyricTime>,
    fallback: Option<LyricTime>,
    span: SourceSpan,
) -> Seq<Problem> {
    if duration matches Some(d) && d.0 > start.0 {
        Seq::empty()
    } else {
        mark(
            duration is Some,
            DiagnosticCode::InvalidRange,
            "media duration does not follow the final line start; fallback was used"@,
            Some(span),
        ) + match fallback {
            None => Seq::empty(),
            Some(f) => if f.0 <= 0 {
                seq![(DiagnosticCode::InvalidRange, "fallback duration must be positive"@, Some(span))]
            } else {
                overflows(start, f, span)
            },
        }
    }
}

/// The problems inferring the ends of `lines` records: those of the last run's end.
pub open spec fn ends_problems(lines: Seq<ParsedLine>, duration: Option<LyricTime>, fallback: Option<LyricTime>) -> Seq<Problem> {
    if lines.len() == 0 {
        Seq::empty()
    } else {
        final_end_problems(
            lines.last().line.range.start,
            duration,
            fallback,
            lines[run_begin(lines, lines.len() - 1)].span,
        )
    }
}

/// A range problem when the media duration is negative.
pub open spec fn duration_problems(media: Option<LyricTime>) -> Seq<Problem> {
    mark(
        media matches Some(d) && d.0 < 0,
        DiagnosticCode::InvalidRange,
        "media duration cannot be negative; valid length metadata was used instead"@,
        None,
    )
}

pub open spec fn shifted(time: LyricTime, delta: LyricTime) -> LyricTime {
    LyricTime(saturate_i64(time.0 + delta.0) as i64)
}

/// The timed segment of a raw segment on a line that starts at `line_start`: its times
/// moved by the repeated-timestamp shift and the offset; an untimed start takes the line's.
pub open spec fn built_segment(raw: RawSegment, line_start: LyricTime, occurrence: LyricTime, offset: LyricTime) -> TimedSegment {
    TimedSegment {
        range: TimeRange {
            start: match raw.start {
                Some(time) => shifted(shifted(time, occurrence), offset),
                None => line_start,
            },
            end: match raw.end {
                Some(time) => Some(shifted(shifted(time, occurrence), offset)),
                None => None,
            },
        },
        text_range: raw.text_range,
    }
}

/// `parsed` is the line that `raw` becomes with the offset applied: it starts at the
/// shifted timestamp, has no end yet, and holds one lane of the parser's kind and language
/// with the raw text and segments; the segments of a repeated timestamp move with it.
pub open spec fn built_from(raw: RawView, offset: LyricTime, kind: LaneKind, language: Option<String>, parsed: ParsedLine) -> bool {
    let start = shifted(raw.start, offset);
    let occurrence = LyricTime(saturate_i64(raw.start.0 - raw.reference_start.0) as i64);
    let lane = parsed.line.lanes@[0];
    &&& parsed.source_order == raw.source_order
    &&& parsed.span == raw.span
    &&& parsed.line.id == LineId(raw.id)
    &&& parsed.line.range == TimeRange { start, end: None }
    &&& parsed.line.lanes@.len() == 1
    &&& lane.kind == kind
    &&& lane.language == language
    &&& lane.text@ == raw.text
    &&& lane.segments@.len() == raw.segments.len()
    &&& forall|s: int|
        0 <= s < raw.segments.len() ==> #[trigger] lane.segments@[s] == built_segment(
            raw.segments[s],
            start,
            occurrence,
            offset,
        )
}

/// Some line of `lines` comes from source order `k`.
pub open spec fn lists_source(lines: Seq<ParsedLine>, k: int) -> bool {
    exists|i: int| 0 <= i < lines.len() && (#[trigger] lines[i]).source_order == k
}

/// `lines` holds the line built from each of `raws`, once, stably sorted by start.
pub open spec fn built_lines(raws: Seq<RawView>, offset: LyricTime, kind: LaneKind, language: Option<String>, lines: Seq<ParsedLine>) -> bool {
    &&& lines.len() == raws.len()
    &&& forall|i: int|
        0 <= i < lines.len() ==> (#[trigger] lines[i]).source_order < raws.len() && built_from(
            raws[lines[i].source_order as int],
            offset,
            kind,
            language,
            lines[i],
        )
    &&& forall|k: int| 0 <= k < raws.len() ==> #[trigger] lists_source(lines, k)
    &&& in_start_order(lines)
}

impl LrcParser {
    /// One parsed line per raw line, with the offset tag and repeated-timestamp shifts
    /// applied, stably sorted by start.
    #[verifier::rlimit(80)]
    fn build_lines(&mut self) -> (lines: Vec<ParsedLine>)
        requires
            old(self).wf(),
        ensures
            final(self).wf(),
            final(self).settings() == old(self).settings(),
            lines@.len() == old(self).raw_lines@.len(),
            all_shaped(lines@, old(self).lane_kind, old(self).language),
            in_start_order(lines@),
            built_lines(raw_views(old(self).raw_lines@), old(self).metadata.offset, old(self).lane_kind, old(self).language, lines@),
            final(self).metadata == old(self).metadata,
            final(self).raw_lines@ == old(self).raw_lines@,
            diagnostic_marks(final(self).diagnostics@) == diagnostic_marks(old(self).diagnostics@) + build_problems(
                raw_views(old(self).raw_lines@),
                old(self).metadata.offset,
                old(self).raw_lines@.len() as int,
            ),
    {
        let ghost original = *self;
        let offset = self.metadata.offset;
        let count = self.raw_lines.len();
        let mut lines: Vec<ParsedLine> = Vec::new();
        let mut k: usize = 0;
        while k < count
            invariant
                self.wf(),
                self.settings() == original.settings(),
                self.raw_lines@ == original.raw_lines@,
                count == self.raw_lines@.len(),
                k <= count,
                lines@.len() == k,
                all_shaped(lines@, original.lane_kind, original.language),
                in_start_order(lines@),
                forall|i: int| 0 <= i < lines@.len() ==> (#[trigger] lines@[i]).source_order < k,
                self.metadata == original.metadata,
                offset == original.metadata.offset,
                forall|i: int|
                    0 <= i < lines@.len() ==> built_from(
                        raw_views(original.raw_lines@)[(#[trigger] lines@[i]).source_order as int],
                        offset,
                        original.lane_kind,
                        original.language,
                        lines@[i],
                    ),
                forall|m: int| 0 <= m < k ==> #[trigger] lists_source(lines@, m),
                diagnostic_marks(self.diagnostics@) == diagnostic_marks(original.diagnostics@) + build_problems(
                    raw_views(original.raw_lines@),
                    offset,
                    k as int,
                ),
            decreases count - k,
        {
            let ghost problems_line = diagnostic_marks(self.diagnostics@);
            let raw_start = self.raw_lines[k].start;
            let raw_reference = self.raw_lines[k].reference_start;
            let raw_span = self.raw_lines[k].span;
            let raw_order = self.raw_lines[k].source_order;
            let raw_id = self.raw_lines[k].id;
            let text = self.raw_lines[k].text.clone();
            let raw_segments = self.raw_lines[k].segments.clone();
            proof {
                assert(raw_segments@ =~= self.raw_lines@[k as int].segments@);
            }
            let start = self.shift_time(raw_start, offset, raw_span);
            let occurrence_shift = raw_start.saturating_sub(raw_reference);
            let mut timed: Vec<TimedSegment> = Vec::new();
            let mut s: usize = 0;
            while s < raw_segments.len()
                invariant
                    self.wf(),
                    self.settings() == original.settings(),
                    self.raw_lines@ == original.raw_lines@,
                    s <= raw_segments@.len(),
                    timed@.len() == s,
                    forall|i: int| 0 <= i < s ==> (#[trigger] timed@[i]).text_range == raw_segments@[i].text_range,
                    self.metadata == original.metadata,
                    start == shifted(raw_start, offset),
                    occurrence_shift.0 == saturate_i64(raw_start.0 - raw_reference.0),
                    forall|i: int|
                        0 <= i < s ==> #[trigger] timed@[i] == built_segment(raw_segments@[i], start, occurrence_shift, offset),
                    diagnostic_marks(self.diagnostics@) == problems_line + overflows(raw_start, offset, raw_span)
                        + segment_build_problems(raw_segments@, occurrence_shift, offset, raw_span, s as int),
                    raw_span == self.raw_lines@[k as int].span,
                decreases raw_segments.len() - s,
            {
                let ghost codes_before = diagnostic_marks(self.diagnostics@);
                let segment_start = match self.shift_moment(raw_segments[s].start, occurrence_shift, offset, raw_span) {
                    Some(time) => time,
                    None => start,
                };
                let ghost codes_middle = diagnostic_marks(self.diagnostics@);
                let segment_end = self.shift_moment(raw_segments[s].end, occurrence_shift, offset, raw_span);
                proof {
                    assert(diagnostic_marks(self.diagnostics@) == codes_before + moment_problems(
                        raw_segments@[s as int].start,
                        occurrence_shift,
                        offset,
                        raw_span,
                    ) + moment_problems(raw_segments@[s as int].end, occurrence_shift, offset, raw_span));
                }
                timed.push(TimedSegment {
                    range: TimeRange { start: segment_start, end: segment_end },
                    text_range: Range {
                        start: raw_segments[s].text_range.start,
                        end: raw_segments[s].text_range.end,
                    },
                });
                s += 1;
            }
            let lane = LyricLane {
                kind: self.lane_kind.clone(),
                language: copy_text(&self.language),
                text,
                segments: timed,
            };
            let parsed = ParsedLine {
                line: LyricLine { id: raw_id, range: TimeRange { start, end: None }, lanes: vec![lane] },
                source_order: raw_order,
                span: raw_span,
            };
            proof {
                let l = parsed.line.lanes@[0];
                assert forall|i: int| 0 <= i < l.segments@.len() implies crate::model::valid_text_range(
                    l.text@,
                    #[trigger] l.segments@[i],
                ) by {
                    assert(range_in_text(self.raw_lines@[k as int].text@, raw_segments@[i].text_range));
                }
                assert(line_shape(parsed.line, original.lane_kind, original.language));
            }
            let mut position = lines.len();
            while position > 0 && lines[position - 1].line.range.start.0 > start.0
                invariant
                    position <= lines@.len(),
                    forall|q: int| position <= q < lines@.len() ==> (#[trigger] lines@[q]).line.range.start.0 > start.0,
                decreases position,
            {
                position -= 1;
            }
            let ghost before = lines@;
            lines.insert(position, parsed);
            proof {
                assert forall|i: int| 0 <= i < lines@.len() implies line_shape(
                    #[trigger] lines@[i].line,
                    original.lane_kind,
                    original.language,
                ) by {
                    if i < position {
                        assert(lines@[i] == before[i]);
                    } else if i > position {
                        assert(lines@[i] == before[i - 1]);
                    }
                }
                assert forall|i: int| 0 <= i < lines@.len() implies (#[trigger] lines@[i]).source_order < k + 1 by {
                    if i < position {
                        assert(lines@[i] == before[i]);
                    } else if i > position {
                        assert(lines@[i] == before[i - 1]);
                    }
                }
                assert(self.raw_lines@[k as int].source_order == k);
                assert(built_from(raw_views(original.raw_lines@)[k as int], offset, original.lane_kind, original.language, parsed));
                assert forall|i: int| 0 <= i < lines@.len() implies built_from(
                    raw_views(original.raw_lines@)[(#[trigger] lines@[i]).source_order as int],
                    offset,
                    original.lane_kind,
                    original.language,
                    lines@[i],
                ) by {
                    if i < position {
                        assert(lines@[i] == before[i]);
                    } else if i > position {
                        assert(lines@[i] == before[i - 1]);
                    }
                }
                assert forall|m: int| 0 <= m < k + 1 implies #[trigger] lists_source(lines@, m) by {
                    if m == k {
                        assert(lines@[position as int].source_order == k);
                    } else {
                        assert(lists_source(before, m));
                        let i = choose|i: int| 0 <= i < before.len() && (#[trigger] before[i]).source_order == m;
                        if i < position {
                            assert(lines@[i] == before[i]);
                        } else {
                            assert(lines@[i + 1] == before[i]);
                        }
                    }
                }
                assert forall|i: int, j: int| 0 <= i < j < lines@.len() implies {
                    ||| lines@[i].line.range.start.0 < lines@[j].line.range.start.0
                    ||| (lines@[i].line.range.start.0 == lines@[j].line.range.start.0
                        && lines@[i].source_order < lines@[j].source_order)
                } by {
                    if j < position {
                        assert(lines@[i] == before[i] && lines@[j] == before[j]);
                    } else if j == position {
                        assert(lines@[i] == before[i]);
                        if position > 0 {
                            assert(before[position - 1].line.range.start.0 <= start.0);
                            assert(in_start_order(before));
                            if i < position - 1 {
                                assert(before[i].line.range.start.0 <= before[position - 1].line.range.start.0);
                            }
                        }
                    } else if i < position {
                        assert(lines@[i] == before[i] && lines@[j] == before[j - 1]);
                    } else if i == position {
                        assert(lines@[j] == before[j - 1]);
                    } else {
                        assert(lines@[i] == before[i - 1] && lines@[j] == before[j - 1]);
                    }
                }
            }
            k += 1;
        }
        lines
    }
}

impl LrcParser {
    /// Gives each run of lines that start together an end: the start of the next run, or
    /// the latest segment start of the run when that is later; the last run ends at the
    /// media duration or after the fallback duration, or at its latest segment start when
    /// that is later.
    #[verifier::rlimit(40)]
    fn infer_line_ends(&mut self, lines: &mut Vec<ParsedLine>, duration: Option<LyricTime>)
        requires
            old(self).wf(),
        ensures
            final(self).wf(),
            final(self).settings() == old(self).settings(),
            final(lines)@.len() == old(lines)@.len(),
            final(self).metadata == old(self).metadata,
            forall|i: int| 0 <= i < old(lines)@.len() ==> line_end_only(#[trigger] old(lines)@[i], final(lines)@[i]),
            forall|i: int|
                0 <= i < old(lines)@.len() ==> (#[trigger] final(lines)@[i]).line.range.end == run_inferred_end(
                    old(lines)@,
                    run_begin(old(lines)@, i),
                    duration,
                    old(self).fallback_duration,
                ),
            diagnostic_marks(final(self).diagnostics@) == diagnostic_marks(old(self).diagnostics@) + ends_problems(
                old(lines)@,
                duration,
                old(self).fallback_duration,
            ),
    {
        let ghost original = *self;
        let ghost original_lines = lines@;
        let mut group_start: usize = 0;
        while group_start < lines.len()
            invariant
                self.wf(),
                self.settings() == original.settings(),
                lines@.len() == original_lines.len(),
                group_start <= lines@.len(),
                self.metadata == original.metadata,
                group_start == 0 || group_start == lines@.len() || original_lines[group_start - 1].line.range.start
                    != original_lines[group_start as int].line.range.start,
                forall|i: int| 0 <= i < lines@.len() ==> line_end_only(#[trigger] original_lines[i], lines@[i]),
                forall|i: int| group_start <= i < lines@.len() ==> #[trigger] lines@[i] == original_lines[i],
                forall|i: int|
                    0 <= i < group_start ==> (#[trigger] lines@[i]).line.range.end == run_inferred_end(
                        original_lines,
                        run_begin(original_lines, i),
                        duration,
                        original.fallback_duration,
                    ),
                diagnostic_marks(self.diagnostics@) == diagnostic_marks(original.diagnostics@) + if group_start == lines@.len() {
                    ends_problems(original_lines, duration, original.fallback_duration)
                } else {
                    Seq::empty()
                },
            decreases lines.len() - group_start,
        {
            let start = lines[group_start].line.range.start;
            let next_group = run_end_of(lines, group_start);
            let latest = latest_segment_start(lines, group_start, next_group);
            proof {
                lemma_run_end_bounds(lines@, group_start as int);
                lemma_run_end_suffix(lines@, original_lines, group_start as int);
                lemma_group_latest_same(lines@, original_lines, group_start as int, next_group as int);
            }
            let next_start = if next_group < lines.len() {
                Some(lines[next_group].line.range.start)
            } else {
                None
            };
            let group_span = lines[group_start].span;
            proof {
                if next_group == lines.len() {
                    assert(original_lines.last().line.range.start == start);
                    lemma_run_begin_of_member(original_lines, group_start as int, lines.len() - 1);
                    assert(group_span == original_lines[run_begin(original_lines, original_lines.len() - 1)].span);
                }
            }
            let inferred = match (next_start, latest) {
                (Some(next), Some(segment)) => Some(next.later(segment)),
                (Some(next), None) => Some(next),
                (None, Some(segment)) => match self.final_line_end(start, duration, group_span) {
                    Some(end) => Some(end.later(segment)),
                    None => Some(segment),
                },
                (None, None) => self.final_line_end(start, duration, group_span),
            };
            proof {
                reveal(run_inferred_end);
                assert(inferred == run_inferred_end(original_lines, group_start as int, duration, original.fallback_duration));
            }
            let ghost ends_before = lines@;
            let mut j = group_start;
            while j < next_group
                invariant
                    group_start <= j <= next_group <= lines@.len(),
                    lines@.len() == original_lines.len(),
                    forall|i: int| 0 <= i < lines@.len() ==> line_end_only(#[trigger] original_lines[i], lines@[i]),
                    forall|i: int| j <= i < lines@.len() ==> #[trigger] lines@[i] == original_lines[i],
                    forall|i: int| 0 <= i < group_start ==> #[trigger] lines@[i] == ends_before[i],
                    forall|i: int| group_start <= i < j ==> (#[trigger] lines@[i]).line.range.end == inferred,
                decreases next_group - j,
            {
                lines[j].line.range.end = inferred;
                j += 1;
            }
            proof {
                assert forall|i: int| 0 <= i < next_group implies (#[trigger] lines@[i]).line.range.end
                    == run_inferred_end(original_lines, run_begin(original_lines, i), duration, original.fallback_duration) by {
                    if i >= group_start {
                        lemma_run_begin_of_member(original_lines, group_start as int, i);
                    } else {
                        assert(lines@[i] == ends_before[i]);
                    }
                }
                lemma_run_end_bounds(original_lines, group_start as int);
            }
            group_start = next_group;
        }
    }

    /// Clamps every segment into its line and truncates segments of a lane that overlap
    /// the next one; each repair is recorded.
    #[verifier::rlimit(80)]
    pub fn normalize_segment_ranges(&mut self, lines: &mut Vec<ParsedLine>)
        requires
            old(self).wf(),
        ensures
            final(self).wf(),
            final(self).settings() == old(self).settings(),
            final(lines)@.len() == old(lines)@.len(),
            final(self).same_metadata(*old(self)),
            forall|i: int| 0 <= i < old(lines)@.len() ==> segment_times_only(#[trigger] old(lines)@[i], final(lines)@[i]),
            forall|i: int| 0 <= i < old(lines)@.len() ==> line_normalized(#[trigger] old(lines)@[i], final(lines)@[i]),
            forall|i: int| 0 <= i < final(lines)@.len() ==> segments_within(#[trigger] final(lines)@[i].line),
            diagnostic_marks(final(self).reported()) == diagnostic_marks(old(self).reported()) + lines_repairs(
                old(lines)@,
                old(lines)@.len() as int,
            ),
            final(self).reported().len() == old(self).reported().len() + lines_repairs(
                old(lines)@,
                old(lines)@.len() as int,
            ).len(),
            forall|k: int|
                old(self).reported().len() <= k < final(self).reported().len() ==> (#[trigger] final(self).reported()[k]).severity == if final(self).reported()[k].code == DiagnosticCode::UnknownMetadata {
                    DiagnosticSeverity::Warning
                } else {
                    severity_for(old(self).settings().0)
                },
    {
        let ghost original = *self;
        let ghost original_lines = lines@;
        let ghost base = diagnostic_marks(self.diagnostics@);
        let mut i: usize = 0;
        while i < lines.len()
            invariant
                self.wf(),
                self.settings() == original.settings(),
                self.metadata == original.metadata,
                lines@.len() == original_lines.len(),
                i <= lines@.len(),
                forall|q: int| 0 <= q < lines@.len() ==> segment_times_only(#[trigger] original_lines[q], lines@[q]),
                forall|q: int| 0 <= q < i ==> segments_within(#[trigger] lines@[q].line),
                forall|q: int| 0 <= q < i ==> line_normalized(#[trigger] original_lines[q], lines@[q]),
                forall|q: int| i <= q < lines@.len() ==> #[trigger] lines@[q] == original_lines[q],
                diagnostic_marks(self.diagnostics@) == base + lines_repairs(original_lines, i as int),
            decreases lines.len() - i,
        {
            let line_start = lines[i].line.range.start;
            let line_end = lines[i].line.range.end;
            let span = lines[i].span;
            let ghost line_before = lines@[i as int];
            let mut l: usize = 0;
            while l < lines[i].line.lanes.len()
                invariant
                    self.wf(),
                    self.settings() == original.settings(),
                    self.metadata == original.metadata,
                    lines@.len() == original_lines.len(),
                    i < lines@.len(),
                    l <= lines@[i as int].line.lanes@.len(),
                    line_start == lines@[i as int].line.range.start,
                    line_end == lines@[i as int].line.range.end,
                    forall|q: int| 0 <= q < lines@.len() ==> segment_times_only(#[trigger] original_lines[q], lines@[q]),
                    forall|q: int| 0 <= q < i ==> segments_within(#[trigger] lines@[q].line),
                    lines@[i as int].line.range.well_ordered() ==> forall|a: int, b: int|
                        0 <= a < l && 0 <= b < lines@[i as int].line.lanes@[a].segments@.len()
                            ==> segment_within(#[trigger] lines@[i as int].line.lanes@[a].segments@[b], lines@[i as int].line.range),
                    forall|q: int| 0 <= q < i ==> line_normalized(#[trigger] original_lines[q], lines@[q]),
                    forall|q: int| i < q < lines@.len() ==> #[trigger] lines@[q] == original_lines[q],
                    lines@[i as int].source_order == original_lines[i as int].source_order,
                    lines@[i as int].span == original_lines[i as int].span,
                    lines@[i as int].line.id == original_lines[i as int].line.id,
                    lines@[i as int].line.range == original_lines[i as int].line.range,
                    lines@[i as int].line.lanes@.len() == original_lines[i as int].line.lanes@.len(),
                    forall|a: int| 0 <= a < l ==> lane_normalized(
                        #[trigger] original_lines[i as int].line.lanes@[a],
                        lines@[i as int].line.lanes@[a],
                        line_start,
                        line_end,
                    ),
                    forall|a: int|
                        l <= a < lines@[i as int].line.lanes@.len() ==> #[trigger] lines@[i as int].line.lanes@[a]
                            == original_lines[i as int].line.lanes@[a],
                    diagnostic_marks(self.diagnostics@) == base + lines_repairs(original_lines, i as int) + lanes_repairs(
                        original_lines[i as int].line.lanes@,
                        line_start,
                        line_end,
                        span,
                        l as int,
                    ),
                    span == original_lines[i as int].span,
                decreases original_lines[i as int].line.lanes@.len() - l,
            {
                let mut k: usize = 0;
                while k < lines[i].line.lanes[l].segments.len()
                    invariant
                        self.wf(),
                        self.settings() == original.settings(),
                        self.metadata == original.metadata,
                        lines@.len() == original_lines.len(),
                        i < lines@.len(),
                        l < lines@[i as int].line.lanes@.len(),
                        k <= lines@[i as int].line.lanes@[l as int].segments@.len(),
                        line_start == lines@[i as int].line.range.start,
                        line_end == lines@[i as int].line.range.end,
                        forall|q: int| 0 <= q < lines@.len() ==> segment_times_only(#[trigger] original_lines[q], lines@[q]),
                        forall|q: int| 0 <= q < i ==> segments_within(#[trigger] lines@[q].line),
                        lines@[i as int].line.range.well_ordered() ==> forall|a: int, b: int|
                            0 <= a < l && 0 <= b < lines@[i as int].line.lanes@[a].segments@.len()
                                ==> segment_within(#[trigger] lines@[i as int].line.lanes@[a].segments@[b], lines@[i as int].line.range),
                        lines@[i as int].line.range.well_ordered() ==> forall|b: int|
                            0 <= b < k ==> segment_within(#[trigger] lines@[i as int].line.lanes@[l as int].segments@[b], lines@[i as int].line.range),
                        forall|q: int| 0 <= q < i ==> line_normalized(#[trigger] original_lines[q], lines@[q]),
                        forall|q: int| i < q < lines@.len() ==> #[trigger] lines@[q] == original_lines[q],
                        lines@[i as int].source_order == original_lines[i as int].source_order,
                        lines@[i as int].span == original_lines[i as int].span,
                        lines@[i as int].line.id == original_lines[i as int].line.id,
                        lines@[i as int].line.range == original_lines[i as int].line.range,
                        lines@[i as int].line.lanes@.len() == original_lines[i as int].line.lanes@.len(),
                        forall|a: int| 0 <= a < l ==> lane_normalized(
                            #[trigger] original_lines[i as int].line.lanes@[a],
                            lines@[i as int].line.lanes@[a],
                            line_start,
                            line_end,
                        ),
                        forall|a: int|
                            l < a < lines@[i as int].line.lanes@.len() ==> #[trigger] lines@[i as int].line.lanes@[a]
                                == original_lines[i as int].line.lanes@[a],
                        lines@[i as int].line.lanes@[l as int].kind == original_lines[i as int].line.lanes@[l as int].kind,
                        lines@[i as int].line.lanes@[l as int].language == original_lines[i as int].line.lanes@[l as int].language,
                        lines@[i as int].line.lanes@[l as int].text == original_lines[i as int].line.lanes@[l as int].text,
                        lines@[i as int].line.lanes@[l as int].segments@ == normalized_prefix(
                            original_lines[i as int].line.lanes@[l as int].segments@,
                            line_start,
                            line_end,
                            k as int,
                        ),
                        diagnostic_marks(self.diagnostics@) == base + lines_repairs(original_lines, i as int) + lanes_repairs(
                            original_lines[i as int].line.lanes@,
                            line_start,
                            line_end,
                            span,
                            l as int,
                        ) + lane_repairs(
                            original_lines[i as int].line.lanes@[l as int].segments@,
                            line_start,
                            line_end,
                            span,
                            k as int,
                        ),
                        span == original_lines[i as int].span,
                    decreases lines@[i as int].line.lanes@[l as int].segments@.len() - k,
                {
                    let ghost lines_before = lines@;
                    let mut start = lines[i].line.lanes[l].segments[k].range.start;
                    let mut end = match lines[i].line.lanes[l].segments[k].range.end {
                        Some(end) => Some(end),
                        None => line_end,
                    };
                    if start.0 < line_start.0 {
                        self.recover_str(
                            DiagnosticCode::InvalidRange,
                            "segment started before its line and was clamped",
                            Some(span),
                        );
                        start = line_start;
                    }
                    match line_end {
                        Some(line_end) => if start.0 > line_end.0 {
                            self.recover_str(
                                DiagnosticCode::InvalidRange,
                                "segment started after its line ended and was clamped",
                                Some(span),
                            );
                            start = line_end;
                        },
                        None => {},
                    }
                    match end {
                        Some(e) => if e.0 < start.0 {
                            self.recover_str(
                                DiagnosticCode::InvalidRange,
                                "segment end preceded its start and was clamped",
                                Some(span),
                            );
                            end = Some(start);
                        },
                        None => {},
                    }
                    match (end, line_end) {
                        (Some(segment_end), Some(line_end)) => if segment_end.0 > line_end.0 {
                            self.recover_str(
                                DiagnosticCode::InvalidRange,
                                "segment ended after its line and was clamped",
                                Some(span),
                            );
                            end = Some(line_end.later(start));
                        },
                        _ => {},
                    }
                    proof {
                        lemma_normalized_prefix_len(
                            original_lines[i as int].line.lanes@[l as int].segments@,
                            line_start,
                            line_end,
                            k as int,
                        );
                        assert(lines_before[i as int].line.lanes@[l as int].segments@[k as int]
                            == original_lines[i as int].line.lanes@[l as int].segments@[k as int]);
                        assert(TimeRange { start, end } == clamped_range(
                            original_lines[i as int].line.lanes@[l as int].segments@[k as int].range,
                            line_start,
                            line_end,
                        ));
                    }
                    if k > 0 {
                        let overlaps = match lines[i].line.lanes[l].segments[k - 1].range.end {
                            Some(previous_end) => start.0 < previous_end.0,
                            None => true,
                        };
                        if overlaps {
                            self.recover_str(
                                DiagnosticCode::InvalidRange,
                                "segments in the same lane overlapped; the earlier segment was truncated",
                                Some(span),
                            );
                            lines[i].line.lanes[l].segments[k - 1].range.end = Some(start);
                        }
                    }
                    lines[i].line.lanes[l].segments[k].range = TimeRange { start, end };
                    proof {
                        assert(lines@[i as int].line.lanes@[l as int].segments@ =~= normalized_prefix(
                            original_lines[i as int].line.lanes@[l as int].segments@,
                            line_start,
                            line_end,
                            k + 1,
                        ));
                        assert forall|q: int| 0 <= q < lines@.len() implies segment_times_only(
                            #[trigger] original_lines[q],
                            lines@[q],
                        ) by {
                            assert(segment_times_only(original_lines[q], lines_before[q]));
                            if q == i {
                                assert forall|a: int| 0 <= a < lines@[q].line.lanes@.len() implies lane_times_only(
                                    #[trigger] original_lines[q].line.lanes@[a],
                                    lines@[q].line.lanes@[a],
                                ) by {
                                    assert(lane_times_only(original_lines[q].line.lanes@[a], lines_before[q].line.lanes@[a]));
                                }
                            }
                        }
                    }
                    k += 1;
                }
                l += 1;
            }
            i += 1;
        }
        proof {
            lemma_marks_len(self.diagnostics@);
            lemma_marks_len(original.diagnostics@);
            assert(self.severities_ok());
        }
    }

    /// When parsing leniently, the duration is widened to cover every well-ordered line end.
    fn normalized_document_duration(&self, duration: Option<LyricTime>, lines: &Vec<ParsedLine>) -> (covered: Option<LyricTime>)
        ensures
            self.mode != ParseMode::Lenient ==> covered == duration,
            self.mode == ParseMode::Lenient ==> covered == covering_duration(duration, lines@, lines@.len() as int),
    {
        match self.mode {
            ParseMode::Lenient => {},
            ParseMode::Strict => return duration,
        }
        let mut covered = duration;
        let mut i: usize = 0;
        while i < lines.len()
            invariant
                i <= lines@.len(),
                covered == covering_duration(duration, lines@, i as int),
            decreases lines.len() - i,
        {
            let range = lines[i].line.range;
            if range.is_valid() {
                match range.end {
                    Some(end) => covered = match covered {
                        Some(current) => Some(current.later(end)),
                        None => Some(end),
                    },
                    None => {},
                }
            }
            i += 1;
        }
        covered
    }
}

/// What every parsed document satisfies: one track, of the parser's lane kind and
/// language; its lines are sorted by start, and each holds one lane of that kind and
/// language, whose segments name spans of its text and lie within the line.
pub open spec fn parsed_document(document: LyricsDocument, kind: LaneKind, language: Option<String>) -> bool {
    let lines = document.tracks@[0].lines@;
    &&& document.tracks@.len() == 1
    &&& document.tracks@[0].kind == kind
    &&& document.tracks@[0].language == language
    &&& forall|i: int| 0 <= i < lines.len() ==> line_shape(#[trigger] lines[i], kind, language)
    &&& forall|i: int| 0 <= i < lines.len() ==> segments_within(#[trigger] lines[i])
    &&& forall|i: int, j: int| 0 <= i <= j < lines.len() ==> lines[i].range.start.0 <= lines[j].range.start.0
}

/// The duration a document starts from: a non-negative media duration, else a non-negative
/// length tag.
pub open spec fn source_duration(media: Option<LyricTime>, length: Option<LyricTime>) -> Option<LyricTime> {
    match media {
        Some(d) if d.0 >= 0 => Some(d),
        _ => match length {
            Some(l) if l.0 >= 0 => Some(l),
            _ => None,
        },
    }
}

/// `inferred` is `built` with the end of each run of lines that start together inferred.
pub open spec fn ends_inferred(built: Seq<ParsedLine>, inferred: Seq<ParsedLine>, duration: Option<LyricTime>, fallback: Option<LyricTime>) -> bool {
    &&& inferred.len() == built.len()
    &&& forall|i: int|
        0 <= i < built.len() ==> line_end_only(#[trigger] built[i], inferred[i])
            && inferred[i].line.range.end == run_inferred_end(built, run_begin(built, i), duration, fallback)
}

/// `after` is `before` with the segments of every line normalized.
pub open spec fn lines_normalized(before: Seq<ParsedLine>, after: Seq<ParsedLine>) -> bool {
    &&& after.len() == before.len()
    &&& forall|i: int| 0 <= i < before.len() ==> line_normalized(#[trigger] before[i], after[i])
}

/// The document that the LRC source `chars` gives: the metadata its tags set, and one track
/// of the given lane kind and language whose lines are built from its timestamped lines,
/// stably sorted by start, given inferred ends and normalized segments; the duration is the
/// source duration, widened in lenient mode to cover every well-ordered line.
pub open spec fn lrc_document(
    chars: Seq<char>,
    mode: ParseMode,
    kind: LaneKind,
    language: Option<String>,
    media_duration: Option<LyricTime>,
    fallback_duration: Option<LyricTime>,
    document: LyricsDocument,
) -> bool {
    let (metadata, raws) = read_input(chars);
    let duration = source_duration(media_duration, metadata.length);
    &&& metadata_view(document.metadata) == metadata
    &&& document.tracks@.len() == 1
    &&& document.tracks@[0].kind == kind
    &&& document.tracks@[0].language == language
    &&& exists|built: Seq<ParsedLine>, inferred: Seq<ParsedLine>, normalized: Seq<ParsedLine>|
        #![trigger built_lines(raws, metadata.offset, kind, language, built), ends_inferred(built, inferred, duration, fallback_duration), lines_normalized(inferred, normalized)]
        {
            &&& built_lines(raws, metadata.offset, kind, language, built)
            &&& ends_inferred(built, inferred, duration, fallback_duration)
            &&& lines_normalized(inferred, normalized)
            &&& document.tracks@[0].lines@.len() == normalized.len()
            &&& forall|i: int|
                0 <= i < normalized.len() ==> #[trigger] document.tracks@[0].lines@[i] == normalized[i].line
            &&& document.duration == (if mode == ParseMode::Lenient {
                covering_duration(duration, normalized, normalized.len() as int)
            } else {
                duration
            })
        }
}

/// `marks` are the kinds, messages and places of what parsing the LRC source `chars`
/// records, in order: the problems and notes of reading its lines, a negative media duration, the times that overflow when
/// moved, those of the end of the last run of lines, and the repairs of segments normalized
/// into their lines.
pub open spec fn lrc_problems(
    chars: Seq<char>,
    kind: LaneKind,
    language: Option<String>,
    media_duration: Option<LyricTime>,
    fallback_duration: Option<LyricTime>,
    marks: Seq<Problem>,
) -> bool {
    let (metadata, raws) = read_input(chars);
    let duration = source_duration(media_duration, metadata.length);
    exists|built: Seq<ParsedLine>, inferred: Seq<ParsedLine>|
        #![trigger built_lines(raws, metadata.offset, kind, language, built), ends_inferred(built, inferred, duration, fallback_duration)]
        {
            &&& built_lines(raws, metadata.offset, kind, language, built)
            &&& ends_inferred(built, inferred, duration, fallback_duration)
            &&& marks == input_problems(chars) + duration_problems(media_duration) + build_problems(
                raws,
                metadata.offset,
                raws.len() as int,
            ) + ends_problems(built, duration, fallback_duration) + lines_repairs(inferred, inferred.len() as int)
        }
}

/// With every problem recorded at the severity of `mode` and every other diagnostic a
/// warning, some diagnostic is an error exactly when parsing strictly recorded a problem.
proof fn lemma_errors_are_problems(diagnostics: Seq<Diagnostic>, mode: ParseMode)
    requires
        forall|i: int|
            0 <= i < diagnostics.len() ==> (#[trigger] diagnostics[i]).severity == if diagnostics[i].code
                == DiagnosticCode::UnknownMetadata {
                DiagnosticSeverity::Warning
            } else {
                severity_for(mode)
            },
    ensures
        any_error(diagnostics) <==> (mode == ParseMode::Strict && records_problem(diagnostic_marks(diagnostics))),
{
    lemma_marks_len(diagnostics);
    let marks = diagnostic_marks(diagnostics);
    if any_error(diagnostics) {
        let i = choose|i: int| 0 <= i < diagnostics.len() && (#[trigger] diagnostics[i]).severity == DiagnosticSeverity::Error;
        assert(marks[i].0 == diagnostics[i].code);
    }
    if mode == ParseMode::Strict && records_problem(marks) {
        let i = choose|i: int| 0 <= i < marks.len() && (#[trigger] marks[i]).0 != DiagnosticCode::UnknownMetadata;
        assert(marks[i].0 == diagnostics[i].code);
        assert(diagnostics[i].severity == DiagnosticSeverity::Error);
    }
}

/// The lines of `parsed`, in order.
fn into_track_lines(parsed: Vec<ParsedLine>) -> (lines: Vec<LyricLine>)
    ensures
        lines@.len() == parsed@.len(),
        forall|i: int| 0 <= i < parsed@.len() ==> lines@[i] == (#[trigger] parsed@[i]).line,
{
    let ghost original = parsed@;
    let mut parsed = parsed;
    let mut reversed: Vec<LyricLine> = Vec::new();
    while parsed.len() > 0
        invariant
            parsed@.len() + reversed@.len() == original.len(),
            parsed@ == original.take(parsed@.len() as int),
            forall|i: int| 0 <= i < reversed@.len() ==> reversed@[i] == (#[trigger] original[original.len() - 1 - i]).line,
        decreases parsed@.len(),
    {
        let last = parsed.pop().unwrap();
        reversed.push(last.line);
        proof {
            assert(parsed@ =~= original.take(parsed@.len() as int));
        }
    }
    let mut lines: Vec<LyricLine> = Vec::new();
    while reversed.len() > 0
        invariant
            lines@.len() + reversed@.len() == original.len(),
            forall|i: int| 0 <= i < reversed@.len() ==> reversed@[i] == (#[trigger] original[original.len() - 1 - i]).line,
            forall|i: int| 0 <= i < lines@.len() ==> lines@[i] == (#[trigger] original[i]).line,
        decreases reversed@.len(),
    {
        let ghost at = lines@.len();
        let ghost remaining = reversed@.len();
        let line = reversed.pop().unwrap();
        proof {
            assert(line == original[original.len() - 1 - (remaining - 1)].line);
            assert(original.len() - 1 - (remaining - 1) == at);
        }
        lines.push(line);
    }
    lines
}

impl LrcParser {
    /// Parses `chars` and assembles the document; it is given only when no problem was an
    /// error.
    fn parse(self, chars: &Vec<char>) -> (report: ParseReport)
        requires
            self.wf(),
            self.unread(),
            byte_len(chars@) < usize::MAX,
        ensures
            report.document is Some <==> !any_error(report.diagnostics@),
            self.mode == ParseMode::Lenient ==> !any_error(report.diagnostics@),
            report.document matches Some(document) ==> parsed_document(document, self.lane_kind, self.language),
            report.document matches Some(document) ==> lrc_document(
                chars@,
                self.mode,
                self.lane_kind,
                self.language,
                self.media_duration,
                self.fallback_duration,
                document,
            ),
            lrc_problems(
                chars@,
                self.lane_kind,
                self.language,
                self.media_duration,
                self.fallback_duration,
                diagnostic_marks(report.diagnostics@),
            ),
            any_error(report.diagnostics@) <==> (self.mode == ParseMode::Strict && records_problem(diagnostic_marks(report.diagnostics@))),
            report.diagnostics@.len() == diagnostic_marks(report.diagnostics@).len(),
            forall|i: int|
                0 <= i < report.diagnostics@.len() ==> (#[trigger] report.diagnostics@[i]).severity == if report.diagnostics@[i].code
                    == DiagnosticCode::UnknownMetadata {
                    DiagnosticSeverity::Warning
                } else {
                    severity_for(self.mode)
                },
    {
        let ghost original = self;
        let mut parser = self;
        proof {
            assert(metadata_view(parser.metadata).unknown =~= Seq::<(Seq<char>, Seq<char>)>::empty());
            assert(metadata_view(parser.metadata) == empty_metadata());
            assert(raw_views(parser.raw_lines@) =~= Seq::<RawView>::empty());
        }
        proof {
            assert(parser.diagnostics@.len() == 0);
        }
        parser.parse_lines(chars);
        let ghost read = read_input(chars@);
        let ghost read_metadata = parser.metadata;
        let ghost start_duration = source_duration(original.media_duration, read.0.length);
        let duration = parser.document_duration();
        let mut lines = parser.build_lines();
        let ghost built = lines@;
        parser.infer_line_ends(&mut lines, duration);
        let ghost inferred = lines@;
        parser.normalize_segment_ranges(&mut lines);
        let ghost normalized = lines@;
        let duration = parser.normalized_document_duration(duration, &lines);
        proof {
            assert forall|i: int| 0 <= i < lines@.len() implies line_shape(
                #[trigger] lines@[i].line,
                original.lane_kind,
                original.language,
            ) by {
                assert(line_end_only(built[i], inferred[i]));
                assert(line_shape(built[i].line, original.lane_kind, original.language));
                assert(line_shape(inferred[i].line, original.lane_kind, original.language));
                lemma_shape_kept_by_times(inferred[i], lines@[i], original.lane_kind, original.language);
            }
            assert forall|i: int, j: int| 0 <= i <= j < lines@.len() implies lines@[i].line.range.start.0
                <= lines@[j].line.range.start.0 by {
                assert(line_end_only(built[i], inferred[i]));
                assert(line_end_only(built[j], inferred[j]));
                assert(segment_times_only(inferred[i], lines@[i]));
                assert(segment_times_only(inferred[j], lines@[j]));
                if i < j {
                    assert(in_start_order(built));
                }
            }
        }
        let ghost final_lines = lines@;
        let track_lines = into_track_lines(lines);
        let has_errors = contains_error(&parser.diagnostics);
        proof {
            assert(parser.severities_ok());
            lemma_errors_are_problems(parser.diagnostics@, original.mode);
            lemma_marks_len(parser.diagnostics@);
            assert(metadata_view(read_metadata).unknown.len() == read_metadata.unknown@.len());
            assert(raw_views(original.raw_lines@) =~= Seq::<RawView>::empty());
            assert(metadata_view(read_metadata).offset == read.0.offset);
            assert(built_lines(read.1, read.0.offset, original.lane_kind, original.language, built));
            assert(ends_inferred(built, inferred, start_duration, original.fallback_duration));
            assert(lrc_problems(
                chars@,
                original.lane_kind,
                original.language,
                original.media_duration,
                original.fallback_duration,
                diagnostic_marks(parser.diagnostics@),
            ));
            if original.mode == ParseMode::Lenient {
                assert forall|i: int| 0 <= i < parser.diagnostics@.len() implies (#[trigger] parser.diagnostics@[i]).severity
                    != DiagnosticSeverity::Error by {
                    assert(parser.severities_ok());
                }
            }
        }
        let LrcParser { lane_kind, language, diagnostics, metadata, .. } = parser;
        let track = LyricTrack { language, kind: lane_kind, lines: track_lines };
        let document = LyricsDocument { metadata, tracks: vec![track], duration };
        proof {
            let doc_lines = document.tracks@[0].lines@;
            assert forall|i: int| 0 <= i < doc_lines.len() implies line_shape(
                #[trigger] doc_lines[i],
                original.lane_kind,
                original.language,
            ) && segments_within(doc_lines[i]) by {
                assert(doc_lines[i] == final_lines[i].line);
            }
            assert forall|i: int, j: int| 0 <= i <= j < doc_lines.len() implies doc_lines[i].range.start.0
                <= doc_lines[j].range.start.0 by {
                assert(doc_lines[i] == final_lines[i].line);
                assert(doc_lines[j] == final_lines[j].line);
            }
            assert(metadata_view(read_metadata) == read.0);
            assert(document.metadata == read_metadata);
            assert(built_lines(read.1, read.0.offset, original.lane_kind, original.language, built));
            assert(ends_inferred(built, inferred, start_duration, original.fallback_duration));
            assert(lines_normalized(inferred, normalized));
            assert(lrc_document(
                chars@,
                original.mode,
                original.lane_kind,
                original.language,
                original.media_duration,
                original.fallback_duration,
                document,
            ));
        }
        if has_errors {
            ParseReport { document: None, diagnostics }
        } else {
            ParseReport { document: Some(document), diagnostics }
        }
    }
}

/// Parses LRC text: line timestamps `[mm:ss.xx]` (several may share one line of text),
/// metadata tags `[key:value]`, enhanced word timestamps `<mm:ss.xx>` and inline voice tags
/// `[v1:...]`. Problems are recovered from and reported; when parsing strictly they are
/// errors and no document is given.
pub fn parse_lrc(input: &str, options: &ParseOptions) -> (report: ParseReport)
    requires
        byte_len(input@) < usize::MAX,
    ensures
        report.document is Some <==> !any_error(report.diagnostics@),
        options.mode == ParseMode::Lenient ==> !any_error(report.diagnostics@),
        report.document matches Some(document) ==> parsed_document(document, options.lane_kind, options.language),
        report.document matches Some(document) ==> lrc_document(
            input@,
            options.mode,
            options.lane_kind,
            options.language,
            options.media_duration,
            options.fallback_duration,
            document,
        ),
        lrc_problems(
            input@,
            options.lane_kind,
            options.language,
            options.media_duration,
            options.fallback_duration,
            diagnostic_marks(report.diagnostics@),
        ),
        any_error(report.diagnostics@) <==> (options.mode == ParseMode::Strict && records_problem(diagnostic_marks(report.diagnostics@))),
        report.diagnostics@.len() == diagnostic_marks(report.diagnostics@).len(),
        forall|i: int|
            0 <= i < report.diagnostics@.len() ==> (#[trigger] report.diagnostics@[i]).severity == if report.diagnostics@[i].code
                == DiagnosticCode::UnknownMetadata {
                DiagnosticSeverity::Warning
            } else {
                severity_for(options.mode)
            },
{
    let chars = chars_of(input);
    let parser = LrcParser::new(options);
    parser.parse(&chars)
}

} // verus!
