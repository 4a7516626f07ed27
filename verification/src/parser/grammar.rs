//! What an LRC source says, as plain values: the metadata its tags set and the raw lines
//! its timestamped lines give, before times are shifted and lines are sorted.

use vstd::prelude::*;

use super::lrc::{
    Problem, body_problems, bytes_between, mark, inline_variant_body, order_problems, scanned_body, RawLine, RawSegment,
    SourceLine,
};
use super::timestamp::{inline_variant_tag, signed_value, timestamp_like, timestamp_value};
use crate::diagnostics::{DiagnosticCode, SourcePosition, SourceSpan};
use crate::model::{known_key_index, opt_text, LyricsMetadata};
use crate::text::{ascii_lower, find_from, is_blank, same_ignoring_ascii_case, trim_end_index, trim_start_index};
use crate::time::{fits_i64, LyricTime};

verus! {

/// The metadata of a document as plain values.
pub struct MetadataView {
    pub artist: Option<Seq<char>>,
    pub album: Option<Seq<char>>,
    pub title: Option<Seq<char>>,
    pub author: Option<Seq<char>>,
    pub creator: Option<Seq<char>>,
    pub editor: Option<Seq<char>>,
    pub version: Option<Seq<char>>,
    pub length: Option<LyricTime>,
    pub offset: LyricTime,
    pub unknown: Seq<(Seq<char>, Seq<char>)>,
}

pub open spec fn text_of(value: Option<String>) -> Option<Seq<char>> {
    match value {
        Some(text) => Some(text@),
        None => None,
    }
}

pub open spec fn metadata_view(metadata: LyricsMetadata) -> MetadataView {
    MetadataView {
        artist: text_of(metadata.artist),
        album: text_of(metadata.album),
        title: text_of(metadata.title),
        author: text_of(metadata.author),
        creator: text_of(metadata.creator),
        editor: text_of(metadata.editor),
        version: text_of(metadata.version),
        length: metadata.length,
        offset: metadata.offset,
        unknown: Seq::new(
            metadata.unknown@.len(),
            |i: int| (metadata.unknown@[i].key@, metadata.unknown@[i].value@),
        ),
    }
}

/// No metadata.
pub open spec fn empty_metadata() -> MetadataView {
    MetadataView {
        artist: None,
        album: None,
        title: None,
        author: None,
        creator: None,
        editor: None,
        version: None,
        length: None,
        offset: LyricTime(0),
        unknown: Seq::empty(),
    }
}

/// `metadata` with known field `index` (artist, album, title, author, creator, editor,
/// version) set to `value`.
pub open spec fn with_known(metadata: MetadataView, index: int, value: Seq<char>) -> MetadataView {
    MetadataView {
        artist: if index == 0 { Some(value) } else { metadata.artist },
        album: if index == 1 { Some(value) } else { metadata.album },
        title: if index == 2 { Some(value) } else { metadata.title },
        author: if index == 3 { Some(value) } else { metadata.author },
        creator: if index == 4 { Some(value) } else { metadata.creator },
        editor: if index == 5 { Some(value) } else { metadata.editor },
        version: if index == 6 { Some(value) } else { metadata.version },
        ..metadata
    }
}

/// The metadata after the tag `chars[start..end]`, a `key:value` pair: the trimmed value of a
/// known key (in any ASCII case) is kept; `length` takes a valid timestamp; `offset` takes a
/// signed number of milliseconds that fits; any other key is kept with its value; a tag
/// without a separator or with an empty key changes nothing.
pub open spec fn metadata_after(metadata: MetadataView, chars: Seq<char>, start: int, end: int) -> MetadataView {
    match find_from(chars, ':', start, end) {
        None => metadata,
        Some(colon) => {
            let key_start = trim_start_index(chars, start, colon);
            let key_end = trim_end_index(chars, key_start, colon);
            if key_start == key_end {
                metadata
            } else {
                let value_start = trim_start_index(chars, colon + 1, end);
                let value_end = trim_end_index(chars, value_start, end);
                let key = chars.subrange(key_start, key_end);
                let value = chars.subrange(value_start, value_end);
                let is_length = same_ignoring_ascii_case(key, seq!['l', 'e', 'n', 'g', 't', 'h']);
                let is_offset = same_ignoring_ascii_case(key, seq!['o', 'f', 'f', 's', 'e', 't']);
                if known_key_index(key) is Some {
                    with_known(metadata, known_key_index(key).unwrap(), value)
                } else if is_length {
                    length_after(metadata, value)
                } else if is_offset {
                    offset_after(metadata, value)
                } else {
                    MetadataView { unknown: metadata.unknown.push((key, value)), ..metadata }
                }
            }
        },
    }
}

/// The problem a `length` tag with `value` records: none for a timestamp, else why it is
/// none.
pub open spec fn length_problems(value: Seq<char>, span: SourceSpan) -> Seq<Problem> {
    match timestamp_value(value) {
        Ok(_) => Seq::empty(),
        Err(error) => seq![
            (DiagnosticCode::InvalidMetadata, "invalid length metadata: "@ + error.message_text(), Some(span)),
        ],
    }
}

/// The note on a metadata tag with the unknown key `key`, which is kept.
pub open spec fn unknown_tag(key: Seq<char>) -> Seq<char> {
    "unknown metadata tag ["@ + key + ":...] was preserved"@
}

/// The message of a tag that is neither a timestamp nor metadata.
pub open spec fn unrecognized_tag(contents: Seq<char>) -> Seq<char> {
    "unrecognized LRC tag ["@ + contents + "]"@
}

/// The kinds, messages and places of what reading the metadata tag `chars[start..end]`
/// records: a tag without a separator, an empty key, or a `length` that is no timestamp; an
/// `offset` that is no number of milliseconds that fits; a note on an unknown key, whose tag
/// is kept.
pub open spec fn metadata_problems(chars: Seq<char>, start: int, end: int, span: SourceSpan) -> Seq<Problem> {
    match find_from(chars, ':', start, end) {
        None => seq![(DiagnosticCode::InvalidMetadata, "metadata tag has no value separator"@, Some(span))],
        Some(colon) => {
            let key_start = trim_start_index(chars, start, colon);
            let key_end = trim_end_index(chars, key_start, colon);
            if key_start == key_end {
                seq![(DiagnosticCode::InvalidMetadata, "metadata key cannot be empty"@, Some(span))]
            } else {
                let value_start = trim_start_index(chars, colon + 1, end);
                let value_end = trim_end_index(chars, value_start, end);
                let key = chars.subrange(key_start, key_end);
                let value = chars.subrange(value_start, value_end);
                if known_key_index(key) is Some {
                    Seq::empty()
                } else if same_ignoring_ascii_case(key, seq!['l', 'e', 'n', 'g', 't', 'h']) {
                    length_problems(value, span)
                } else if same_ignoring_ascii_case(key, seq!['o', 'f', 'f', 's', 'e', 't']) {
                    mark(
                        !(signed_value(value) matches Some(millis) && fits_i64(millis * 1000)),
                        DiagnosticCode::InvalidOffset,
                        "offset must be a signed integer number of milliseconds"@,
                        Some(span),
                    )
                } else {
                    seq![(DiagnosticCode::UnknownMetadata, unknown_tag(key), Some(span))]
                }
            }
        },
    }
}

/// The metadata after a `length` tag with `value`: a valid timestamp is kept.
pub open spec fn length_after(metadata: MetadataView, value: Seq<char>) -> MetadataView {
    match timestamp_value(value) {
        Ok(micros) => MetadataView { length: Some(LyricTime(micros as i64)), ..metadata },
        Err(_) => metadata,
    }
}

/// The metadata after an `offset` tag with `value`: a signed number of milliseconds is kept
/// when its microseconds fit.
pub open spec fn offset_after(metadata: MetadataView, value: Seq<char>) -> MetadataView {
    match signed_value(value) {
        Some(millis) => if fits_i64(millis * 1000) {
            MetadataView { offset: LyricTime((millis * 1000) as i64), ..metadata }
        } else {
            metadata
        },
        None => metadata,
    }
}

/// The span of `chars[start..end]` on the source line that starts at `line_start`.
pub open spec fn span_at(source: SourceLine, chars: Seq<char>, line_start: int, start: int, end: int) -> SourceSpan {
    SourceSpan {
        start: SourcePosition {
            line: source.number,
            column: (start - line_start + 1) as usize,
            byte_offset: (source.byte_offset + bytes_between(chars, line_start, start)) as usize,
        },
        end: SourcePosition {
            line: source.number,
            column: (end - line_start + 1) as usize,
            byte_offset: (source.byte_offset + bytes_between(chars, line_start, end)) as usize,
        },
    }
}

/// The tags that open the source line from `line_start`, read from `cursor` to `end`: the
/// line timestamps with their spans, where the body starts, and the metadata after the
/// metadata tags. Reading stops at a character that opens no tag, at an unclosed tag, at an
/// inline voice tag after a timestamp, and at an unrecognized tag after a timestamp.
pub open spec fn scan_tags(
    chars: Seq<char>,
    source: SourceLine,
    line_start: int,
    cursor: int,
    end: int,
    stamps: Seq<(LyricTime, SourceSpan)>,
    metadata: MetadataView,
) -> (Seq<(LyricTime, SourceSpan)>, int, MetadataView)
    decreases end - cursor,
{
    if !(0 <= cursor < end <= chars.len()) || chars[cursor] != '[' {
        (stamps, cursor, metadata)
    } else {
        match find_from(chars, ']', cursor + 1, end) {
            None => (stamps, cursor, metadata),
            Some(close) => if close < cursor + 1 || close >= end {
                (stamps, cursor, metadata)
            } else {
                let contents = chars.subrange(cursor + 1, close);
                if stamps.len() > 0 && inline_variant_tag(contents) {
                    (stamps, cursor, metadata)
                } else {
                    match timestamp_value(contents) {
                        Ok(micros) => scan_tags(
                            chars,
                            source,
                            line_start,
                            close + 1,
                            end,
                            stamps.push((LyricTime(micros as i64), span_at(source, chars, line_start, cursor, close + 1))),
                            metadata,
                        ),
                        Err(_) => if timestamp_like(contents) {
                            scan_tags(chars, source, line_start, close + 1, end, stamps, metadata)
                        } else if find_from(chars, ':', cursor + 1, close) is Some {
                            scan_tags(
                                chars,
                                source,
                                line_start,
                                close + 1,
                                end,
                                stamps,
                                metadata_after(metadata, chars, cursor + 1, close),
                            )
                        } else if stamps.len() > 0 {
                            (stamps, cursor, metadata)
                        } else {
                            scan_tags(chars, source, line_start, close + 1, end, stamps, metadata)
                        },
                    }
                }
            },
        }
    }
}

/// The kinds, messages and places of the problems reading the tags of a source line from `cursor` to `end` records, once a
/// line timestamp has (`stamped`) or has not been read: an unclosed tag, a tag that looks
/// like a timestamp but is none, an unrecognized tag, and the problems of metadata tags.
/// Reading stops where `scan_tags` stops.
pub open spec fn tag_problems(
    chars: Seq<char>,
    source: SourceLine,
    line_start: int,
    cursor: int,
    end: int,
    stamped: bool,
) -> Seq<Problem>
    decreases end - cursor,
{
    if !(0 <= cursor < end <= chars.len()) || chars[cursor] != '[' {
        Seq::empty()
    } else {
        match find_from(chars, ']', cursor + 1, end) {
            None => seq![(DiagnosticCode::MalformedTag, "unclosed LRC tag"@, Some(span_at(source, chars, line_start, cursor, end)))],
            Some(close) => if close < cursor + 1 || close >= end {
                Seq::empty()
            } else {
                let contents = chars.subrange(cursor + 1, close);
                let tag_span = span_at(source, chars, line_start, cursor, close + 1);
                if stamped && inline_variant_tag(contents) {
                    Seq::empty()
                } else {
                    match timestamp_value(contents) {
                        Ok(_) => tag_problems(chars, source, line_start, close + 1, end, true),
                        Err(error) => if timestamp_like(contents) {
                            seq![(DiagnosticCode::InvalidTimestamp, "invalid line timestamp: "@ + error.message_text(), Some(tag_span))] + tag_problems(
                                chars,
                                source,
                                line_start,
                                close + 1,
                                end,
                                stamped,
                            )
                        } else if find_from(chars, ':', cursor + 1, close) is Some {
                            metadata_problems(chars, cursor + 1, close, tag_span) + tag_problems(
                                chars,
                                source,
                                line_start,
                                close + 1,
                                end,
                                stamped,
                            )
                        } else if stamped {
                            seq![(DiagnosticCode::MalformedTag, unrecognized_tag(contents), Some(tag_span))]
                        } else {
                            seq![(DiagnosticCode::MalformedTag, unrecognized_tag(contents), Some(tag_span))] + tag_problems(
                                chars,
                                source,
                                line_start,
                                close + 1,
                                end,
                                stamped,
                            )
                        },
                    }
                }
            },
        }
    }
}

/// A raw line as plain values.
pub struct RawView {
    pub id: u64,
    pub start: LyricTime,
    pub reference_start: LyricTime,
    pub text: Seq<char>,
    pub segments: Seq<RawSegment>,
    pub source_order: usize,
    pub span: SourceSpan,
}

pub open spec fn raw_view(raw: RawLine) -> RawView {
    RawView {
        id: raw.id.0,
        start: raw.start,
        reference_start: raw.reference_start,
        text: raw.text@,
        segments: raw.segments@,
        source_order: raw.source_order,
        span: raw.span,
    }
}

pub open spec fn raw_views(raws: Seq<RawLine>) -> Seq<RawView> {
    Seq::new(raws.len(), |k: int| raw_view(raws[k]))
}

/// The raw lines of one source line: one per timestamp, numbered from `first`, each with the
/// line's text and segments; the first timestamp is the reference of them all.
pub open spec fn stamped_lines(stamps: Seq<(LyricTime, SourceSpan)>, text: Seq<char>, segments: Seq<RawSegment>, first: int) -> Seq<RawView> {
    Seq::new(
        stamps.len(),
        |k: int|
            RawView {
                id: (first + k) as u64,
                start: stamps[k].0,
                reference_start: stamps[0].0,
                text,
                segments,
                source_order: (first + k) as usize,
                span: stamps[k].1,
            },
    )
}

/// The metadata and raw lines after the source line `chars[line_start..line_end]`: its tags
/// apply to the metadata, and when it has a line timestamp, its body (unwrapped from an
/// inline voice tag) gives a raw line per timestamp.
pub open spec fn read_line(
    chars: Seq<char>,
    source: SourceLine,
    line_start: int,
    line_end: int,
    metadata: MetadataView,
    raws: Seq<RawView>,
) -> (MetadataView, Seq<RawView>) {
    if line_start == line_end {
        (metadata, raws)
    } else {
        let (stamps, cursor, tagged) = scan_tags(chars, source, line_start, line_start, line_end, Seq::empty(), metadata);
        if stamps.len() == 0 {
            (tagged, raws)
        } else {
            let (offset, body_end) = match inline_variant_body(chars, cursor, line_end) {
                Some(bounds) => bounds,
                None => (0, line_end),
            };
            let (text, segments) = scanned_body(chars, cursor + offset, body_end);
            (tagged, raws + stamped_lines(stamps, text, segments, raws.len() as int))
        }
    }
}

/// The first timestamp of the last timestamped line among `raws`, if any.
pub open spec fn previous_start(raws: Seq<RawView>) -> Option<LyricTime> {
    if raws.len() > 0 {
        Some(raws.last().reference_start)
    } else {
        None
    }
}

/// The kinds, messages and places of the problems reading the source line `chars[line_start..line_end]` after the raw lines
/// `raws` records: those of its tags; then, when it has no line timestamp, lyric text left
/// over; else those of its body and of the order of its timestamps.
pub open spec fn line_problems(
    chars: Seq<char>,
    source: SourceLine,
    line_start: int,
    line_end: int,
    metadata: MetadataView,
    raws: Seq<RawView>,
) -> Seq<Problem> {
    if line_start == line_end {
        Seq::empty()
    } else {
        let (stamps, cursor, tagged) = scan_tags(chars, source, line_start, line_start, line_end, Seq::empty(), metadata);
        let tags = tag_problems(chars, source, line_start, line_start, line_end, false);
        if stamps.len() == 0 {
            tags + mark(
                !is_blank(chars.subrange(cursor, line_end)),
                DiagnosticCode::MissingTimestamp,
                "lyric text has no valid line timestamp"@,
                Some(span_at(source, chars, line_start, cursor, line_end)),
            )
        } else {
            let (offset, body_end) = match inline_variant_body(chars, cursor, line_end) {
                Some(bounds) => bounds,
                None => (0, line_end),
            };
            tags + body_problems(chars, source, line_start, cursor + offset, body_end, Seq::empty(), Seq::empty())
                + order_problems(
                stamps,
                previous_start(raws),
            )
        }
    }
}

/// Where the chunk of source that starts at `position` ends: after its line feed, or at
/// the end of the input.
pub open spec fn chunk_end(chars: Seq<char>, position: int) -> int {
    match find_from(chars, '\n', position, chars.len() as int) {
        Some(newline) => newline + 1,
        None => chars.len() as int,
    }
}

/// Where the line of the chunk `chars[position..chunk]` ends: before its line feed and a
/// carriage return before that.
pub open spec fn line_end_of(chars: Seq<char>, position: int, chunk: int) -> int {
    let without_feed = if chunk > position && chars[chunk - 1] == '\n' {
        chunk - 1
    } else {
        chunk
    };
    if without_feed > position && chars[without_feed - 1] == '\r' {
        without_feed - 1
    } else {
        without_feed
    }
}

/// The metadata and raw lines after the source lines from `position` on, the line there
/// being number `index + 1` at byte `byte_offset`.
pub open spec fn read_from(
    chars: Seq<char>,
    position: int,
    index: int,
    byte_offset: int,
    metadata: MetadataView,
    raws: Seq<RawView>,
) -> (MetadataView, Seq<RawView>)
    decreases chars.len() - position,
{
    if position < 0 || position >= chars.len() {
        (metadata, raws)
    } else {
        let chunk = chunk_end(chars, position);
        if chunk <= position || chunk > chars.len() {
            (metadata, raws)
        } else {
            let source = SourceLine { number: (index + 1) as usize, byte_offset: byte_offset as usize };
            let (metadata, raws) = read_line(chars, source, position, line_end_of(chars, position, chunk), metadata, raws);
            read_from(chars, chunk, index + 1, byte_offset + bytes_between(chars, position, chunk), metadata, raws)
        }
    }
}

/// The kinds, messages and places of the problems reading the source lines from `position` on records; the arguments are those
/// of `read_from`.
pub open spec fn read_problems(
    chars: Seq<char>,
    position: int,
    index: int,
    byte_offset: int,
    metadata: MetadataView,
    raws: Seq<RawView>,
) -> Seq<Problem>
    decreases chars.len() - position,
{
    if position < 0 || position >= chars.len() {
        Seq::empty()
    } else {
        let chunk = chunk_end(chars, position);
        if chunk <= position || chunk > chars.len() {
            Seq::empty()
        } else {
            let source = SourceLine { number: (index + 1) as usize, byte_offset: byte_offset as usize };
            let line_end = line_end_of(chars, position, chunk);
            let (next_metadata, next_raws) = read_line(chars, source, position, line_end, metadata, raws);
            line_problems(chars, source, position, line_end, metadata, raws) + read_problems(
                chars,
                chunk,
                index + 1,
                byte_offset + bytes_between(chars, position, chunk),
                next_metadata,
                next_raws,
            )
        }
    }
}

/// Whether the input starts with a byte order mark.
pub open spec fn has_bom(chars: Seq<char>) -> bool {
    chars.len() > 0 && chars[0] == '\u{feff}'
}

/// The kinds, messages and places of the problems reading a whole input records.
pub open spec fn input_problems(chars: Seq<char>) -> Seq<Problem> {
    if has_bom(chars) {
        read_problems(chars, 1, 0, 3, empty_metadata(), Seq::empty())
    } else {
        read_problems(chars, 0, 0, 0, empty_metadata(), Seq::empty())
    }
}

/// The metadata and raw lines of a whole input: a leading byte order mark is skipped and
/// counted in byte offsets.
pub open spec fn read_input(chars: Seq<char>) -> (MetadataView, Seq<RawView>) {
    if has_bom(chars) {
        read_from(chars, 1, 0, 3, empty_metadata(), Seq::empty())
    } else {
        read_from(chars, 0, 0, 0, empty_metadata(), Seq::empty())
    }
}

/// Reading a known tag stores its value in the field that the tag names, whatever the ASCII
/// case of its key: `ar` the artist, `al` the album, `ti` the title, `au` the author, `by`
/// the creator, `re` the editor and `ve` the version; the rest of the metadata stays.
pub proof fn lemma_known_tags_fill_their_own_fields(metadata: MetadataView, key: Seq<char>, value: Seq<char>)
    ensures
        same_ignoring_ascii_case(key, seq!['a', 'r']) ==> known_key_index(key) is Some && with_known(
            metadata,
            known_key_index(key).unwrap(),
            value,
        ) == (MetadataView { artist: Some(value), ..metadata }),
        same_ignoring_ascii_case(key, seq!['a', 'l']) ==> known_key_index(key) is Some && with_known(
            metadata,
            known_key_index(key).unwrap(),
            value,
        ) == (MetadataView { album: Some(value), ..metadata }),
        same_ignoring_ascii_case(key, seq!['t', 'i']) ==> known_key_index(key) is Some && with_known(
            metadata,
            known_key_index(key).unwrap(),
            value,
        ) == (MetadataView { title: Some(value), ..metadata }),
        same_ignoring_ascii_case(key, seq!['a', 'u']) ==> known_key_index(key) is Some && with_known(
            metadata,
            known_key_index(key).unwrap(),
            value,
        ) == (MetadataView { author: Some(value), ..metadata }),
        same_ignoring_ascii_case(key, seq!['b', 'y']) ==> known_key_index(key) is Some && with_known(
            metadata,
            known_key_index(key).unwrap(),
            value,
        ) == (MetadataView { creator: Some(value), ..metadata }),
        same_ignoring_ascii_case(key, seq!['r', 'e']) ==> known_key_index(key) is Some && with_known(
            metadata,
            known_key_index(key).unwrap(),
            value,
        ) == (MetadataView { editor: Some(value), ..metadata }),
        same_ignoring_ascii_case(key, seq!['v', 'e']) ==> known_key_index(key) is Some && with_known(
            metadata,
            known_key_index(key).unwrap(),
            value,
        ) == (MetadataView { version: Some(value), ..metadata }),
{
    let (ar, al, ti, au, by, re, ve) = (
        seq!['a', 'r'],
        seq!['a', 'l'],
        seq!['t', 'i'],
        seq!['a', 'u'],
        seq!['b', 'y'],
        seq!['r', 'e'],
        seq!['v', 'e'],
    );
    assert(ar[0] == 'a' && ar[1] == 'r' && al[0] == 'a' && al[1] == 'l' && ti[0] == 't' && ti[1] == 'i');
    assert(au[0] == 'a' && au[1] == 'u' && by[0] == 'b' && by[1] == 'y' && re[0] == 'r' && re[1] == 'e');
    assert(ve[0] == 'v' && ve[1] == 'e');
    if key.len() == 2 {
        let (first, second) = (ascii_lower(key[0]), ascii_lower(key[1]));
        assert(same_ignoring_ascii_case(key, ar) <==> first == 'a' && second == 'r');
        assert(same_ignoring_ascii_case(key, al) <==> first == 'a' && second == 'l');
        assert(same_ignoring_ascii_case(key, ti) <==> first == 't' && second == 'i');
        assert(same_ignoring_ascii_case(key, au) <==> first == 'a' && second == 'u');
        assert(same_ignoring_ascii_case(key, by) <==> first == 'b' && second == 'y');
        assert(same_ignoring_ascii_case(key, re) <==> first == 'r' && second == 'e');
        assert(same_ignoring_ascii_case(key, ve) <==> first == 'v' && second == 'e');
    }
}

/// A known tag reads back: when the metadata `after` holds what reading the tag `key` with
/// `value` into `before` gives, looking `key` up in `after` finds `value`.
pub proof fn lemma_known_tag_reads_back(before: MetadataView, after: LyricsMetadata, key: Seq<char>, value: Seq<char>)
    requires
        known_key_index(key) is Some,
        metadata_view(after) == with_known(before, known_key_index(key).unwrap(), value),
    ensures
        after.lookup(key) == Some(value),
{
    let i = known_key_index(key).unwrap();
    assert(0 <= i < 7);
    assert(opt_text(after.known_field(i)) == Some(value));
}

} // verus!
