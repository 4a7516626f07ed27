use std::ops::Range;

use vstd::prelude::*;
use vstd::string::StringExecFns;

use crate::text::{
    byte_len, char_width, chars_of, is_blank, is_boundary, lemma_byte_len_push,
    range_eq_ignore_ascii_case, same_ignoring_ascii_case, str_is_blank, utf8_width,
};
use crate::time::{LyricTime, TimeRange};

verus! {

/// The view of an optional string.
pub open spec fn opt_text(value: Option<String>) -> Option<Seq<char>> {
    match value {
        Some(s) => Some(s@),
        None => None,
    }
}

/// `a == b` for optional strings.
pub fn same_text(a: &Option<String>, b: &Option<String>) -> (same: bool)
    ensures
        same == (opt_text(*a) == opt_text(*b)),
{
    match (a, b) {
        (Some(x), Some(y)) => *x == *y,
        (None, None) => true,
        _ => false,
    }
}

/// A copy of an optional string.
pub fn copy_text(value: &Option<String>) -> (copy: Option<String>)
    ensures
        copy == *value,
{
    match value {
        Some(s) => Some(s.clone()),
        None => None,
    }
}

#[derive(Debug, PartialEq, Eq, Hash)]
pub enum LaneKind {
    Original,
    Other(String),
}

impl Clone for LaneKind {
    fn clone(&self) -> (copy: LaneKind)
        ensures
            copy == *self,
    {
        match self {
            LaneKind::Original => LaneKind::Original,
            LaneKind::Other(name) => LaneKind::Other(name.clone()),
        }
    }
}

impl LaneKind {
    /// Whether two kinds are equal: both original, or both custom with the same name.
    pub open spec fn same(self, other: LaneKind) -> bool {
        match (self, other) {
            (LaneKind::Original, LaneKind::Original) => true,
            (LaneKind::Other(a), LaneKind::Other(b)) => a@ == b@,
            _ => false,
        }
    }

    pub fn custom(name: &str) -> (kind: LaneKind)
        ensures
            kind matches LaneKind::Other(n) && n@ == name@,
    {
        LaneKind::Other(String::from_str(name))
    }

    /// `self == other`.
    pub fn same_as(&self, other: &LaneKind) -> (same: bool)
        ensures
            same == self.same(*other),
    {
        match (self, other) {
            (LaneKind::Original, LaneKind::Original) => true,
            (LaneKind::Other(a), LaneKind::Other(b)) => *a == *b,
            _ => false,
        }
    }

    pub fn is_original(&self) -> (original: bool)
        ensures
            original == (*self is Original),
    {
        match self {
            LaneKind::Original => true,
            LaneKind::Other(_) => false,
        }
    }
}

#[derive(Clone, Copy, Debug, Default, PartialEq, Eq, PartialOrd, Ord, Hash, Structural)]
pub struct LineId(pub u64);

impl LineId {
    pub fn new(value: u64) -> (id: LineId)
        ensures
            id.0 == value,
    {
        LineId(value)
    }

    pub fn get(self) -> (value: u64)
        ensures
            value == self.0,
    {
        self.0
    }
}

#[derive(Debug, PartialEq, Eq, Hash)]
pub struct MetadataTag {
    pub key: String,
    pub value: String,
}

impl Clone for MetadataTag {
    fn clone(&self) -> (copy: MetadataTag)
        ensures
            copy == *self,
    {
        MetadataTag { key: self.key.clone(), value: self.value.clone() }
    }
}

impl MetadataTag {
    pub fn new(key: &str, value: &str) -> (tag: MetadataTag)
        ensures
            tag.key@ == key@,
            tag.value@ == value@,
    {
        MetadataTag { key: String::from_str(key), value: String::from_str(value) }
    }
}

#[derive(Clone, Debug, PartialEq, Eq)]
pub struct LyricsMetadata {
    pub artist: Option<String>,
    pub album: Option<String>,
    pub title: Option<String>,
    pub author: Option<String>,
    pub creator: Option<String>,
    pub editor: Option<String>,
    pub version: Option<String>,
    pub length: Option<LyricTime>,
    pub offset: LyricTime,
    pub unknown: Vec<MetadataTag>,
}

impl Default for LyricsMetadata {
    fn default() -> (metadata: LyricsMetadata)
        ensures
            metadata.is_empty(),
    {
        LyricsMetadata::empty()
    }
}

/// The lower-case keys of the metadata tags that have fields of their own.
pub open spec fn known_key(index: int) -> Seq<char> {
    if index == 0 {
        seq!['a', 'r']
    } else if index == 1 {
        seq!['a', 'l']
    } else if index == 2 {
        seq!['t', 'i']
    } else if index == 3 {
        seq!['a', 'u']
    } else if index == 4 {
        seq!['b', 'y']
    } else if index == 5 {
        seq!['r', 'e']
    } else {
        seq!['v', 'e']
    }
}

/// The index among `ar al ti au by re ve` of the key equal to `key` ignoring ASCII case.
pub open spec fn known_key_index(key: Seq<char>) -> Option<int> {
    if same_ignoring_ascii_case(key, known_key(0)) {
        Some(0)
    } else if same_ignoring_ascii_case(key, known_key(1)) {
        Some(1)
    } else if same_ignoring_ascii_case(key, known_key(2)) {
        Some(2)
    } else if same_ignoring_ascii_case(key, known_key(3)) {
        Some(3)
    } else if same_ignoring_ascii_case(key, known_key(4)) {
        Some(4)
    } else if same_ignoring_ascii_case(key, known_key(5)) {
        Some(5)
    } else if same_ignoring_ascii_case(key, known_key(6)) {
        Some(6)
    } else {
        None
    }
}

/// The characters of `word`, an ASCII lower-case key.
pub fn key_chars(index: usize) -> (word: Vec<char>)
    requires
        index < 7,
    ensures
        word@ == known_key(index as int),
{
    let word = if index == 0 {
        vec!['a', 'r']
    } else if index == 1 {
        vec!['a', 'l']
    } else if index == 2 {
        vec!['t', 'i']
    } else if index == 3 {
        vec!['a', 'u']
    } else if index == 4 {
        vec!['b', 'y']
    } else if index == 5 {
        vec!['r', 'e']
    } else {
        vec!['v', 'e']
    };
    assert(word@ =~= known_key(index as int));
    word
}

/// `known_key_index` of `chars[start..end]`.
pub fn find_known_key(chars: &Vec<char>, start: usize, end: usize) -> (index: Option<usize>)
    requires
        start <= end <= chars.len(),
    ensures
        index matches Some(i) ==> known_key_index(chars@.subrange(start as int, end as int))
            == Some(i as int),
        index is None ==> known_key_index(chars@.subrange(start as int, end as int)) is None,
{
    let mut i: usize = 0;
    while i < 7
        invariant
            0 <= i <= 7,
            start <= end <= chars.len(),
            forall|k: int|
                0 <= k < i ==> !same_ignoring_ascii_case(
                    chars@.subrange(start as int, end as int),
                    #[trigger] known_key(k),
                ),
        decreases 7 - i,
    {
        let word = key_chars(i);
        if range_eq_ignore_ascii_case(chars, start, end, &word) {
            return Some(i);
        }
        i += 1;
    }
    proof {
        let key = chars@.subrange(start as int, end as int);
        assert(!same_ignoring_ascii_case(key, known_key(0)));
        assert(!same_ignoring_ascii_case(key, known_key(1)));
        assert(!same_ignoring_ascii_case(key, known_key(2)));
        assert(!same_ignoring_ascii_case(key, known_key(3)));
        assert(!same_ignoring_ascii_case(key, known_key(4)));
        assert(!same_ignoring_ascii_case(key, known_key(5)));
        assert(!same_ignoring_ascii_case(key, known_key(6)));
    }
    None
}

impl LyricsMetadata {
    /// No tag has been read: every field is empty and the offset is zero.
    pub open spec fn is_empty(self) -> bool {
        &&& self.artist is None
        &&& self.album is None
        &&& self.title is None
        &&& self.author is None
        &&& self.creator is None
        &&& self.editor is None
        &&& self.version is None
        &&& self.length is None
        &&& self.offset.0 == 0
        &&& self.unknown@.len() == 0
    }

    pub fn empty() -> (metadata: LyricsMetadata)
        ensures
            metadata.is_empty(),
    {
        LyricsMetadata {
            artist: None,
            album: None,
            title: None,
            author: None,
            creator: None,
            editor: None,
            version: None,
            length: None,
            offset: LyricTime(0),
            unknown: Vec::new(),
        }
    }

    /// The field of the known tag with index `index` (`ar al ti au by re ve`).
    pub open spec fn known_field(self, index: int) -> Option<String> {
        if index == 0 {
            self.artist
        } else if index == 1 {
            self.album
        } else if index == 2 {
            self.title
        } else if index == 3 {
            self.author
        } else if index == 4 {
            self.creator
        } else if index == 5 {
            self.editor
        } else {
            self.version
        }
    }

    /// The value of the tag `key`, matched without regard to ASCII case: a known tag's
    /// field, else the value of the last unknown tag with that key.
    pub open spec fn lookup(self, key: Seq<char>) -> Option<Seq<char>> {
        match known_key_index(key) {
            Some(i) => opt_text(self.known_field(i)),
            None => match last_tag_with_key(self.unknown@, key, self.unknown@.len() as int) {
                Some(i) => Some(self.unknown@[i].value@),
                None => None,
            },
        }
    }

    fn known_field_ref(&self, index: usize) -> (field: &Option<String>)
        requires
            index < 7,
        ensures
            *field == self.known_field(index as int),
    {
        if index == 0 {
            &self.artist
        } else if index == 1 {
            &self.album
        } else if index == 2 {
            &self.title
        } else if index == 3 {
            &self.author
        } else if index == 4 {
            &self.creator
        } else if index == 5 {
            &self.editor
        } else {
            &self.version
        }
    }

    pub fn value(&self, key: &str) -> (found: Option<&str>)
        ensures
            found matches Some(v) ==> self.lookup(key@) == Some(v@),
            found is None ==> self.lookup(key@) is None,
    {
        let chars = chars_of(key);
        assert(chars@.subrange(0, chars@.len() as int) =~= key@);
        match find_known_key(&chars, 0, chars.len()) {
            Some(index) => match self.known_field_ref(index) {
                Some(v) => Some(v.as_str()),
                None => None,
            },
            None => {
                let mut i = self.unknown.len();
                while i > 0
                    invariant
                        i <= self.unknown@.len(),
                        chars@ == key@,
                        known_key_index(key@) is None,
                        last_tag_with_key(self.unknown@, key@, i as int) == last_tag_with_key(
                            self.unknown@,
                            key@,
                            self.unknown@.len() as int,
                        ),
                    decreases i,
                {
                    let tag = &self.unknown[i - 1];
                    let tag_chars = chars_of(tag.key.as_str());
                    assert(tag_chars@.subrange(0, tag_chars@.len() as int) =~= tag.key@);
                    if range_eq_ignore_ascii_case(&tag_chars, 0, tag_chars.len(), &chars) {
                        assert(last_tag_with_key(self.unknown@, key@, i as int) == Some(i - 1));
                        return Some(tag.value.as_str());
                    }
                    i -= 1;
                }
                None
            },
        }
    }
}

/// The index of the last tag among `tags[..end]` whose key equals `key` ignoring ASCII case.
pub open spec fn last_tag_with_key(tags: Seq<MetadataTag>, key: Seq<char>, end: int) -> Option<int>
    decreases end,
{
    if end <= 0 {
        None
    } else if same_ignoring_ascii_case(tags[end - 1].key@, key) {
        Some(end - 1)
    } else {
        last_tag_with_key(tags, key, end - 1)
    }
}

#[derive(Clone, Debug, PartialEq, Eq)]
pub struct LyricsDocument {
    pub metadata: LyricsMetadata,
    pub tracks: Vec<LyricTrack>,
    pub duration: Option<LyricTime>,
}

impl Default for LyricsDocument {
    fn default() -> (document: LyricsDocument)
        ensures
            document.metadata.is_empty(),
            document.tracks@.len() == 0,
            document.duration is None,
    {
        LyricsDocument { metadata: LyricsMetadata::empty(), tracks: Vec::new(), duration: None }
    }
}

/// A track of the original lane kind that has lines.
pub open spec fn is_original_with_lines(track: LyricTrack) -> bool {
    track.kind is Original && track.lines@.len() > 0
}

/// A track that has lines.
pub open spec fn has_lines(track: LyricTrack) -> bool {
    track.lines@.len() > 0
}

/// The first index at or after `from` of an original track with lines.
pub open spec fn first_original_with_lines(tracks: Seq<LyricTrack>, from: int) -> Option<int>
    decreases tracks.len() - from,
{
    if from < 0 || from >= tracks.len() {
        None
    } else if is_original_with_lines(tracks[from]) {
        Some(from)
    } else {
        first_original_with_lines(tracks, from + 1)
    }
}

/// The first index at or after `from` of a track with lines.
pub open spec fn first_with_lines(tracks: Seq<LyricTrack>, from: int) -> Option<int>
    decreases tracks.len() - from,
{
    if from < 0 || from >= tracks.len() {
        None
    } else if has_lines(tracks[from]) {
        Some(from)
    } else {
        first_with_lines(tracks, from + 1)
    }
}

/// The primary track: the first original track with lines, else the first track with lines.
pub open spec fn primary_index(tracks: Seq<LyricTrack>) -> Option<int> {
    match first_original_with_lines(tracks, 0) {
        Some(i) => Some(i),
        None => first_with_lines(tracks, 0),
    }
}

pub proof fn lemma_first_original_bounds(tracks: Seq<LyricTrack>, from: int)
    requires
        0 <= from,
    ensures
        first_original_with_lines(tracks, from) matches Some(i) ==> from <= i < tracks.len()
            && is_original_with_lines(tracks[i]),
    decreases tracks.len() - from,
{
    if from < tracks.len() && !is_original_with_lines(tracks[from]) {
        lemma_first_original_bounds(tracks, from + 1);
    }
}

pub proof fn lemma_first_with_lines_bounds(tracks: Seq<LyricTrack>, from: int)
    requires
        0 <= from,
    ensures
        first_with_lines(tracks, from) matches Some(i) ==> from <= i < tracks.len() && has_lines(
            tracks[i],
        ),
    decreases tracks.len() - from,
{
    if from < tracks.len() && !has_lines(tracks[from]) {
        lemma_first_with_lines_bounds(tracks, from + 1);
    }
}

/// `first_original_with_lines` finds the first original track with lines from `from` on.
proof fn lemma_first_original_is_first(tracks: Seq<LyricTrack>, from: int)
    requires
        0 <= from,
    ensures
        first_original_with_lines(tracks, from) matches Some(i) ==> from <= i < tracks.len()
            && tracks[i].kind is Original && tracks[i].lines@.len() > 0 && forall|j: int|
            from <= j < i ==> !(tracks[j].kind is Original && tracks[j].lines@.len() > 0),
        first_original_with_lines(tracks, from) is None ==> forall|j: int|
            from <= j < tracks.len() ==> !(tracks[j].kind is Original && tracks[j].lines@.len() > 0),
    decreases tracks.len() - from,
{
    if from < tracks.len() && !is_original_with_lines(tracks[from]) {
        lemma_first_original_is_first(tracks, from + 1);
    }
}

/// `first_with_lines` finds the first track with lines from `from` on.
proof fn lemma_first_with_lines_is_first(tracks: Seq<LyricTrack>, from: int)
    requires
        0 <= from,
    ensures
        first_with_lines(tracks, from) matches Some(i) ==> from <= i < tracks.len()
            && tracks[i].lines@.len() > 0 && forall|j: int| from <= j < i ==> tracks[j].lines@.len() == 0,
        first_with_lines(tracks, from) is None ==> forall|j: int|
            from <= j < tracks.len() ==> tracks[j].lines@.len() == 0,
    decreases tracks.len() - from,
{
    if from < tracks.len() && !has_lines(tracks[from]) {
        lemma_first_with_lines_is_first(tracks, from + 1);
    }
}

/// The primary track prefers the original lyrics: when some track of the original kind has
/// lines, the primary track is the first such track; only when none has is it the first
/// track that has lines; and there is no primary track only when no track has lines.
pub proof fn lemma_primary_track_prefers_the_original(tracks: Seq<LyricTrack>)
    ensures
        (exists|i: int| 0 <= i < tracks.len() && tracks[i].kind is Original && tracks[i].lines@.len() > 0)
            ==> (primary_index(tracks) matches Some(p) && 0 <= p < tracks.len() && tracks[p].kind is Original
            && tracks[p].lines@.len() > 0 && forall|j: int|
            0 <= j < p ==> !(tracks[j].kind is Original && tracks[j].lines@.len() > 0)),
        !(exists|i: int| 0 <= i < tracks.len() && tracks[i].kind is Original && tracks[i].lines@.len() > 0)
            ==> (primary_index(tracks) matches Some(p) ==> 0 <= p < tracks.len() && tracks[p].lines@.len() > 0
            && forall|j: int| 0 <= j < p ==> tracks[j].lines@.len() == 0),
        primary_index(tracks) is None <==> forall|i: int| 0 <= i < tracks.len() ==> tracks[i].lines@.len() == 0,
{
    lemma_first_original_is_first(tracks, 0);
    lemma_first_with_lines_is_first(tracks, 0);
}

/// The index of the primary track among `tracks`.
pub fn primary_track_position(tracks: &Vec<LyricTrack>) -> (index: Option<usize>)
    ensures
        index matches Some(i) ==> primary_index(tracks@) == Some(i as int) && i < tracks@.len(),
        index is None ==> primary_index(tracks@) is None,
{
    proof {
        lemma_first_original_bounds(tracks@, 0);
        lemma_first_with_lines_bounds(tracks@, 0);
    }
    let mut i: usize = 0;
    while i < tracks.len()
        invariant
            i <= tracks@.len(),
            first_original_with_lines(tracks@, i as int) == first_original_with_lines(tracks@, 0),
        decreases tracks.len() - i,
    {
        if tracks[i].kind.is_original() && tracks[i].lines.len() > 0 {
            return Some(i);
        }
        i += 1;
    }
    let mut j: usize = 0;
    while j < tracks.len()
        invariant
            j <= tracks@.len(),
            first_original_with_lines(tracks@, 0) is None,
            first_with_lines(tracks@, j as int) == first_with_lines(tracks@, 0),
        decreases tracks.len() - j,
    {
        if tracks[j].lines.len() > 0 {
            return Some(j);
        }
        j += 1;
    }
    None
}

impl LyricsDocument {
    fn primary_track_index(&self) -> (index: Option<usize>)
        ensures
            index matches Some(i) ==> primary_index(self.tracks@) == Some(i as int) && i
                < self.tracks@.len(),
            index is None ==> primary_index(self.tracks@) is None,
    {
        primary_track_position(&self.tracks)
    }

    pub fn primary_track(&self) -> (track: Option<&LyricTrack>)
        ensures
            track matches Some(t) ==> primary_index(self.tracks@) matches Some(i) && *t
                == self.tracks@[i],
            track is None ==> primary_index(self.tracks@) is None,
    {
        match self.primary_track_index() {
            Some(index) => Some(&self.tracks[index]),
            None => None,
        }
    }

    pub fn primary_track_mut(&mut self) -> (track: Option<&mut LyricTrack>)
        ensures
            track matches Some(t) ==> primary_index(old(self).tracks@) matches Some(i) && *t
                == old(self).tracks@[i] && final(self).tracks@ == old(self).tracks@.update(
                i,
                *final(t),
            ) && final(self).metadata == old(self).metadata && final(self).duration == old(
                self,
            ).duration,
            track is None ==> primary_index(old(self).tracks@) is None && *final(self) == *old(
                self,
            ),
    {
        match self.primary_track_index() {
            Some(index) => Some(&mut self.tracks[index]),
            None => None,
        }
    }
}

#[derive(Clone, Debug, PartialEq, Eq)]
pub struct LyricTrack {
    pub language: Option<String>,
    pub kind: LaneKind,
    pub lines: Vec<LyricLine>,
}

impl LyricTrack {
    pub fn new(kind: LaneKind) -> (track: LyricTrack)
        ensures
            track.language is None,
            track.kind == kind,
            track.lines@.len() == 0,
    {
        LyricTrack { language: None, kind, lines: Vec::new() }
    }
}

#[derive(Clone, Debug, PartialEq, Eq)]
pub struct LyricLine {
    pub id: LineId,
    pub range: TimeRange,
    pub lanes: Vec<LyricLane>,
}

impl LyricLine {
    /// Some lane's text has a character that is not whitespace.
    pub open spec fn visible(self) -> bool {
        exists|i: int| 0 <= i < self.lanes@.len() && !is_blank(#[trigger] self.lanes@[i].text@)
    }

    pub fn has_visible_text(&self) -> (visible: bool)
        ensures
            visible == self.visible(),
    {
        let mut i: usize = 0;
        while i < self.lanes.len()
            invariant
                i <= self.lanes@.len(),
                forall|k: int| 0 <= k < i ==> is_blank(#[trigger] self.lanes@[k].text@),
            decreases self.lanes.len() - i,
        {
            if !str_is_blank(self.lanes[i].text.as_str()) {
                return true;
            }
            i += 1;
        }
        false
    }

    /// The first lane of kind `kind`.
    pub fn lane(&self, kind: &LaneKind) -> (found: Option<&LyricLane>)
        ensures
            found matches Some(lane) ==> exists|i: int|
                0 <= i < self.lanes@.len() && self.lanes@[i] == *lane && lane.kind.same(*kind)
                    && forall|k: int| 0 <= k < i ==> !(#[trigger] self.lanes@[k]).kind.same(*kind),
            found is None ==> forall|k: int|
                0 <= k < self.lanes@.len() ==> !(#[trigger] self.lanes@[k]).kind.same(*kind),
    {
        let mut i: usize = 0;
        while i < self.lanes.len()
            invariant
                i <= self.lanes@.len(),
                forall|k: int| 0 <= k < i ==> !(#[trigger] self.lanes@[k]).kind.same(*kind),
            decreases self.lanes.len() - i,
        {
            if self.lanes[i].kind.same_as(kind) {
                return Some(&self.lanes[i]);
            }
            i += 1;
        }
        None
    }
}

#[derive(Clone, Debug, PartialEq, Eq)]
pub struct LyricLane {
    pub kind: LaneKind,
    pub language: Option<String>,
    pub text: String,
    pub segments: Vec<TimedSegment>,
}

/// Whether `segment` names a span of `text`: a byte range, within the UTF-8 encoding of
/// `text`, whose ends fall on character boundaries.
pub open spec fn valid_text_range(text: Seq<char>, segment: TimedSegment) -> bool {
    &&& segment.text_range.start <= segment.text_range.end
    &&& segment.text_range.end <= byte_len(text)
    &&& is_boundary(text, segment.text_range.start as int)
    &&& is_boundary(text, segment.text_range.end as int)
}

impl LyricLane {
    pub fn new(kind: LaneKind, text: &str) -> (lane: LyricLane)
        ensures
            lane.kind == kind,
            lane.language is None,
            lane.text@ == text@,
            lane.segments@.len() == 0,
    {
        LyricLane { kind, language: None, text: String::from_str(text), segments: Vec::new() }
    }

    /// Every segment's text range names a span of the text.
    pub open spec fn text_ranges_valid(self) -> bool {
        forall|i: int|
            0 <= i < self.segments@.len() ==> valid_text_range(
                self.text@,
                #[trigger] self.segments@[i],
            )
    }

    pub fn has_valid_text_ranges(&self) -> (valid: bool)
        ensures
            valid == self.text_ranges_valid(),
    {
        let chars = chars_of(self.text.as_str());
        let offsets = prefix_byte_offsets(&chars);
        let mut i: usize = 0;
        while i < self.segments.len()
            invariant
                i <= self.segments@.len(),
                chars@ == self.text@,
                offsets@.len() == chars@.len() + 1,
                forall|k: int|
                    0 <= k <= chars@.len() ==> #[trigger] offsets@[k] == byte_len(chars@.take(k)),
                forall|k: int|
                    0 <= k < i ==> valid_text_range(self.text@, #[trigger] self.segments@[k]),
            decreases self.segments.len() - i,
        {
            let segment = &self.segments[i];
            let start = segment.text_range.start;
            let end = segment.text_range.end;
            let total = offsets[chars.len()];
            proof {
                assert(chars@.take(chars@.len() as int) =~= chars@);
            }
            if !(start <= end && (end as u128) <= total && contains_offset(&offsets, start as u128)
                && contains_offset(&offsets, end as u128)) {
                proof {
                    if is_boundary(self.text@, start as int) {
                        let k = choose|k: int|
                            0 <= k <= chars@.len() && #[trigger] byte_len(chars@.take(k)) == start;
                        assert(offsets@[k] == start as u128);
                    }
                    if is_boundary(self.text@, end as int) {
                        let k = choose|k: int|
                            0 <= k <= chars@.len() && #[trigger] byte_len(chars@.take(k)) == end;
                        assert(offsets@[k] == end as u128);
                    }
                    assert(!valid_text_range(self.text@, self.segments@[i as int]));
                }
                return false;
            }
            proof {
                let k1 = choose|k: int| 0 <= k < offsets@.len() && #[trigger] offsets@[k] == start as u128;
                let k2 = choose|k: int| 0 <= k < offsets@.len() && #[trigger] offsets@[k] == end as u128;
                assert(byte_len(chars@.take(k1)) == start);
                assert(byte_len(chars@.take(k2)) == end);
                assert(valid_text_range(self.text@, self.segments@[i as int]));
            }
            i += 1;
        }
        true
    }
}

/// The byte offset at which each character of `chars` starts, followed by the total length.
fn prefix_byte_offsets(chars: &Vec<char>) -> (offsets: Vec<u128>)
    ensures
        offsets@.len() == chars@.len() + 1,
        forall|k: int| 0 <= k <= chars@.len() ==> #[trigger] offsets@[k] == byte_len(chars@.take(k)),
{
    let mut offsets: Vec<u128> = Vec::new();
    let mut total: u128 = 0;
    offsets.push(0);
    proof {
        assert(chars@.take(0) =~= Seq::<char>::empty());
    }
    let mut i: usize = 0;
    while i < chars.len()
        invariant
            i <= chars@.len(),
            offsets@.len() == i + 1,
            total == byte_len(chars@.take(i as int)),
            total <= 4 * i,
            forall|k: int| 0 <= k <= i ==> #[trigger] offsets@[k] == byte_len(chars@.take(k)),
        decreases chars.len() - i,
    {
        proof {
            assert(chars@.take(i + 1) =~= chars@.take(i as int).push(chars@[i as int]));
            lemma_byte_len_push(chars@.take(i as int), chars@[i as int]);
        }
        total = total + char_width(chars[i]) as u128;
        offsets.push(total);
        i += 1;
    }
    offsets
}

/// Whether `value` occurs among the prefix offsets.
fn contains_offset(offsets: &Vec<u128>, value: u128) -> (found: bool)
    ensures
        found == exists|k: int| 0 <= k < offsets@.len() && #[trigger] offsets@[k] == value,
{
    let mut i: usize = 0;
    while i < offsets.len()
        invariant
            i <= offsets@.len(),
            forall|k: int| 0 <= k < i ==> #[trigger] offsets@[k] != value,
        decreases offsets.len() - i,
    {
        if offsets[i] == value {
            return true;
        }
        i += 1;
    }
    false
}

/// `a` and `b` are the same lane but for the times of their segments.
pub open spec fn lane_times_only(a: LyricLane, b: LyricLane) -> bool {
    &&& a.kind == b.kind
    &&& a.language == b.language
    &&& a.text == b.text
    &&& a.segments@.len() == b.segments@.len()
    &&& forall|k: int| 0 <= k < a.segments@.len() ==> (#[trigger] a.segments@[k]).text_range == b.segments@[k].text_range
}

#[derive(Debug, PartialEq, Eq)]
pub struct TimedSegment {
    pub range: TimeRange,
    pub text_range: Range<usize>,
}

impl Clone for TimedSegment {
    fn clone(&self) -> (copy: TimedSegment)
        ensures
            copy == *self,
    {
        TimedSegment {
            range: self.range,
            text_range: Range { start: self.text_range.start, end: self.text_range.end },
        }
    }
}

} // verus!
