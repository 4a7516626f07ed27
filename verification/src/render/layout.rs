//! The layout decisions that do not depend on text shaping: which lanes show and in what
//! order, what timing a lane carries, which language shapes it, and where a gap goes.

use std::ops::Range;

use vstd::prelude::*;

use crate::model::{LaneKind, LyricLane, LyricLine, LyricsDocument};
use crate::render::style::{LaneSlot, Overscan};
use crate::text::{is_blank, str_is_blank};
use crate::time::{saturate_i64, LyricTime, TimeRange};
use crate::timeline::TimelineLine;

verus! {

/// A gap shorter than this gets no slot of its own.
pub const GAP_MIN_DURATION_US: i64 = 800_000;

pub const LANE_BIT_ORIGINAL: u8 = 1;

pub const LANE_BIT_OTHER: u8 = 2;

/// The bit of a lane slot in a visibility mask.
pub open spec fn slot_mask(slot: LaneSlot) -> u8 {
    match slot {
        LaneSlot::Original => LANE_BIT_ORIGINAL,
        LaneSlot::Other => LANE_BIT_OTHER,
    }
}

fn slot_bit(slot: LaneSlot) -> (bit: u8)
    ensures
        bit == slot_mask(slot),
{
    match slot {
        LaneSlot::Original => LANE_BIT_ORIGINAL,
        LaneSlot::Other => LANE_BIT_OTHER,
    }
}

/// Which lane slots are shown.
#[derive(Clone, Copy, Debug, PartialEq, Eq, Structural)]
pub struct LaneVisibility(u8);

impl LaneVisibility {
    /// The mask of shown slots.
    pub closed spec fn mask(self) -> u8 {
        self.0
    }

    /// Whether `slot` is shown.
    pub open spec fn shows(self, slot: LaneSlot) -> bool {
        self.mask() & slot_mask(slot) != 0
    }

    /// Every slot shown.
    pub fn all() -> (visibility: LaneVisibility)
        ensures
            visibility.mask() == LANE_BIT_ORIGINAL | LANE_BIT_OTHER,
            visibility.shows(LaneSlot::Original),
            visibility.shows(LaneSlot::Other),
    {
        let visibility = LaneVisibility(LANE_BIT_ORIGINAL | LANE_BIT_OTHER);
        assert((1u8 | 2u8) & 1u8 != 0 && (1u8 | 2u8) & 2u8 != 0) by (bit_vector);
        visibility
    }

    pub fn bits(self) -> (bits: u8)
        ensures
            bits == self.mask(),
    {
        self.0
    }

    pub fn is_visible(self, slot: LaneSlot) -> (visible: bool)
        ensures
            visible == self.shows(slot),
    {
        self.0 & slot_bit(slot) != 0
    }

    /// Shows or hides `slot`, leaving the other slot as it was.
    pub fn set_visible(&mut self, slot: LaneSlot, visible: bool)
        ensures
            final(self).mask() == (if visible {
                old(self).mask() | slot_mask(slot)
            } else {
                old(self).mask() & !slot_mask(slot)
            }),
            final(self).shows(slot) == visible,
            forall|other: LaneSlot| other != slot ==> final(self).shows(other) == old(self).shows(other),
    {
        let bit = slot_bit(slot);
        let before = self.0;
        if visible {
            self.0 = before | bit;
        } else {
            self.0 = before & !bit;
        }
        proof {
            assert forall|other: LaneSlot| other != slot implies self.shows(other) == LaneVisibility(before).shows(other) by {
                let o = slot_mask(other);
                assert(o == 1u8 || o == 2u8);
                assert(bit == 1u8 || bit == 2u8);
                assert(o != bit);
                assert((o == 1u8 || o == 2u8) && (bit == 1u8 || bit == 2u8) && o != bit ==> ((before | bit) & o != 0) == (before & o != 0) && ((before & !bit) & o != 0) == (before & o != 0)) by (bit_vector);
            }
            assert((bit == 1u8 || bit == 2u8) ==> (before | bit) & bit != 0 && (before & !bit) & bit == 0) by (bit_vector);
        }
    }
}

impl Default for LaneVisibility {
    fn default() -> (visibility: LaneVisibility)
        ensures
            visibility.mask() == LANE_BIT_ORIGINAL | LANE_BIT_OTHER,
    {
        LaneVisibility::all()
    }
}

/// A hit of a pointer position on a laid-out line.
#[derive(Clone, Copy, Debug, PartialEq, Eq, Structural)]
pub struct LineHit {
    pub timeline_index: usize,
    pub start: LyricTime,
}

pub open spec fn slot_of(kind: LaneKind) -> LaneSlot {
    match kind {
        LaneKind::Original => LaneSlot::Original,
        LaneKind::Other(_) => LaneSlot::Other,
    }
}

pub fn slot_for_kind(kind: &LaneKind) -> (slot: LaneSlot)
    ensures
        slot == slot_of(*kind),
{
    match kind {
        LaneKind::Original => LaneSlot::Original,
        LaneKind::Other(_) => LaneSlot::Other,
    }
}

/// The gap before `next`: from the end of `previous` (time zero when there is none) to the
/// start of `next`, when the previous line ends before the next starts and the gap lasts at
/// least the minimum gap duration.
pub open spec fn gap_before_spec(previous: Option<TimelineLine>, next: TimelineLine) -> Option<TimeRange> {
    let start = match previous {
        None => Some(LyricTime(0)),
        Some(line) => match line.range.end {
            Some(end) => if end.0 < next.range.start.0 {
                Some(end)
            } else {
                None
            },
            None => None,
        },
    };
    match start {
        None => None,
        Some(start) => {
            let range = TimeRange { start, end: Some(next.range.start) };
            if range.well_ordered() && saturate_i64(next.range.start.0 - start.0) >= GAP_MIN_DURATION_US {
                Some(range)
            } else {
                None
            }
        },
    }
}

pub fn gap_before_range(previous: Option<&TimelineLine>, next: &TimelineLine) -> (gap: Option<TimeRange>)
    ensures
        gap == gap_before_spec(
            match previous {
                Some(line) => Some(*line),
                None => None,
            },
            *next,
        ),
{
    let start = match previous {
        None => LyricTime::zero(),
        Some(line) => match line.range.end {
            Some(end) => {
                if end.0 < next.range.start.0 {
                    end
                } else {
                    return None;
                }
            },
            None => return None,
        },
    };
    let duration = next.range.start.saturating_sub(start).0;
    let range = TimeRange::new(start, Some(next.range.start));
    if range.is_valid() && duration >= GAP_MIN_DURATION_US {
        Some(range)
    } else {
        None
    }
}

/// The indices of the lanes of `lanes[..upto]` in `slot`, in order.
pub open spec fn lanes_in_slot(lanes: Seq<LyricLane>, slot: LaneSlot, upto: int) -> Seq<usize>
    decreases upto,
{
    if upto <= 0 {
        Seq::empty()
    } else {
        let rest = lanes_in_slot(lanes, slot, upto - 1);
        if slot_of(lanes[upto - 1].kind) == slot {
            rest.push((upto - 1) as usize)
        } else {
            rest
        }
    }
}

/// The order in which the lanes of a line are laid out: the original lanes, then the others,
/// each in their own order.
pub open spec fn lane_layout_order(line: LyricLine) -> Seq<usize> {
    lanes_in_slot(line.lanes@, LaneSlot::Original, line.lanes@.len() as int) + lanes_in_slot(
        line.lanes@,
        LaneSlot::Other,
        line.lanes@.len() as int,
    )
}

fn push_lanes_in_slot(line: &LyricLine, slot: LaneSlot, indices: &mut Vec<usize>)
    ensures
        final(indices)@ == old(indices)@ + lanes_in_slot(line.lanes@, slot, line.lanes@.len() as int),
{
    let ghost start = indices@;
    let mut index: usize = 0;
    while index < line.lanes.len()
        invariant
            index <= line.lanes@.len(),
            indices@ == start + lanes_in_slot(line.lanes@, slot, index as int),
        decreases line.lanes.len() - index,
    {
        if slot_for_kind(&line.lanes[index].kind) == slot {
            indices.push(index);
        }
        index += 1;
        assert(indices@ =~= start + lanes_in_slot(line.lanes@, slot, index as int));
    }
}

pub fn ordered_lane_indices(line: &LyricLine) -> (indices: Vec<usize>)
    ensures
        indices@ == lane_layout_order(*line),
{
    let mut indices: Vec<usize> = Vec::new();
    push_lanes_in_slot(line, LaneSlot::Original, &mut indices);
    push_lanes_in_slot(line, LaneSlot::Other, &mut indices);
    assert(indices@ =~= lane_layout_order(*line));
    indices
}

/// The timing a lane carries: the times of its own segments and their text ranges, and
/// nothing when it has no segments.
pub fn lane_timing(lane: &LyricLane) -> (timing: (Vec<TimeRange>, Vec<Range<usize>>))
    ensures
        timing.0@.len() == lane.segments@.len(),
        timing.1@.len() == lane.segments@.len(),
        forall|i: int| 0 <= i < lane.segments@.len() ==> #[trigger] timing.0@[i] == lane.segments@[i].range,
        forall|i: int| 0 <= i < lane.segments@.len() ==> #[trigger] timing.1@[i] == lane.segments@[i].text_range,
{
    let mut times: Vec<TimeRange> = Vec::new();
    let mut ranges: Vec<Range<usize>> = Vec::new();
    let mut i: usize = 0;
    while i < lane.segments.len()
        invariant
            i <= lane.segments@.len(),
            times@.len() == i,
            ranges@.len() == i,
            forall|k: int| 0 <= k < i ==> #[trigger] times@[k] == lane.segments@[k].range,
            forall|k: int| 0 <= k < i ==> #[trigger] ranges@[k] == lane.segments@[k].text_range,
        decreases lane.segments.len() - i,
    {
        let segment = &lane.segments[i];
        times.push(segment.range);
        ranges.push(Range { start: segment.text_range.start, end: segment.text_range.end });
        i += 1;
    }
    (times, ranges)
}

/// The language that shapes a lane: its own when it names one, else the track's when that
/// names one; a blank language names none.
pub open spec fn shaping_language_of(lane_language: Option<Seq<char>>, track_language: Option<Seq<char>>) -> Option<Seq<char>> {
    match lane_language {
        Some(language) if !is_blank(language) => Some(language),
        _ => match track_language {
            Some(language) if !is_blank(language) => Some(language),
            _ => None,
        },
    }
}

pub open spec fn text_of(language: Option<&str>) -> Option<Seq<char>> {
    match language {
        Some(text) => Some(text@),
        None => None,
    }
}

pub fn shaping_language<'a>(lane_language: Option<&'a str>, track_language: Option<&'a str>) -> (language: Option<&'a str>)
    ensures
        text_of(language) == shaping_language_of(text_of(lane_language), text_of(track_language)),
{
    match lane_language {
        Some(language) => {
            if !str_is_blank(language) {
                return Some(language);
            }
        },
        None => {},
    }
    match track_language {
        Some(language) => {
            if !str_is_blank(language) {
                Some(language)
            } else {
                None
            }
        },
        None => None,
    }
}

/// Where a laid-out line comes from: its place in the timeline, its track and line in the
/// document, its start, and the gap before it, if any.
#[derive(Clone, Copy, Debug)]
pub struct LineSource {
    pub timeline_index: usize,
    pub track_index: usize,
    pub line_index: usize,
    pub start: LyricTime,
    pub gap_before: Option<TimeRange>,
}

/// The document line that `source` names, when the document has it.
pub fn source_line<'a>(document: &'a LyricsDocument, source: &LineSource) -> (line: Option<&'a LyricLine>)
    ensures
        match line {
            Some(found) => {
                &&& source.track_index < document.tracks@.len()
                &&& source.line_index < document.tracks@[source.track_index as int].lines@.len()
                &&& *found == document.tracks@[source.track_index as int].lines@[source.line_index as int]
            },
            None => !(source.track_index < document.tracks@.len() && source.line_index
                < document.tracks@[source.track_index as int].lines@.len()),
        },
{
    if source.track_index < document.tracks.len() {
        let track = &document.tracks[source.track_index];
        if source.line_index < track.lines.len() {
            return Some(&track.lines[source.line_index]);
        }
    }
    None
}


/// The lines a layout window covers: the requested range clamped to the document's `len`
/// lines (an inverted request becomes empty at its start), widened to take in the focus line
/// when there is one in the document.
pub open spec fn window_bounds(requested: Range<usize>, len: usize, focus_line: Option<usize>) -> (int, int) {
    let start: int = if requested.start < len { requested.start as int } else { len as int };
    let clamped_end: int = if requested.end < len { requested.end as int } else { len as int };
    let end: int = if clamped_end < start { start } else { clamped_end };
    match focus_line {
        Some(line) if line < len => (
            if line < start { line as int } else { start },
            if line + 1 > end { line + 1 } else { end },
        ),
        _ => (start, end),
    }
}

/// The window of lines to keep laid out for a request of `requested` lines in a document of
/// `len` lines, around `focus_line` when the viewport is anchored on one.
pub fn layout_window(requested: Range<usize>, len: usize, focus_line: Option<usize>) -> (window: Range<usize>)
    ensures
        (window.start as int, window.end as int) == window_bounds(requested, len, focus_line),
        window.start <= window.end <= len,
{
    let start = if requested.start < len { requested.start } else { len };
    let clamped_end = if requested.end < len { requested.end } else { len };
    let end = if clamped_end < start { start } else { clamped_end };
    match focus_line {
        Some(line) => {
            if line < len {
                let widened_start = if line < start { line } else { start };
                let widened_end = if line + 1 > end { line + 1 } else { end };
                return widened_start..widened_end;
            }
            start..end
        },
        None => start..end,
    }
}

/// The visible lines with overscan: `before` lines above the first visible line and `after`
/// lines below the last, within the document's `len` lines.
pub fn overscanned_range(first: usize, last: usize, overscan: Overscan, len: usize) -> (range: Range<usize>)
    ensures
        range.start == if first >= overscan.before { first - overscan.before } else { 0 },
        range.end == if last + 1 + overscan.after < len { last + 1 + overscan.after } else { len as int },
{
    let start = first.saturating_sub(overscan.before);
    let end = last.saturating_add(1).saturating_add(overscan.after);
    let end = if end < len { end } else { len };
    start..end
}

/// What a window change does to the laid-out lines: the ones to drop, and the ones to lay out.
#[derive(Clone, Debug, PartialEq, Eq)]
pub struct WindowPlan {
    pub evict: Vec<usize>,
    pub build: Vec<usize>,
}

/// The indices in `from..to` (in order) that pass `keep`.
pub open spec fn indices_where(from: int, to: int, keep: spec_fn(int) -> bool) -> Seq<usize>
    decreases to - from,
{
    if to <= from {
        Seq::empty()
    } else {
        let rest = indices_where(from, to - 1, keep);
        if keep(to - 1) { rest.push((to - 1) as usize) } else { rest }
    }
}

/// Moving the laid-out window from `loaded` to `window`: the lines of `loaded` outside
/// `window` are dropped, and the lines of `window` that are not laid out (`materialized`
/// tells which are) are laid out, each in ascending order.
pub fn window_plan(loaded: Range<usize>, window: Range<usize>, materialized: &Vec<bool>) -> (plan: WindowPlan)
    requires
        window.end <= materialized.len(),
    ensures
        plan.evict@ == indices_where(
            loaded.start as int,
            loaded.end as int,
            |i: int| !(window.start <= i < window.end),
        ),
        plan.build@ == indices_where(
            window.start as int,
            window.end as int,
            |i: int| !materialized@[i],
        ),
{
    let mut evict: Vec<usize> = Vec::new();
    let mut index = loaded.start;
    while index < loaded.end
        invariant
            loaded.start <= index <= loaded.end || (loaded.end < loaded.start && index == loaded.start),
            index <= loaded.end ==> evict@ == indices_where(
                loaded.start as int,
                index as int,
                |i: int| !(window.start <= i < window.end),
            ),
            loaded.end < loaded.start ==> evict@ == Seq::<usize>::empty(),
        decreases loaded.end - index,
    {
        proof {
            reveal_with_fuel(indices_where, 2);
        }
        if !(window.start <= index && index < window.end) {
            evict.push(index);
        }
        index = index + 1;
    }
    let mut build: Vec<usize> = Vec::new();
    let mut index = window.start;
    while index < window.end
        invariant
            window.end <= materialized.len(),
            window.start <= index <= window.end || (window.end < window.start && index == window.start),
            index <= window.end ==> build@ == indices_where(
                window.start as int,
                index as int,
                |i: int| !materialized@[i],
            ),
            window.end < window.start ==> build@ == Seq::<usize>::empty(),
        decreases window.end - index,
    {
        proof {
            reveal_with_fuel(indices_where, 2);
        }
        if !materialized[index] {
            build.push(index);
        }
        index = index + 1;
    }
    WindowPlan { evict, build }
}

} // verus!
