//! The timing decisions behind line visuals: when the pause between two lines shows its
//! gap animation, and how far the highlight of a lane has come.

use vstd::prelude::*;

use crate::time::{saturate_i64, saturating_sub_i64, LyricTime, TimeRange};

verus! {

/// The shortest pause between lines, in microseconds, that shows a gap animation.
pub const MIN_GAP_DURATION_US: i64 = 800000;

/// Where the position lies in a gap that shows its animation: the time since the gap began
/// and the time left until it ends, both saturated.
#[derive(Clone, Copy, Debug, PartialEq, Eq, Structural)]
pub struct GapWindow {
    pub elapsed_us: i64,
    pub remaining_us: i64,
}

/// Whether a gap over `range` shows its animation at `position`: it has an end, lasts at
/// least `MIN_GAP_DURATION_US`, and holds the position.
pub open spec fn shows_gap(range: TimeRange, position: LyricTime) -> bool {
    &&& range.end is Some
    &&& saturate_i64(range.end->0.micros() - range.start.micros()) >= MIN_GAP_DURATION_US
    &&& range.holds(position)
}

/// The gap window at `position` of the pause `range`; `None` when the gap shows no
/// animation there.
pub fn gap_window(range: TimeRange, position: LyricTime) -> (window: Option<GapWindow>)
    ensures
        window is Some <==> shows_gap(range, position),
        window matches Some(w) ==> w.elapsed_us == saturate_i64(
            position.micros() - range.start.micros(),
        ) && w.remaining_us == saturate_i64(range.end->0.micros() - position.micros()),
{
    let end = match range.end {
        Some(end) => end,
        None => return None,
    };
    let duration_us = saturating_sub_i64(end.as_micros(), range.start.as_micros());
    if duration_us < MIN_GAP_DURATION_US || !range.contains(position) {
        return None;
    }
    Some(GapWindow {
        elapsed_us: saturating_sub_i64(position.as_micros(), range.start.as_micros()),
        remaining_us: saturating_sub_i64(end.as_micros(), position.as_micros()),
    })
}

/// How far the highlight of a lane has come: the segments fully sung, and the segment being
/// sung with the time into it out of its length, both saturated (both zero when none is).
#[derive(Clone, Copy, Debug, PartialEq, Eq, Structural)]
pub struct LaneHighlightStatus {
    pub completed_segments: usize,
    pub current_segment: Option<usize>,
    pub elapsed_us: i64,
    pub duration_us: i64,
}

/// Whether the segment `range` is behind `position`: it has begun, and it is open-ended or
/// has ended.
pub open spec fn segment_passed(range: TimeRange, position: LyricTime) -> bool {
    &&& range.start.0 <= position.0
    &&& !(range.end matches Some(end) && position.0 < end.0)
}

/// Whether every segment before `count` is behind `position`.
pub open spec fn passed_before(segments: Seq<TimeRange>, position: LyricTime, count: int) -> bool {
    forall|i: int| 0 <= i < count ==> segment_passed(#[trigger] segments[i], position)
}

/// The highlight of a lane whose segments are timed by `segments`, at `position`: segments
/// are read in order up to the first one that is not behind the position; those before it
/// are completed, and it is the current one when it holds the position and has an end.
pub open spec fn is_highlight_status(
    status: LaneHighlightStatus,
    segments: Seq<TimeRange>,
    position: LyricTime,
) -> bool {
    let count = status.completed_segments as int;
    &&& count <= segments.len()
    &&& passed_before(segments, position, count)
    &&& count < segments.len() ==> !segment_passed(segments[count], position)
    &&& match status.current_segment {
        Some(index) => {
            &&& index == count
            &&& count < segments.len()
            &&& segments[count].holds(position)
            &&& segments[count].end is Some
            &&& status.elapsed_us == saturate_i64(position.micros() - segments[count].start.micros())
            &&& status.duration_us == saturate_i64(
                segments[count].end->0.micros() - segments[count].start.micros(),
            )
        },
        None => {
            &&& (count < segments.len() ==> position.0 < segments[count].start.0)
            &&& status.elapsed_us == 0
            &&& status.duration_us == 0
        },
    }
}

/// The highlight status of a lane with segment times `segments` at `position`.
pub fn highlight_status(segments: &Vec<TimeRange>, position: LyricTime) -> (status: LaneHighlightStatus)
    ensures
        is_highlight_status(status, segments@, position),
        status.current_segment is Some ==> 0 <= status.elapsed_us <= status.duration_us
            && 0 < status.duration_us,
{
    let mut index: usize = 0;
    while index < segments.len()
        invariant
            index <= segments.len(),
            passed_before(segments@, position, index as int),
        decreases segments.len() - index,
    {
        let range = segments[index];
        if position.0 < range.start.0 {
            return LaneHighlightStatus {
                completed_segments: index,
                current_segment: None,
                elapsed_us: 0,
                duration_us: 0,
            };
        }
        match range.end {
            Some(end) => {
                if position.0 < end.0 {
                    let duration_us = saturating_sub_i64(end.0, range.start.0);
                    let elapsed_us = saturating_sub_i64(position.0, range.start.0);
                    return LaneHighlightStatus {
                        completed_segments: index,
                        current_segment: Some(index),
                        elapsed_us,
                        duration_us,
                    };
                }
            },
            None => {},
        }
        index = index + 1;
    }
    LaneHighlightStatus { completed_segments: index, current_segment: None, elapsed_us: 0, duration_us: 0 }
}

} // verus!
