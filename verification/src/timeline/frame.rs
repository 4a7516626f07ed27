//! What the timeline reports for one media position.

use vstd::prelude::*;

use crate::model::{LineId, LyricLine, TimedSegment};
use crate::time::{saturate_i64, LyricTime, TimeRange};

verus! {

/// A line of the timeline: its place in the timeline, in the document and its timing.
#[derive(Clone, Copy, Debug, PartialEq, Eq, Structural)]
pub struct TimelineLine {
    pub timeline_index: usize,
    pub track_index: usize,
    pub line_index: usize,
    pub id: LineId,
    pub range: TimeRange,
}

/// The active segment of one lane, and how far playback has run through it.
///
/// The progress is the fraction `elapsed / duration`, which lies in `[0, 1]`; `duration` is
/// never zero.
#[derive(Clone, Copy, Debug, PartialEq, Eq, Structural)]
pub struct SegmentProgress {
    pub lane_index: usize,
    pub segment_index: usize,
    pub range: TimeRange,
    pub elapsed: u64,
    pub duration: u64,
}

/// A line that holds the position, with the active segment of each of its lanes.
#[derive(Clone, Debug, PartialEq, Eq)]
pub struct ActiveLine {
    pub line: TimelineLine,
    pub active_segments: Vec<SegmentProgress>,
}

impl ActiveLine {
    /// A copy of the active line.
    pub fn duplicate(&self) -> (copy: ActiveLine)
        ensures
            copy.line == self.line,
            copy.active_segments@ == self.active_segments@,
    {
        let mut segments: Vec<SegmentProgress> = Vec::new();
        let mut i: usize = 0;
        while i < self.active_segments.len()
            invariant
                i <= self.active_segments@.len(),
                segments@ == self.active_segments@.take(i as int),
            decreases self.active_segments.len() - i,
        {
            segments.push(self.active_segments[i]);
            i += 1;
            assert(segments@ =~= self.active_segments@.take(i as int));
        }
        assert(segments@ =~= self.active_segments@);
        ActiveLine { line: self.line, active_segments: segments }
    }
}

/// The timeline at one position.
#[derive(Clone, Debug, PartialEq, Eq)]
pub struct TimelineFrame {
    pub position: LyricTime,
    pub active_lines: Vec<ActiveLine>,
    pub active_line: Option<ActiveLine>,
    pub previous_line: Option<TimelineLine>,
    pub next_line: Option<TimelineLine>,
    pub next_event: Option<LyricTime>,
}

/// The gap of a frame: from the end of the previous line (or time zero) to the start of
/// the next line, when no line is active, there is a next line, and the position lies in it.
pub open spec fn gap_of(frame: TimelineFrame) -> Option<TimeRange> {
    if frame.active_lines@.len() != 0 {
        None
    } else {
        match frame.next_line {
            None => None,
            Some(next) => {
                let start = match frame.previous_line {
                    Some(previous) => match previous.range.end {
                        Some(end) => end,
                        None => LyricTime(0),
                    },
                    None => LyricTime(0),
                };
                let range = TimeRange { start, end: Some(next.range.start) };
                if range.well_ordered() && range.holds(frame.position) {
                    Some(range)
                } else {
                    None
                }
            },
        }
    }
}

/// A segment is active at `position` when it holds it, or when it is empty and starts there.
pub open spec fn segment_active(range: TimeRange, position: LyricTime) -> bool {
    range.holds(position) || (range.end == Some(range.start) && position == range.start)
}

/// The length of a segment for its progress: its saturated duration when it has an end and
/// a positive one, else one.
pub open spec fn progress_duration(range: TimeRange) -> int {
    match range.end {
        Some(end) => if saturate_i64(end.0 - range.start.0) > 0 {
            saturate_i64(end.0 - range.start.0)
        } else {
            1
        },
        None => 1,
    }
}

/// How much of the segment has run at `position`: nothing for an open segment, all of it
/// for an empty or reversed one, else the saturated elapsed time clamped to the duration.
pub open spec fn progress_elapsed(range: TimeRange, position: LyricTime) -> int {
    match range.end {
        Some(end) => if saturate_i64(end.0 - range.start.0) > 0 {
            let elapsed = saturate_i64(position.0 - range.start.0);
            if elapsed < 0 {
                0
            } else if elapsed > saturate_i64(end.0 - range.start.0) {
                saturate_i64(end.0 - range.start.0)
            } else {
                elapsed
            }
        } else {
            1
        },
        None => 0,
    }
}

/// Segment `k` is the one the timeline reports for `segments` at `position`: it is active,
/// and no other active segment starts later, or starts together and comes later.
pub open spec fn chosen_segment(segments: Seq<TimedSegment>, position: LyricTime, k: int) -> bool {
    &&& 0 <= k < segments.len()
    &&& segment_active(segments[k].range, position)
    &&& forall|j: int|
        0 <= j < segments.len() && segment_active((#[trigger] segments[j]).range, position) ==> (
        segments[j].range.start.0 < segments[k].range.start.0 || (segments[j].range.start.0
            == segments[k].range.start.0 && j <= k))
}

pub open spec fn some_segment_active(segments: Seq<TimedSegment>, position: LyricTime) -> bool {
    exists|j: int| 0 <= j < segments.len() && segment_active((#[trigger] segments[j]).range, position)
}

/// Each entry of `progress`, in lane order, is the chosen segment of its lane of `line` at
/// `position`.
pub open spec fn reports_chosen(line: LyricLine, position: LyricTime, progress: Seq<SegmentProgress>) -> bool {
    &&& forall|a: int|
        0 <= a < progress.len() ==> {
            let p = #[trigger] progress[a];
            let segments = line.lanes@[p.lane_index as int].segments@;
            &&& p.lane_index < line.lanes@.len()
            &&& chosen_segment(segments, position, p.segment_index as int)
            &&& p.range == segments[p.segment_index as int].range
            &&& p.elapsed == progress_elapsed(p.range, position)
            &&& p.duration == progress_duration(p.range)
        }
    &&& forall|a: int, b: int|
        0 <= a < b < progress.len() ==> (#[trigger] progress[a]).lane_index < (
        #[trigger] progress[b]).lane_index
}

/// `progress` reports, in lane order, the chosen segment of each lane of `line` that has an
/// active segment at `position`.
pub open spec fn reports_lanes(line: LyricLine, position: LyricTime, progress: Seq<SegmentProgress>) -> bool {
    &&& reports_chosen(line, position, progress)
    &&& forall|j: int|
        0 <= j < line.lanes@.len() && some_segment_active(
            (#[trigger] line.lanes@[j]).segments@,
            position,
        ) ==> exists|a: int| 0 <= a < progress.len() && progress[a].lane_index == j
}

/// Line `a` sorts before line `b` in a timeline: by start, then by index in the track.
pub open spec fn line_sorts_before(a: TimelineLine, b: TimelineLine) -> bool {
    a.range.start.0 < b.range.start.0 || (a.range.start.0 == b.range.start.0 && a.line_index
        < b.line_index)
}

/// Some line of `timeline` is line `m` of its track.
pub open spec fn lists_line(timeline: Seq<TimelineLine>, m: int) -> bool {
    exists|t: int| 0 <= t < timeline.len() && (#[trigger] timeline[t]).line_index == m
}

/// `timeline` lists each visible line of `lines`, track `track_index`, once, sorted by
/// start and then by index, numbered by its place.
pub open spec fn timeline_of(timeline: Seq<TimelineLine>, lines: Seq<LyricLine>, track_index: usize) -> bool {
    &&& forall|t: int|
        0 <= t < timeline.len() ==> {
            let line = #[trigger] timeline[t];
            &&& line.timeline_index == t
            &&& line.track_index == track_index
            &&& line.line_index < lines.len()
            &&& lines[line.line_index as int].visible()
            &&& line.id == lines[line.line_index as int].id
            &&& line.range == lines[line.line_index as int].range
        }
    &&& forall|s: int, t: int|
        0 <= s < t < timeline.len() ==> line_sorts_before(#[trigger] timeline[s], #[trigger] timeline[t])
    &&& forall|m: int| 0 <= m < lines.len() && lines[m].visible() ==> #[trigger] lists_line(timeline, m)
}

/// `actives` reports, in timeline order, every line of `timeline` that holds `position`,
/// each with the chosen segments of its lanes.
pub open spec fn reports_active_lines(
    timeline: Seq<TimelineLine>,
    lines: Seq<LyricLine>,
    position: LyricTime,
    actives: Seq<ActiveLine>,
) -> bool {
    &&& forall|a: int|
        0 <= a < actives.len() ==> {
            let active = #[trigger] actives[a];
            let t = active.line.timeline_index as int;
            &&& t < timeline.len()
            &&& active.line == timeline[t]
            &&& timeline[t].range.holds(position)
            &&& reports_lanes(lines[timeline[t].line_index as int], position, active.active_segments@)
        }
    &&& forall|a: int, b: int|
        0 <= a < b < actives.len() ==> (#[trigger] actives[a]).line.timeline_index < (
        #[trigger] actives[b]).line.timeline_index
    &&& forall|t: int|
        0 <= t < timeline.len() && (#[trigger] timeline[t]).range.holds(position) ==> exists|a: int|
            0 <= a < actives.len() && actives[a].line.timeline_index == t
}

impl TimelineFrame {
    /// No line is active.
    pub fn is_gap(&self) -> (gap: bool)
        ensures
            gap == (self.active_lines@.len() == 0),
    {
        self.active_lines.len() == 0
    }

    pub fn bounded_gap(&self) -> (gap: Option<TimeRange>)
        ensures
            gap == gap_of(*self),
    {
        if !self.is_gap() {
            return None;
        }
        let next = match &self.next_line {
            Some(next) => next,
            None => return None,
        };
        let start = match &self.previous_line {
            Some(previous) => match previous.range.end {
                Some(end) => end,
                None => LyricTime::zero(),
            },
            None => LyricTime::zero(),
        };
        let range = TimeRange::new(start, Some(next.range.start));
        if range.is_valid() && range.contains(self.position) {
            Some(range)
        } else {
            None
        }
    }

    pub fn active_line_id(&self) -> (id: Option<LineId>)
        ensures
            id == (match self.active_line {
                Some(active) => Some(active.line.id),
                None => None::<LineId>,
            }),
    {
        match &self.active_line {
            Some(active) => Some(active.line.id),
            None => None,
        }
    }
}

} // verus!
