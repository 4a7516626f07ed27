//! Which lines and segments are active at a media position, and the next timing event.

pub mod frame;
mod index;

use std::ops::Range;

use vstd::prelude::*;

use crate::model::{primary_index, primary_track_position, LyricLane, LyricLine, LyricTrack, LyricsDocument, TimedSegment};
use crate::time::LyricTime;

pub use frame::{ActiveLine, SegmentProgress, TimelineFrame, TimelineLine};

use frame::{reports_active_lines, timeline_of};
use index::LineIndex;

verus! {

/// A segment starts or ends at `time`.
pub open spec fn segment_event(segment: TimedSegment, time: LyricTime) -> bool {
    segment.range.start == time || segment.range.end == Some(time)
}

/// Some segment of `lane` starts or ends at `time`.
pub open spec fn lane_event(lane: LyricLane, time: LyricTime) -> bool {
    exists|s: int| 0 <= s < lane.segments@.len() && #[trigger] segment_event(lane.segments@[s], time)
}

/// `line`, or a segment of one of its lanes, starts or ends at `time`.
pub open spec fn line_event(line: LyricLine, time: LyricTime) -> bool {
    ||| line.range.start == time
    ||| line.range.end == Some(time)
    ||| exists|j: int| 0 <= j < line.lanes@.len() && #[trigger] lane_event(line.lanes@[j], time)
}

/// Some line of `lines`, or one of their segments, starts or ends at `time`.
pub open spec fn is_event(lines: Seq<LyricLine>, time: LyricTime) -> bool {
    exists|k: int| 0 <= k < lines.len() && #[trigger] line_event(lines[k], time)
}

pub open spec fn strictly_increasing(times: Seq<LyricTime>) -> bool {
    forall|i: int, j: int| 0 <= i < j < times.len() ==> (#[trigger] times[i]).0 < (#[trigger] times[j]).0
}

/// `next` is the earliest event of `lines` after `position`, or `None` when there is none.
pub open spec fn next_event_of(lines: Seq<LyricLine>, position: LyricTime, next: Option<LyricTime>) -> bool {
    match next {
        Some(event) => {
            &&& is_event(lines, event)
            &&& event.0 > position.0
            &&& forall|other: LyricTime|
                #[trigger] is_event(lines, other) && other.0 > position.0 ==> event.0 <= other.0
        },
        None => forall|other: LyricTime| #[trigger] is_event(lines, other) ==> other.0 <= position.0,
    }
}

/// `previous` is the latest event of `lines` at or before `position`, or `None` when there
/// is none.
pub open spec fn previous_event_of(lines: Seq<LyricLine>, position: LyricTime, previous: Option<LyricTime>) -> bool {
    match previous {
        Some(event) => {
            &&& is_event(lines, event)
            &&& event.0 <= position.0
            &&& forall|other: LyricTime|
                #[trigger] is_event(lines, other) && other.0 <= position.0 ==> other.0 <= event.0
        },
        None => forall|other: LyricTime| #[trigger] is_event(lines, other) ==> other.0 > position.0,
    }
}

/// The lines before `upper` start at or before `position`, the others after it.
pub open spec fn splits_at(timeline: Seq<TimelineLine>, position: LyricTime, upper: int) -> bool {
    &&& 0 <= upper <= timeline.len()
    &&& forall|t: int| 0 <= t < upper ==> (#[trigger] timeline[t]).range.start.0 <= position.0
    &&& forall|t: int| upper <= t < timeline.len() ==> (#[trigger] timeline[t]).range.start.0 > position.0
}

/// The line at `index` of `timeline`, when there is one.
pub open spec fn line_at(timeline: Seq<TimelineLine>, index: int) -> Option<TimelineLine> {
    if 0 <= index < timeline.len() {
        Some(timeline[index])
    } else {
        None
    }
}

/// The neighbours of a frame: those of the active line, or else the last line that started
/// and the first that has not.
pub open spec fn neighbours_of(
    timeline: Seq<TimelineLine>,
    position: LyricTime,
    active: Option<ActiveLine>,
    previous: Option<TimelineLine>,
    next: Option<TimelineLine>,
) -> bool {
    match active {
        Some(line) => {
            &&& previous == line_at(timeline, line.line.timeline_index - 1)
            &&& next == line_at(timeline, line.line.timeline_index + 1)
        },
        None => exists|upper: int|
            {
                &&& #[trigger] splits_at(timeline, position, upper)
                &&& previous == line_at(timeline, upper - 1)
                &&& next == line_at(timeline, upper)
            },
    }
}

/// Two sequences that both list the lines of `lines` as a timeline agree on the line at
/// every place before `n`.
proof fn lemma_timelines_agree(
    a: Seq<TimelineLine>,
    b: Seq<TimelineLine>,
    lines: Seq<LyricLine>,
    track_index: usize,
    n: int,
)
    requires
        timeline_of(a, lines, track_index),
        timeline_of(b, lines, track_index),
        0 <= n <= a.len(),
        n <= b.len(),
    ensures
        forall|u: int| 0 <= u < n ==> #[trigger] a[u].line_index == b[u].line_index,
    decreases n,
{
    if n > 0 {
        lemma_timelines_agree(a, b, lines, track_index, n - 1);
        let t = n - 1;
        let x = a[t].line_index as int;
        let y = b[t].line_index as int;
        if x != y {
            assert(lines[y].visible());
            assert(frame::lists_line(a, y));
            let u = choose|u: int| 0 <= u < a.len() && (#[trigger] a[u]).line_index == y;
            if u < t {
                assert(a[u].line_index == b[u].line_index);
                assert(frame::line_sorts_before(b[u], b[t]));
            }
            assert(frame::lists_line(b, x));
            let v = choose|v: int| 0 <= v < b.len() && (#[trigger] b[v]).line_index == x;
            if v < t {
                assert(a[v].line_index == b[v].line_index);
                assert(frame::line_sorts_before(a[v], a[t]));
            }
            assert(frame::line_sorts_before(a[t], a[u]));
            assert(frame::line_sorts_before(b[t], b[v]));
        }
    }
}

/// A track's lines have one timeline: two sequences that both list them as one are equal.
pub proof fn lemma_timeline_unique(a: Seq<TimelineLine>, b: Seq<TimelineLine>, lines: Seq<LyricLine>, track_index: usize)
    requires
        timeline_of(a, lines, track_index),
        timeline_of(b, lines, track_index),
    ensures
        a == b,
{
    if a.len() < b.len() {
        lemma_timelines_agree(a, b, lines, track_index, a.len() as int);
        let t = a.len() as int;
        let y = b[t].line_index as int;
        assert(frame::lists_line(a, y));
        let u = choose|u: int| 0 <= u < a.len() && (#[trigger] a[u]).line_index == y;
        assert(a[u].line_index == b[u].line_index);
        assert(frame::line_sorts_before(b[u], b[t]));
    } else if b.len() < a.len() {
        lemma_timelines_agree(b, a, lines, track_index, b.len() as int);
        let t = b.len() as int;
        let y = a[t].line_index as int;
        assert(frame::lists_line(b, y));
        let u = choose|u: int| 0 <= u < b.len() && (#[trigger] b[u]).line_index == y;
        assert(b[u].line_index == a[u].line_index);
        assert(frame::line_sorts_before(a[u], a[t]));
    } else {
        lemma_timelines_agree(a, b, lines, track_index, a.len() as int);
        assert forall|t: int| 0 <= t < a.len() implies #[trigger] a[t] == b[t] by {
            assert(a[t].line_index == b[t].line_index);
        }
        assert(a =~= b);
    }
}

/// Two strictly increasing sequences of times that hold the same times agree before `n`.
proof fn lemma_increasing_agree(a: Seq<LyricTime>, b: Seq<LyricTime>, n: int)
    requires
        strictly_increasing(a),
        strictly_increasing(b),
        forall|time: LyricTime| a.contains(time) <==> b.contains(time),
        0 <= n <= a.len(),
        n <= b.len(),
    ensures
        forall|u: int| 0 <= u < n ==> #[trigger] a[u] == b[u],
    decreases n,
{
    if n > 0 {
        lemma_increasing_agree(a, b, n - 1);
        let t = n - 1;
        if a[t] != b[t] {
            assert(a.contains(a[t]));
            let u = choose|u: int| 0 <= u < b.len() && b[u] == a[t];
            assert(b.contains(b[t]));
            let v = choose|v: int| 0 <= v < a.len() && a[v] == b[t];
            if u < t {
                assert(a[u] == b[u]);
            }
            if v < t {
                assert(a[v] == b[v]);
            }
        }
    }
}

/// Strictly increasing sequences of times are fixed by the times they hold.
pub proof fn lemma_increasing_unique(a: Seq<LyricTime>, b: Seq<LyricTime>)
    requires
        strictly_increasing(a),
        strictly_increasing(b),
        forall|time: LyricTime| a.contains(time) <==> b.contains(time),
    ensures
        a == b,
{
    if a.len() < b.len() {
        lemma_increasing_agree(a, b, a.len() as int);
        let t = a.len() as int;
        assert(b.contains(b[t]));
        let u = choose|u: int| 0 <= u < a.len() && a[u] == b[t];
        assert(a[u] == b[u]);
    } else if b.len() < a.len() {
        lemma_increasing_agree(b, a, b.len() as int);
        let t = b.len() as int;
        assert(a.contains(a[t]));
        let u = choose|u: int| 0 <= u < b.len() && b[u] == a[t];
        assert(b[u] == a[u]);
    } else {
        lemma_increasing_agree(a, b, a.len() as int);
        assert(a =~= b);
    }
}

/// The lines of the track that the timeline indexes, and their timing events.
pub struct Timeline {
    index: LineIndex,
    events: Vec<LyricTime>,
    source: Ghost<Seq<LyricLine>>,
    track: Ghost<usize>,
}

impl Timeline {
    /// The lines of the timeline, in order.
    pub closed spec fn lines_view(&self) -> Seq<TimelineLine> {
        self.index.lines_view()
    }

    /// The lines of the track the timeline was built from.
    pub closed spec fn source_lines(&self) -> Seq<LyricLine> {
        self.source@
    }

    /// The index of that track in its document.
    pub closed spec fn source_track(&self) -> usize {
        self.track@
    }

    pub closed spec fn wf(&self) -> bool {
        &&& self.index.indexes(self.source@, self.track@)
        &&& strictly_increasing(self.events@)
        &&& forall|time: LyricTime| #[trigger] self.events@.contains(time) <==> is_event(self.source@, time)
    }

    /// What a well-formed timeline states of its lines.
    pub proof fn lemma_lines(&self)
        requires
            self.wf(),
        ensures
            timeline_of(self.lines_view(), self.source_lines(), self.source_track()),
    {
        self.index.lemma_indexes(self.source@, self.track@);
    }

    /// The timing events of the timeline, in order.
    pub closed spec fn events_view(&self) -> Seq<LyricTime> {
        self.events@
    }

    /// A timeline is fixed by the track it was built from: two well-formed timelines of the
    /// same lines of the same track hold the same lines and the same events; one of no lines
    /// holds none.
    pub proof fn lemma_same_source_same_timeline(a: &Timeline, b: &Timeline)
        requires
            a.wf(),
            b.wf(),
            a.source_lines() == b.source_lines(),
            a.source_track() == b.source_track(),
        ensures
            a.lines_view() == b.lines_view(),
            a.events_view() == b.events_view(),
            a.source_lines().len() == 0 ==> a.lines_view().len() == 0 && a.events_view().len() == 0,
    {
        a.lemma_lines();
        b.lemma_lines();
        lemma_timeline_unique(a.lines_view(), b.lines_view(), a.source_lines(), a.source_track());
        assert forall|time: LyricTime| a.events@.contains(time) <==> b.events@.contains(time) by {
            assert(a.events@.contains(time) <==> is_event(a.source@, time));
            assert(b.events@.contains(time) <==> is_event(b.source@, time));
        }
        lemma_increasing_unique(a.events@, b.events@);
        if a.source_lines().len() == 0 {
            if a.lines_view().len() > 0 {
                assert(a.lines_view()[0].line_index < a.source_lines().len());
            }
            if a.events@.len() > 0 {
                assert(a.events@.contains(a.events@[0]));
            }
        }
    }

    /// The timeline of the primary track of `document`, or an empty one.
    pub fn new(document: &LyricsDocument) -> (timeline: Timeline)
        ensures
            timeline.wf(),
            match primary_index(document.tracks@) {
                Some(i) => timeline.source_lines() == document.tracks@[i].lines@
                    && timeline.source_track() == i,
                None => timeline.source_lines().len() == 0,
            },
    {
        match primary_track_position(&document.tracks) {
            Some(track_index) => Self::build(&document.tracks[track_index], track_index),
            None => Self::empty(),
        }
    }

    /// The timeline of track `track_index` of `document`, when there is one.
    pub fn from_document_track(document: &LyricsDocument, track_index: usize) -> (timeline: Option<Timeline>)
        ensures
            track_index >= document.tracks@.len() ==> timeline is None,
            track_index < document.tracks@.len() ==> (timeline matches Some(t) && t.wf()
                && t.source_lines() == document.tracks@[track_index as int].lines@
                && t.source_track() == track_index),
    {
        if track_index < document.tracks.len() {
            Some(Self::build(&document.tracks[track_index], track_index))
        } else {
            None
        }
    }

    pub fn from_track(track: &LyricTrack) -> (timeline: Timeline)
        ensures
            timeline.wf(),
            timeline.source_lines() == track.lines@,
            timeline.source_track() == 0,
    {
        Self::build(track, 0)
    }

    fn empty() -> (timeline: Timeline)
        ensures
            timeline.wf(),
            timeline.source_lines().len() == 0,
            timeline.source_track() == 0,
    {
        let timeline = Timeline {
            index: LineIndex::empty(),
            events: Vec::new(),
            source: Ghost(Seq::empty()),
            track: Ghost(0),
        };
        proof {
            assert(timeline.index.indexes(Seq::<LyricLine>::empty(), 0usize));
        }
        timeline
    }

    pub fn len(&self) -> (count: usize)
        ensures
            count == self.lines_view().len(),
    {
        self.index.len()
    }

    pub fn is_empty(&self) -> (empty: bool)
        ensures
            empty == (self.lines_view().len() == 0),
    {
        self.len() == 0
    }

    /// The lines of the timeline, in order.
    pub fn lines(&self) -> (lines: Vec<TimelineLine>)
        ensures
            lines@ == self.lines_view(),
    {
        self.index.lines()
    }

    /// The line at `index` of the timeline, when there is one.
    pub fn line(&self, index: usize) -> (line: Option<TimelineLine>)
        ensures
            line == line_at(self.lines_view(), index as int),
    {
        self.index.line(index)
    }

    pub fn frame_at(&self, position: LyricTime) -> (frame: TimelineFrame)
        requires
            self.wf(),
        ensures
            frame.position == position,
            reports_active_lines(self.lines_view(), self.source_lines(), position, frame.active_lines@),
            frame.active_lines@.len() == 0 ==> frame.active_line is None,
            frame.active_lines@.len() > 0 ==> (frame.active_line matches Some(active)
                && active.line == frame.active_lines@.last().line
                && active.active_segments@ == frame.active_lines@.last().active_segments@),
            neighbours_of(self.lines_view(), position, frame.active_line, frame.previous_line, frame.next_line),
            next_event_of(self.source_lines(), position, frame.next_event),
    {
        let active_lines = self.index.active_at(position, self.source, self.track);
        let active_line = if active_lines.len() == 0 {
            None
        } else {
            Some(active_lines[active_lines.len() - 1].duplicate())
        };
        proof {
            if active_lines@.len() > 0 {
                let last = active_lines@[active_lines@.len() - 1];
                assert(last.line.timeline_index < self.lines_view().len());
            }
        }
        let (previous_line, next_line) = self.neighbours(position, &active_line);
        let next_event = self.next_event_after(position);
        TimelineFrame {
            position,
            active_lines,
            active_line,
            previous_line,
            next_line,
            next_event,
        }
    }

    /// The lines before and after the active line, or around `position` when none is active.
    fn neighbours(&self, position: LyricTime, active_line: &Option<ActiveLine>) -> (neighbours: (Option<TimelineLine>, Option<TimelineLine>))
        requires
            self.wf(),
            active_line matches Some(active) ==> active.line.timeline_index < self.lines_view().len(),
        ensures
            neighbours_of(self.lines_view(), position, *active_line, neighbours.0, neighbours.1),
    {
        match active_line {
            None => {
                let upper = self.index.upper_bound(position, self.source, self.track);
                let previous = if upper > 0 {
                    self.index.line(upper - 1)
                } else {
                    None
                };
                proof {
                    assert(splits_at(self.lines_view(), position, upper as int));
                }
                (previous, self.index.line(upper))
            },
            Some(active) => {
                let count = self.index.len();
                let current = active.line.timeline_index;
                let previous = if current > 0 {
                    self.index.line(current - 1)
                } else {
                    None
                };
                (previous, self.index.line(current + 1))
            },
        }
    }

    /// The lines to lay out around `position`: the active lines, or the last line that
    /// started, widened by `before` lines before and `after` lines after.
    pub fn visible_range(&self, position: LyricTime, before: usize, after: usize) -> (range: Range<usize>)
        requires
            self.wf(),
        ensures
            self.lines_view().len() == 0 ==> range.start == 0 && range.end == 0,
            self.lines_view().len() > 0 ==> exists|first: int, last: int|
                {
                    &&& #[trigger] window_around(self.lines_view(), position, first, last)
                    &&& range.start == (if first >= before { first - before } else { 0 })
                    &&& range.end == (if last + after + 1 < self.lines_view().len() {
                        last + after + 1
                    } else {
                        self.lines_view().len() as int
                    })
                },
    {
        if self.is_empty() {
            return 0..0;
        }
        let count = self.len();
        let upper = self.index.upper_bound(position, self.source, self.track);
        let anchor = if upper == 0 {
            0
        } else if upper - 1 < count - 1 {
            upper - 1
        } else {
            count - 1
        };
        let (first, last) = match self.index.active_index_bounds(position, self.source, self.track) {
            Some(bounds) => bounds,
            None => (anchor, anchor),
        };
        proof {
            assert(splits_at(self.lines_view(), position, upper as int));
            assert(window_around(self.lines_view(), position, first as int, last as int));
        }
        let start = first.saturating_sub(before);
        let end = {
            let widened = last.saturating_add(after).saturating_add(1);
            if widened < count {
                widened
            } else {
                count
            }
        };
        start..end
    }

    /// The earliest event after `position`.
    pub fn next_event_after(&self, position: LyricTime) -> (next: Option<LyricTime>)
        requires
            self.wf(),
        ensures
            next_event_of(self.source_lines(), position, next),
    {
        let index = self.events_through(position);
        if index < self.events.len() {
            proof {
                assert(self.events@.contains(self.events@[index as int]));
                assert forall|other: LyricTime| #[trigger] is_event(self.source@, other) && other.0 > position.0
                    implies self.events@[index as int].0 <= other.0 by {
                    assert(self.events@.contains(other));
                    let k = choose|k: int| 0 <= k < self.events@.len() && self.events@[k] == other;
                    if k < index {
                        assert(self.events@[k].0 <= position.0);
                    } else if k > index {
                        assert(self.events@[index as int].0 < self.events@[k].0);
                    }
                }
            }
            Some(self.events[index])
        } else {
            proof {
                assert forall|other: LyricTime| #[trigger] is_event(self.source@, other) implies other.0
                    <= position.0 by {
                    assert(self.events@.contains(other));
                }
            }
            None
        }
    }

    /// The latest event at or before `position`.
    pub fn previous_event_at_or_before(&self, position: LyricTime) -> (previous: Option<LyricTime>)
        requires
            self.wf(),
        ensures
            previous_event_of(self.source_lines(), position, previous),
    {
        let index = self.events_through(position);
        if index > 0 {
            proof {
                assert(self.events@.contains(self.events@[index - 1]));
                assert forall|other: LyricTime| #[trigger] is_event(self.source@, other) && other.0 <= position.0
                    implies other.0 <= self.events@[index - 1].0 by {
                    assert(self.events@.contains(other));
                    let k = choose|k: int| 0 <= k < self.events@.len() && self.events@[k] == other;
                    if k >= index {
                        assert(self.events@[k].0 > position.0);
                    } else if k < index - 1 {
                        assert(self.events@[k].0 < self.events@[index - 1].0);
                    }
                }
            }
            Some(self.events[index - 1])
        } else {
            proof {
                assert forall|other: LyricTime| #[trigger] is_event(self.source@, other) implies other.0
                    > position.0 by {
                    assert(self.events@.contains(other));
                }
            }
            None
        }
    }

    /// The number of events at or before `position`.
    fn events_through(&self, position: LyricTime) -> (upper: usize)
        requires
            self.wf(),
        ensures
            upper <= self.events@.len(),
            forall|i: int| 0 <= i < upper ==> (#[trigger] self.events@[i]).0 <= position.0,
            forall|i: int| upper <= i < self.events@.len() ==> (#[trigger] self.events@[i]).0 > position.0,
    {
        let mut lo: usize = 0;
        let mut hi: usize = self.events.len();
        while lo < hi
            invariant
                lo <= hi <= self.events@.len(),
                strictly_increasing(self.events@),
                forall|i: int| 0 <= i < lo ==> (#[trigger] self.events@[i]).0 <= position.0,
                forall|i: int| hi <= i < self.events@.len() ==> (#[trigger] self.events@[i]).0 > position.0,
            decreases hi - lo,
        {
            let middle = lo + (hi - lo) / 2;
            if self.events[middle].0 <= position.0 {
                lo = middle + 1;
            } else {
                hi = middle;
            }
        }
        lo
    }

    fn build(track: &LyricTrack, track_index: usize) -> (timeline: Timeline)
        ensures
            timeline.wf(),
            timeline.source_lines() == track.lines@,
            timeline.source_track() == track_index,
    {
        let mut events: Vec<LyricTime> = Vec::new();
        let mut k: usize = 0;
        while k < track.lines.len()
            invariant
                k <= track.lines@.len(),
                strictly_increasing(events@),
                forall|time: LyricTime| #[trigger] events@.contains(time) <==> is_event(
                    track.lines@.take(k as int),
                    time,
                ),
            decreases track.lines.len() - k,
        {
            add_line_events(&mut events, &track.lines[k]);
            proof {
                let lines = track.lines@;
                assert forall|time: LyricTime| #[trigger] events@.contains(time) <==> is_event(
                    lines.take(k + 1),
                    time,
                ) by {
                    if is_event(lines.take(k + 1), time) {
                        let m = choose|m: int| 0 <= m < k + 1 && #[trigger] line_event(lines.take(k + 1)[m], time);
                        if m < k {
                            assert(lines.take(k as int)[m] == lines.take(k + 1)[m]);
                        }
                    }
                    if is_event(lines.take(k as int), time) {
                        let m = choose|m: int| 0 <= m < k && #[trigger] line_event(lines.take(k as int)[m], time);
                        assert(lines.take(k as int)[m] == lines.take(k + 1)[m]);
                    }
                    if line_event(lines[k as int], time) {
                        assert(lines.take(k + 1)[k as int] == lines[k as int]);
                    }
                }
            }
            k += 1;
        }
        proof {
            assert(track.lines@.take(track.lines@.len() as int) =~= track.lines@);
        }
        Timeline {
            index: LineIndex::new(track, track_index),
            events,
            source: Ghost(track.lines@),
            track: Ghost(track_index),
        }
    }
}

/// The lines `first..=last` of the window around `position`: the lines that hold it, or
/// else the last line that started (the first line when none has).
pub open spec fn window_around(timeline: Seq<TimelineLine>, position: LyricTime, first: int, last: int) -> bool {
    if exists|t: int| 0 <= t < timeline.len() && (#[trigger] timeline[t]).range.holds(position) {
        &&& 0 <= first <= last < timeline.len()
        &&& timeline[first].range.holds(position)
        &&& timeline[last].range.holds(position)
        &&& forall|t: int|
            0 <= t < timeline.len() && (#[trigger] timeline[t]).range.holds(position) ==> first <= t
                <= last
    } else {
        exists|upper: int|
            #[trigger] splits_at(timeline, position, upper) && first == last && last == (if upper == 0 {
                0
            } else {
                upper - 1
            })
    }
}

impl Clone for Timeline {
    fn clone(&self) -> (copy: Timeline)
        ensures
            copy.lines_view() == self.lines_view(),
            copy.source_lines() == self.source_lines(),
            copy.source_track() == self.source_track(),
            self.wf() ==> copy.wf(),
    {
        let mut events: Vec<LyricTime> = Vec::new();
        let mut k: usize = 0;
        while k < self.events.len()
            invariant
                k <= self.events@.len(),
                events@ == self.events@.take(k as int),
            decreases self.events@.len() - k,
        {
            events.push(self.events[k]);
            proof {
                assert(self.events@.take(k + 1) == self.events@.take(k as int).push(self.events@[k as int]));
            }
            k += 1;
        }
        proof {
            assert(self.events@.take(k as int) == self.events@);
        }
        Timeline { index: self.index.clone(), events, source: Ghost(self.source@), track: Ghost(self.track@) }
    }
}

impl Default for Timeline {
    fn default() -> (timeline: Timeline)
        ensures
            timeline.wf(),
            timeline.source_lines().len() == 0,
    {
        Timeline::empty()
    }
}

/// Adds `time` to a strictly increasing list of times, unless it is there.
fn insert_event(events: &mut Vec<LyricTime>, time: LyricTime)
    requires
        strictly_increasing(old(events)@),
    ensures
        strictly_increasing(final(events)@),
        forall|other: LyricTime| #[trigger] final(events)@.contains(other) <==> (old(events)@.contains(other) || other == time),
{
    let mut lo: usize = 0;
    let mut hi: usize = events.len();
    while lo < hi
        invariant
            lo <= hi <= events@.len(),
            events@ == old(events)@,
            strictly_increasing(events@),
            forall|i: int| 0 <= i < lo ==> (#[trigger] events@[i]).0 < time.0,
            forall|i: int| hi <= i < events@.len() ==> (#[trigger] events@[i]).0 >= time.0,
        decreases hi - lo,
    {
        let middle = lo + (hi - lo) / 2;
        if events[middle].0 < time.0 {
            lo = middle + 1;
        } else {
            hi = middle;
        }
    }
    if lo < events.len() && events[lo].0 == time.0 {
        proof {
            assert(events@[lo as int] == time);
            assert forall|other: LyricTime| #[trigger] events@.contains(other) <==> (old(events)@.contains(other) || other == time) by {
                if other == time {
                    assert(events@.contains(events@[lo as int]));
                }
            }
        }
        return;
    }
    let ghost before = events@;
    events.insert(lo, time);
    proof {
        assert forall|i: int, j: int| 0 <= i < j < events@.len() implies (#[trigger] events@[i]).0 < (#[trigger] events@[j]).0 by {
            if j < lo {
                assert(events@[i] == before[i] && events@[j] == before[j]);
            } else if j == lo {
                assert(events@[i] == before[i]);
            } else if i < lo {
                assert(events@[i] == before[i] && events@[j] == before[j - 1]);
            } else if i == lo {
                assert(events@[j] == before[j - 1]);
                assert(before[j - 1].0 >= time.0);
                if before[j - 1].0 == time.0 {
                    assert(lo < before.len());
                    if j - 1 > lo {
                        assert(before[lo as int].0 < before[j - 1].0);
                    }
                }
            } else {
                assert(events@[i] == before[i - 1] && events@[j] == before[j - 1]);
            }
        }
        assert forall|other: LyricTime| #[trigger] events@.contains(other) <==> (before.contains(other) || other == time) by {
            if events@.contains(other) {
                let i = choose|i: int| 0 <= i < events@.len() && events@[i] == other;
                if i < lo {
                    assert(before[i] == other);
                } else if i > lo {
                    assert(before[i - 1] == other);
                }
            }
            if before.contains(other) {
                let i = choose|i: int| 0 <= i < before.len() && before[i] == other;
                if i < lo {
                    assert(events@[i] == other);
                } else {
                    assert(events@[i + 1] == other);
                }
            }
            if other == time {
                assert(events@[lo as int] == time);
            }
        }
    }
}

/// Adds the starts and ends of the segments of `lane`.
fn add_lane_events(events: &mut Vec<LyricTime>, lane: &LyricLane)
    requires
        strictly_increasing(old(events)@),
    ensures
        strictly_increasing(final(events)@),
        forall|time: LyricTime| #[trigger] final(events)@.contains(time) <==> (old(events)@.contains(time) || lane_event(*lane, time)),
{
    let mut s: usize = 0;
    while s < lane.segments.len()
        invariant
            s <= lane.segments@.len(),
            strictly_increasing(events@),
            forall|time: LyricTime| #[trigger] events@.contains(time) <==> (old(events)@.contains(time)
                || exists|r: int| 0 <= r < s && #[trigger] segment_event(lane.segments@[r], time)),
        decreases lane.segments.len() - s,
    {
        let range = lane.segments[s].range;
        insert_event(events, range.start);
        match range.end {
            Some(end) => insert_event(events, end),
            None => {},
        }
        proof {
            assert forall|time: LyricTime| #[trigger] events@.contains(time) <==> (old(events)@.contains(time)
                || exists|r: int| 0 <= r < s + 1 && #[trigger] segment_event(lane.segments@[r], time)) by {
                if segment_event(lane.segments@[s as int], time) {
                    assert(0 <= s < s + 1);
                }
            }
        }
        s += 1;
    }
}

/// Adds the start and end of `line` and of its segments.
fn add_line_events(events: &mut Vec<LyricTime>, line: &LyricLine)
    requires
        strictly_increasing(old(events)@),
    ensures
        strictly_increasing(final(events)@),
        forall|time: LyricTime| #[trigger] final(events)@.contains(time) <==> (old(events)@.contains(time) || line_event(*line, time)),
{
    insert_event(events, line.range.start);
    match line.range.end {
        Some(end) => insert_event(events, end),
        None => {},
    }
    let ghost after_line = events@;
    let mut j: usize = 0;
    while j < line.lanes.len()
        invariant
            j <= line.lanes@.len(),
            strictly_increasing(events@),
            forall|time: LyricTime| #[trigger] after_line.contains(time) <==> (old(events)@.contains(time)
                || line.range.start == time || line.range.end == Some(time)),
            forall|time: LyricTime| #[trigger] events@.contains(time) <==> (after_line.contains(time)
                || exists|m: int| 0 <= m < j && #[trigger] lane_event(line.lanes@[m], time)),
        decreases line.lanes.len() - j,
    {
        let ghost before = events@;
        add_lane_events(events, &line.lanes[j]);
        proof {
            assert forall|time: LyricTime| #[trigger] events@.contains(time) <==> (after_line.contains(time)
                || exists|m: int| 0 <= m < j + 1 && #[trigger] lane_event(line.lanes@[m], time)) by {
                if lane_event(line.lanes@[j as int], time) {
                    assert(0 <= j < j + 1);
                }
                if before.contains(time) {
                }
            }
        }
        j += 1;
    }
}

/// There is only one earliest event after a position.
pub proof fn lemma_next_event_is_unique(lines: Seq<LyricLine>, position: LyricTime, a: Option<LyricTime>, b: Option<LyricTime>)
    requires
        next_event_of(lines, position, a),
        next_event_of(lines, position, b),
    ensures
        a == b,
{
    match (a, b) {
        (Some(x), Some(y)) => {
            assert(is_event(lines, x) && is_event(lines, y));
        },
        (Some(x), None) => {
            assert(is_event(lines, x));
        },
        (None, Some(y)) => {
            assert(is_event(lines, y));
        },
        (None, None) => {},
    }
}

/// There is only one latest event at or before a position.
pub proof fn lemma_previous_event_is_unique(lines: Seq<LyricLine>, position: LyricTime, a: Option<LyricTime>, b: Option<LyricTime>)
    requires
        previous_event_of(lines, position, a),
        previous_event_of(lines, position, b),
    ensures
        a == b,
{
    match (a, b) {
        (Some(x), Some(y)) => {
            assert(is_event(lines, x) && is_event(lines, y));
        },
        (Some(x), None) => {
            assert(is_event(lines, x));
        },
        (None, Some(y)) => {
            assert(is_event(lines, y));
        },
        (None, None) => {},
    }
}

} // verus!
