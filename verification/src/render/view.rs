//! Decisions of the lyrics view that follow from plain values: what a sampled timeline frame
//! shows (the current line, the gap, the focus, whether words animate), and which render
//! events a new playback anchor sends.

use vstd::prelude::*;

use crate::render::layout::{gap_before_range, gap_before_spec};
use crate::render::state::{AnimationReasons, ClockSample, RenderEvent, RenderState};
use crate::render::visual::{gap_window, shows_gap};
use crate::sizing::LARGE_SEEK_US;
use crate::time::{abs_int, LyricTime, TimeRange};
use crate::timeline::{ActiveLine, SegmentProgress, TimelineFrame, TimelineLine};

verus! {

/// What a sampled frame shows.
#[derive(Clone, Copy, Debug, PartialEq, Eq, Structural)]
pub struct FocusDecision {
    /// The line whose words are highlighted; none while a gap is shown.
    pub current_line: Option<usize>,
    /// The gap being shown, when its animation runs at the position.
    pub gap: Option<TimeRange>,
    /// The line after the shown gap.
    pub gap_line: Option<usize>,
    /// The line the view centres on.
    pub focus: Option<usize>,
    /// Whether some visible lane of the current line is inside a timed word.
    pub word_animation: bool,
    /// When the gap before the next line starts, if that is still ahead.
    pub next_gap_event: Option<LyricTime>,
}

/// The gap that could be shown: the one before the next line, after the active line or,
/// when none is active, after the previous line.
pub open spec fn display_gap(
    active: Option<TimelineLine>,
    previous: Option<TimelineLine>,
    next: Option<TimelineLine>,
) -> Option<(usize, TimeRange)> {
    match next {
        None => None,
        Some(next) => {
            let before = if active is Some { active } else { previous };
            match gap_before_spec(before, next) {
                Some(range) => Some((next.timeline_index, range)),
                None => None,
            }
        },
    }
}

/// Whether the active segment `segment` animates a word at `position`: its lane is visible
/// and it is timed to end after both the position and its own start.
pub open spec fn segment_animates(segment: SegmentProgress, lane_visible: Seq<bool>, position: LyricTime) -> bool {
    &&& segment.lane_index < lane_visible.len()
    &&& lane_visible[segment.lane_index as int]
    &&& segment.range.end matches Some(end) && end.0 > position.0 && end.0 > segment.range.start.0
}

/// What the frame with active line `active` (and its active `segments`), previous line
/// `previous` and next line `next` shows at `position`; `lane_visible` tells which lanes of
/// the active line are shown.
pub open spec fn focus_for(
    active: Option<TimelineLine>,
    segments: Seq<SegmentProgress>,
    previous: Option<TimelineLine>,
    next: Option<TimelineLine>,
    position: LyricTime,
    lane_visible: Seq<bool>,
) -> FocusDecision {
    let shown = display_gap(active, previous, next);
    let gap = match shown {
        Some((_, range)) => if shows_gap(range, position) { Some(range) } else { None },
        None => None,
    };
    let gap_line = match (gap, shown) {
        (Some(_), Some((line, _))) => Some(line),
        _ => None,
    };
    let base_current = match active {
        Some(line) => Some(line.timeline_index),
        None => None,
    };
    let previous_index = match previous {
        Some(line) => Some(line.timeline_index),
        None => None,
    };
    let next_index = match next {
        Some(line) => Some(line.timeline_index),
        None => None,
    };
    let current = if gap is None { base_current } else { None };
    let focus = if gap is Some {
        gap_line
    } else if current is Some {
        current
    } else if previous_index is Some {
        previous_index
    } else {
        next_index
    };
    FocusDecision {
        current_line: current,
        gap,
        gap_line,
        focus,
        word_animation: gap is None && active is Some && exists|s: int|
            0 <= s < segments.len() && #[trigger] segment_animates(segments[s], lane_visible, position),
        next_gap_event: match shown {
            Some((_, range)) => if range.start.0 > position.0 { Some(range.start) } else { None },
            None => None,
        },
    }
}

/// What `frame` shows at `position`; `lane_visible` tells, by lane index, which lanes of the
/// frame's active line are shown.
pub fn frame_focus(frame: &TimelineFrame, position: LyricTime, lane_visible: &Vec<bool>) -> (focus: FocusDecision)
    ensures
        focus == focus_for(
            match frame.active_line {
                Some(active) => Some(active.line),
                None => None,
            },
            match frame.active_line {
                Some(active) => active.active_segments@,
                None => Seq::empty(),
            },
            frame.previous_line,
            frame.next_line,
            position,
            lane_visible@,
        ),
{
    let active_line: Option<TimelineLine> = match &frame.active_line {
        Some(active) => Some(active.line),
        None => None,
    };
    let shown: Option<(usize, TimeRange)> = match &frame.next_line {
        None => None,
        Some(next) => {
            let before: Option<&TimelineLine> = match &active_line {
                Some(line) => Some(line),
                None => match &frame.previous_line {
                    Some(line) => Some(line),
                    None => None,
                },
            };
            match gap_before_range(before, next) {
                Some(range) => Some((next.timeline_index, range)),
                None => None,
            }
        },
    };
    let gap: Option<TimeRange> = match shown {
        Some((_, range)) => if gap_window(range, position).is_some() { Some(range) } else { None },
        None => None,
    };
    let gap_line: Option<usize> = match (gap, shown) {
        (Some(_), Some((line, _))) => Some(line),
        _ => None,
    };
    let base_current: Option<usize> = match active_line {
        Some(line) => Some(line.timeline_index),
        None => None,
    };
    let current: Option<usize> = if gap.is_none() { base_current } else { None };
    let focus: Option<usize> = if gap.is_some() {
        gap_line
    } else if current.is_some() {
        current
    } else {
        match &frame.previous_line {
            Some(line) => Some(line.timeline_index),
            None => match &frame.next_line {
                Some(line) => Some(line.timeline_index),
                None => None,
            },
        }
    };
    let mut word_animation = false;
    if gap.is_none() {
        match &frame.active_line {
            Some(active) => {
                let segments = &active.active_segments;
                let mut s: usize = 0;
                while s < segments.len()
                    invariant
                        s <= segments@.len(),
                        !word_animation <==> forall|q: int|
                            0 <= q < s ==> !#[trigger] segment_animates(segments@[q], lane_visible@, position),
                    decreases segments.len() - s,
                {
                    let segment = segments[s];
                    let visible = segment.lane_index < lane_visible.len() && lane_visible[segment.lane_index];
                    let animates = visible && match segment.range.end {
                        Some(end) => end.0 > position.0 && end.0 > segment.range.start.0,
                        None => false,
                    };
                    assert(animates == segment_animates(segments@[s as int], lane_visible@, position));
                    if animates {
                        word_animation = true;
                    }
                    s += 1;
                }
            },
            None => {},
        }
    }
    let next_gap_event: Option<LyricTime> = match shown {
        Some((_, range)) => if range.start.0 > position.0 { Some(range.start) } else { None },
        None => None,
    };
    FocusDecision { current_line: current, gap, gap_line, focus, word_animation, next_gap_event }
}

/// Whether moving the playback anchor from the predicted position to `target` is a seek:
/// the two lie more than `LARGE_SEEK_US` apart.
pub open spec fn large_seek(predicted: LyricTime, target: LyricTime) -> bool {
    abs_int(target.micros() - predicted.micros()) > LARGE_SEEK_US
}

/// Whether moving the anchor from `predicted` to `target` is a seek.
pub fn is_large_seek(predicted: LyricTime, target: LyricTime) -> (seek: bool)
    ensures
        seek == large_seek(predicted, target),
{
    target.abs_diff(predicted) > LARGE_SEEK_US as u64
}

/// The first event of an anchor change, sent in `state`: a seek to `target` of the document
/// of `generation`, when the change is a seek and a document is attached.
pub fn seek_request(state: RenderState, seek: bool, generation: u64, target: LyricTime) -> (event: Option<RenderEvent>)
    ensures
        event == if seek && state.holds_document() {
            Some(RenderEvent::Seek { generation, target })
        } else {
            None
        },
{
    if seek && state.has_document() {
        Some(RenderEvent::Seek { generation, target })
    } else {
        None
    }
}

/// The event that reports the new anchor, sent in `state` once the frame was sampled: the
/// seek committed when the change is a seek that left the view seeking, else the anchor's
/// sample with the next event and running animations.
pub fn anchor_event(
    state: RenderState,
    seek: bool,
    generation: u64,
    sample: ClockSample,
    next_event: Option<LyricTime>,
    animations: AnimationReasons,
) -> (event: RenderEvent)
    ensures
        event == if seek && state is Seeking {
            RenderEvent::SeekCommitted { generation }
        } else {
            RenderEvent::AnchorChanged { sample, next_event, animations }
        },
{
    match state {
        RenderState::Seeking { .. } => if seek {
            RenderEvent::SeekCommitted { generation }
        } else {
            RenderEvent::AnchorChanged { sample, next_event, animations }
        },
        _ => RenderEvent::AnchorChanged { sample, next_event, animations },
    }
}

/// The last event of an anchor change: when the view was scrolled by hand before the change
/// (`before`), the new anchor does not advance, the change is no seek, and the view is no
/// longer scrolled by hand (`now`), the manual scroll resumes with its deadline.
pub fn scroll_resumption(before: RenderState, advancing: bool, seek: bool, now: RenderState) -> (event: Option<RenderEvent>)
    ensures
        event == match before {
            RenderState::ManualScroll { return_deadline_us, .. } => if !advancing && !seek && !(now is ManualScroll) {
                Some(RenderEvent::UserScroll { return_deadline_us, advancing })
            } else {
                None
            },
            _ => None,
        },
{
    match before {
        RenderState::ManualScroll { return_deadline_us, .. } => {
            let scrolling = match now {
                RenderState::ManualScroll { .. } => true,
                _ => false,
            };
            if !advancing && !seek && !scrolling {
                Some(RenderEvent::UserScroll { return_deadline_us, advancing })
            } else {
                None
            }
        },
        _ => None,
    }
}

/// While the active line holds the position, the view highlights and centres that line and
/// shows no gap: the gap before the next line starts where the active line ends, so it never
/// covers a position inside the active line, and that end is the only gap event announced.
pub proof fn lemma_active_line_shows_no_gap(
    active: TimelineLine,
    segments: Seq<SegmentProgress>,
    previous: Option<TimelineLine>,
    next: Option<TimelineLine>,
    position: LyricTime,
    lane_visible: Seq<bool>,
)
    requires
        active.range.holds(position),
    ensures
        focus_for(Some(active), segments, previous, next, position, lane_visible).current_line == Some(
            active.timeline_index,
        ),
        focus_for(Some(active), segments, previous, next, position, lane_visible).gap is None,
        focus_for(Some(active), segments, previous, next, position, lane_visible).gap_line is None,
        focus_for(Some(active), segments, previous, next, position, lane_visible).focus == Some(
            active.timeline_index,
        ),
        focus_for(Some(active), segments, previous, next, position, lane_visible).next_gap_event matches Some(
            start,
        ) ==> active.range.end == Some(start) && start.0 > position.0,
{
}

/// A shown gap is the pause before the next line, and it holds the position: it ends where
/// the next line starts and starts where the active line ends or, when none is active,
/// where the previous line ends. While it shows, no line is highlighted, no word animates,
/// and the view centres on the next line.
pub proof fn lemma_shown_gap_leads_to_the_next_line(
    active: Option<TimelineLine>,
    segments: Seq<SegmentProgress>,
    previous: Option<TimelineLine>,
    next: Option<TimelineLine>,
    position: LyricTime,
    lane_visible: Seq<bool>,
)
    ensures
        focus_for(active, segments, previous, next, position, lane_visible).gap matches Some(range) ==> {
            &&& range.holds(position)
            &&& next is Some
            &&& range.end == Some(next.unwrap().range.start)
            &&& active is Some ==> active.unwrap().range.end == Some(range.start)
            &&& active is None && previous is Some ==> previous.unwrap().range.end == Some(range.start)
            &&& focus_for(active, segments, previous, next, position, lane_visible).current_line is None
            &&& !focus_for(active, segments, previous, next, position, lane_visible).word_animation
            &&& focus_for(active, segments, previous, next, position, lane_visible).gap_line == Some(
                next.unwrap().timeline_index,
            )
            &&& focus_for(active, segments, previous, next, position, lane_visible).focus == Some(
                next.unwrap().timeline_index,
            )
        },
{
}

} // verus!
