//! An interval index over the visible lines of a track: lines sorted by start, with a tree
//! of latest ends that lets a query skip every subtree that ends before the position.

use vstd::prelude::*;

use crate::model::{LyricLine, LyricTrack, TimedSegment};
use crate::time::{max_time, LyricTime, TimeRange};

use super::frame::{
    chosen_segment, line_sorts_before, lists_line, progress_duration, progress_elapsed,
    reports_active_lines, reports_chosen, reports_lanes, segment_active, some_segment_active,
    timeline_of, ActiveLine, SegmentProgress, TimelineLine,
};

verus! {

/// The latest end of a set of ranges; `open` when one of them has no end.
#[derive(Clone, Copy, Debug, PartialEq, Eq, Structural)]
struct EndBound {
    latest: LyricTime,
    open: bool,
}

spec fn bound_of(range: TimeRange) -> EndBound {
    match range.end {
        Some(end) => EndBound { latest: end, open: false },
        None => EndBound { latest: LyricTime(i64::MAX), open: true },
    }
}

spec fn union_of(a: EndBound, b: EndBound) -> EndBound {
    EndBound { latest: max_time(a.latest, b.latest), open: a.open || b.open }
}

spec fn reaches_past(bound: EndBound, position: LyricTime) -> bool {
    bound.open || bound.latest.0 > position.0
}

impl EndBound {
    fn from_range(range: TimeRange) -> (bound: EndBound)
        ensures
            bound == bound_of(range),
    {
        match range.end {
            Some(end) => EndBound { latest: end, open: false },
            None => EndBound { latest: LyricTime::max_value(), open: true },
        }
    }

    fn union(self, other: EndBound) -> (bound: EndBound)
        ensures
            bound == union_of(self, other),
    {
        EndBound { latest: self.latest.later(other.latest), open: self.open || other.open }
    }

    fn extends_past(self, position: LyricTime) -> (past: bool)
        ensures
            past == reaches_past(self, position),
    {
        self.open || self.latest.0 > position.0
    }
}

/// A balanced tree over a run of lines: each node holds the end bound of the lines it
/// covers; a node over `lo..hi` splits at `lo + (hi - lo) / 2`.
#[derive(Debug)]
enum EndTree {
    Leaf(EndBound),
    Branch(EndBound, Box<EndTree>, Box<EndTree>),
}

/// A copy of `tree`.
fn copy_tree(tree: &EndTree) -> (copy: EndTree)
    ensures
        copy == *tree,
    decreases tree,
{
    match tree {
        EndTree::Leaf(bound) => EndTree::Leaf(*bound),
        EndTree::Branch(bound, left, right) => EndTree::Branch(
            *bound,
            Box::new(copy_tree(left)),
            Box::new(copy_tree(right)),
        ),
    }
}

spec fn tree_bound(tree: EndTree) -> EndBound {
    match tree {
        EndTree::Leaf(bound) => bound,
        EndTree::Branch(bound, _, _) => bound,
    }
}

spec fn split_of(lo: int, hi: int) -> int {
    lo + (hi - lo) / 2
}

/// `tree` covers `ranges[lo..hi]`.
spec fn tree_covers(tree: EndTree, ranges: Seq<TimeRange>, lo: int, hi: int) -> bool
    decreases tree,
{
    match tree {
        EndTree::Leaf(bound) => hi == lo + 1 && 0 <= lo < ranges.len() && bound == bound_of(
            ranges[lo],
        ),
        EndTree::Branch(bound, left, right) => {
            &&& hi - lo >= 2
            &&& tree_covers(*left, ranges, lo, split_of(lo, hi))
            &&& tree_covers(*right, ranges, split_of(lo, hi), hi)
            &&& bound == union_of(tree_bound(*left), tree_bound(*right))
        },
    }
}

/// A tree whose bound does not reach past `position` covers no range that holds it.
proof fn lemma_bound_excludes(tree: EndTree, ranges: Seq<TimeRange>, lo: int, hi: int, position: LyricTime)
    requires
        tree_covers(tree, ranges, lo, hi),
        !reaches_past(tree_bound(tree), position),
    ensures
        forall|i: int| lo <= i < hi ==> !(#[trigger] ranges[i]).holds(position),
    decreases tree,
{
    match tree {
        EndTree::Leaf(_) => {},
        EndTree::Branch(_, left, right) => {
            lemma_bound_excludes(*left, ranges, lo, split_of(lo, hi), position);
            lemma_bound_excludes(*right, ranges, split_of(lo, hi), hi, position);
        },
    }
}

proof fn lemma_covers_bounds(tree: EndTree, ranges: Seq<TimeRange>, lo: int, hi: int)
    requires
        tree_covers(tree, ranges, lo, hi),
    ensures
        0 <= lo < hi <= ranges.len(),
    decreases tree,
{
    match tree {
        EndTree::Leaf(_) => {},
        EndTree::Branch(_, left, right) => {
            lemma_covers_bounds(*left, ranges, lo, split_of(lo, hi));
            lemma_covers_bounds(*right, ranges, split_of(lo, hi), hi);
        },
    }
}

/// The indices in `lo..hi`, ascending, whose range holds `position`.
spec fn holding_between(ranges: Seq<TimeRange>, lo: int, hi: int, position: LyricTime) -> Seq<usize>
    decreases hi - lo,
{
    if lo >= hi {
        Seq::empty()
    } else {
        let rest = holding_between(ranges, lo + 1, hi, position);
        if ranges[lo].holds(position) {
            seq![lo as usize] + rest
        } else {
            rest
        }
    }
}

proof fn lemma_holding_split(ranges: Seq<TimeRange>, lo: int, mid: int, hi: int, position: LyricTime)
    requires
        lo <= mid <= hi,
    ensures
        holding_between(ranges, lo, hi, position) == holding_between(ranges, lo, mid, position)
            + holding_between(ranges, mid, hi, position),
    decreases mid - lo,
{
    if lo < mid {
        lemma_holding_split(ranges, lo + 1, mid, hi, position);
        let rest = holding_between(ranges, lo + 1, hi, position);
        let head = holding_between(ranges, lo + 1, mid, position);
        let tail = holding_between(ranges, mid, hi, position);
        if ranges[lo].holds(position) {
            assert(seq![lo as usize] + (head + tail) == (seq![lo as usize] + head) + tail);
        }
    } else {
        assert(holding_between(ranges, lo, mid, position) == Seq::<usize>::empty());
        assert(Seq::<usize>::empty() + holding_between(ranges, mid, hi, position)
            == holding_between(ranges, mid, hi, position));
    }
}

proof fn lemma_holding_none(ranges: Seq<TimeRange>, lo: int, hi: int, position: LyricTime)
    requires
        forall|i: int| lo <= i < hi ==> !(#[trigger] ranges[i]).holds(position),
    ensures
        holding_between(ranges, lo, hi, position) == Seq::<usize>::empty(),
    decreases hi - lo,
{
    if lo < hi {
        lemma_holding_none(ranges, lo + 1, hi, position);
    }
}

/// What `holding_between` lists: indices in `lo..hi`, ascending, each holding the position,
/// and every such index.
proof fn lemma_holding_members(ranges: Seq<TimeRange>, lo: int, hi: int, position: LyricTime)
    requires
        0 <= lo,
        hi <= ranges.len(),
        hi <= usize::MAX + 1,
    ensures
        forall|a: int|
            0 <= a < holding_between(ranges, lo, hi, position).len() ==> lo <= (
            #[trigger] holding_between(ranges, lo, hi, position)[a]) < hi && ranges[holding_between(
                ranges,
                lo,
                hi,
                position,
            )[a] as int].holds(position),
        forall|a: int, b: int|
            0 <= a < b < holding_between(ranges, lo, hi, position).len() ==> (
            #[trigger] holding_between(ranges, lo, hi, position)[a]) < (
            #[trigger] holding_between(ranges, lo, hi, position)[b]),
        forall|i: int|
            lo <= i < hi && (#[trigger] ranges[i]).holds(position) ==> exists|a: int|
                0 <= a < holding_between(ranges, lo, hi, position).len() && holding_between(
                    ranges,
                    lo,
                    hi,
                    position,
                )[a] == i,
    decreases hi - lo,
{
    if lo < hi {
        lemma_holding_members(ranges, lo + 1, hi, position);
        let rest = holding_between(ranges, lo + 1, hi, position);
        let all = holding_between(ranges, lo, hi, position);
        if ranges[lo].holds(position) {
            assert(all == seq![lo as usize] + rest);
            assert forall|a: int| 0 <= a < all.len() implies lo <= #[trigger] all[a] < hi
                && ranges[all[a] as int].holds(position) by {
                if a > 0 {
                    assert(all[a] == rest[a - 1]);
                }
            }
            assert forall|a: int, b: int| 0 <= a < b < all.len() implies #[trigger] all[a]
                < #[trigger] all[b] by {
                assert(all[b] == rest[b - 1]);
                if a > 0 {
                    assert(all[a] == rest[a - 1]);
                } else {
                    assert(lo + 1 <= rest[b - 1]);
                }
            }
            assert forall|i: int| lo <= i < hi && (#[trigger] ranges[i]).holds(position) implies exists|
                a: int,
            | 0 <= a < all.len() && all[a] == i by {
                if i == lo {
                    assert(all[0] == i);
                } else {
                    let a = choose|a: int| 0 <= a < rest.len() && rest[a] == i;
                    assert(all[a + 1] == i);
                }
            }
        }
    }
}

/// The ranges of the lines of an index.
spec fn ranges_of(entries: Seq<IndexedLine>) -> Seq<TimeRange> {
    Seq::new(entries.len(), |i: int| entries[i].summary.range)
}

/// The timeline lines of an index.
spec fn summaries_of(entries: Seq<IndexedLine>) -> Seq<TimelineLine> {
    Seq::new(entries.len(), |i: int| entries[i].summary)
}

/// Whether the starts of `ranges` ascend.
spec fn starts_ascend(ranges: Seq<TimeRange>) -> bool {
    forall|i: int, j: int| 0 <= i <= j < ranges.len() ==> (#[trigger] ranges[i]).start.0 <= (
    #[trigger] ranges[j]).start.0
}

fn build_tree(entries: &Vec<IndexedLine>, lo: usize, hi: usize) -> (tree: EndTree)
    requires
        lo < hi <= entries@.len(),
    ensures
        tree_covers(tree, ranges_of(entries@), lo as int, hi as int),
    decreases hi - lo,
{
    if hi - lo == 1 {
        EndTree::Leaf(EndBound::from_range(entries[lo].summary.range))
    } else {
        let middle = lo + (hi - lo) / 2;
        let left = build_tree(entries, lo, middle);
        let right = build_tree(entries, middle, hi);
        let bound = left.bound().union(right.bound());
        EndTree::Branch(bound, Box::new(left), Box::new(right))
    }
}

impl EndTree {
    /// A copy of the tree.
    fn duplicate(&self) -> (copy: EndTree)
        ensures
            copy == *self,
        decreases self,
    {
        match self {
            EndTree::Leaf(bound) => EndTree::Leaf(*bound),
            EndTree::Branch(bound, left, right) => EndTree::Branch(
                *bound,
                Box::new(left.duplicate()),
                Box::new(right.duplicate()),
            ),
        }
    }

    fn bound(&self) -> (bound: EndBound)
        ensures
            bound == tree_bound(*self),
    {
        match self {
            EndTree::Leaf(bound) => *bound,
            EndTree::Branch(bound, _, _) => *bound,
        }
    }
}

/// Appends to `output` the indices in `lo..hi` whose range holds `position`, ascending.
fn query_tree(
    tree: &EndTree,
    entries: &Vec<IndexedLine>,
    lo: usize,
    hi: usize,
    position: LyricTime,
    output: &mut Vec<usize>,
)
    requires
        tree_covers(*tree, ranges_of(entries@), lo as int, hi as int),
        starts_ascend(ranges_of(entries@)),
    ensures
        final(output)@ == old(output)@ + holding_between(ranges_of(entries@), lo as int, hi as int, position),
    decreases hi - lo,
{
    proof {
        lemma_covers_bounds(*tree, ranges_of(entries@), lo as int, hi as int);
    }
    if entries[lo].summary.range.start.0 > position.0 || !tree.bound().extends_past(position) {
        proof {
            if ranges_of(entries@)[lo as int].start.0 > position.0 {
                assert forall|i: int| lo <= i < hi implies !(#[trigger] ranges_of(entries@)[i]).holds(
                    position,
                ) by {
                    assert(ranges_of(entries@)[lo as int].start.0 <= ranges_of(entries@)[i].start.0);
                }
            } else {
                lemma_bound_excludes(*tree, ranges_of(entries@), lo as int, hi as int, position);
            }
            lemma_holding_none(ranges_of(entries@), lo as int, hi as int, position);
        }
        assert(output@ =~= old(output)@ + holding_between(ranges_of(entries@), lo as int, hi as int, position));
        return ;
    }
    match tree {
        EndTree::Leaf(_) => {
            if entries[lo].summary.range.contains(position) {
                output.push(lo);
            }
            proof {
                reveal_with_fuel(holding_between, 2);
            }
            assert(output@ =~= old(output)@ + holding_between(
                ranges_of(entries@),
                lo as int,
                hi as int,
                position,
            ));
        },
        EndTree::Branch(_, left, right) => {
            let middle = lo + (hi - lo) / 2;
            proof {
                lemma_holding_split(ranges_of(entries@), lo as int, middle as int, hi as int, position);
            }
            query_tree(left, entries, lo, middle, position, output);
            if entries[middle].summary.range.start.0 <= position.0 {
                query_tree(right, entries, middle, hi, position, output);
            } else {
                proof {
                    assert forall|i: int| middle <= i < hi implies !(#[trigger] ranges_of(entries@)[i]).holds(
                        position,
                    ) by {
                        assert(ranges_of(entries@)[middle as int].start.0 <= ranges_of(entries@)[i].start.0);
                    }
                    lemma_holding_none(ranges_of(entries@), middle as int, hi as int, position);
                }
            }
            assert(output@ =~= old(output)@ + holding_between(
                ranges_of(entries@),
                lo as int,
                hi as int,
                position,
            ));
        },
    }
}

/// Index `a` sorts before index `b`: by start, then by index.
pub open spec fn sorts_before(starts: Seq<LyricTime>, a: int, b: int) -> bool {
    starts[a].0 < starts[b].0 || (starts[a].0 == starts[b].0 && a < b)
}

/// `order` lists every kept index of `starts` once, sorted by start and then by index.
pub open spec fn sorted_order(starts: Seq<LyricTime>, keep: Seq<bool>, order: Seq<usize>) -> bool {
    &&& forall|t: int| 0 <= t < order.len() ==> (#[trigger] order[t]) < starts.len() && keep[order[t] as int]
    &&& forall|s: int, t: int|
        0 <= s < t < order.len() ==> sorts_before(starts, #[trigger] order[s] as int, #[trigger] order[t] as int)
    &&& forall|m: int|
        0 <= m < starts.len() && #[trigger] keep[m] ==> exists|t: int| 0 <= t < order.len() && order[t] == m
}

/// The kept indices of `starts`, sorted by start and then by index.
pub fn sorted_indices(starts: &Vec<LyricTime>, keep: &Vec<bool>) -> (order: Vec<usize>)
    requires
        keep@.len() == starts@.len(),
    ensures
        sorted_order(starts@, keep@, order@),
{
    let mut order: Vec<usize> = Vec::new();
    let mut k: usize = 0;
    while k < starts.len()
        invariant
            k <= starts@.len(),
            keep@.len() == starts@.len(),
            forall|t: int| 0 <= t < order@.len() ==> (#[trigger] order@[t]) < k && keep@[order@[t] as int],
            forall|s: int, t: int|
                0 <= s < t < order@.len() ==> sorts_before(starts@, #[trigger] order@[s] as int, #[trigger] order@[t] as int),
            forall|m: int|
                0 <= m < k && #[trigger] keep@[m] ==> exists|t: int| 0 <= t < order@.len() && order@[t] == m,
        decreases starts.len() - k,
    {
        if keep[k] {
            let start = starts[k];
            let mut place: usize = order.len();
            while place > 0 && starts[order[place - 1]].0 > start.0
                invariant
                    place <= order@.len(),
                    k < starts@.len(),
                    start == starts@[k as int],
                    forall|t: int| 0 <= t < order@.len() ==> (#[trigger] order@[t]) < k,
                    forall|m: int| place <= m < order@.len() ==> starts@[(#[trigger] order@[m]) as int].0 > start.0,
                decreases place,
            {
                place -= 1;
            }
            let ghost before = order@;
            proof {
                if place > 0 {
                    assert forall|m: int| 0 <= m < place implies starts@[(#[trigger] before[m]) as int].0 <= start.0 by {
                        if m < place - 1 {
                            assert(sorts_before(starts@, before[m] as int, before[place - 1] as int));
                        }
                    }
                }
            }
            order.insert(place, k);
            proof {
                assert forall|t: int| 0 <= t < order@.len() implies (#[trigger] order@[t]) < k + 1 && keep@[order@[t] as int] by {
                    if t < place {
                        assert(order@[t] == before[t]);
                    } else if t > place {
                        assert(order@[t] == before[t - 1]);
                    }
                }
                assert forall|s: int, t: int| 0 <= s < t < order@.len() implies sorts_before(
                    starts@,
                    #[trigger] order@[s] as int,
                    #[trigger] order@[t] as int,
                ) by {
                    if t < place {
                        assert(order@[s] == before[s] && order@[t] == before[t]);
                    } else if t == place {
                        assert(order@[s] == before[s]);
                        assert(starts@[before[s] as int].0 <= start.0);
                    } else if s < place {
                        assert(order@[s] == before[s] && order@[t] == before[t - 1]);
                    } else if s == place {
                        assert(order@[t] == before[t - 1]);
                        assert(starts@[before[t - 1] as int].0 > start.0);
                    } else {
                        assert(order@[s] == before[s - 1] && order@[t] == before[t - 1]);
                        assert(sorts_before(starts@, before[s - 1] as int, before[t - 1] as int));
                    }
                }
                assert forall|m: int| 0 <= m < k + 1 && #[trigger] keep@[m] implies exists|t: int|
                    0 <= t < order@.len() && order@[t] == m by {
                    if m == k {
                        assert(order@[place as int] == m);
                    } else {
                        let t = choose|t: int| 0 <= t < before.len() && before[t] == m;
                        if t < place {
                            assert(order@[t] == m);
                        } else {
                            assert(order@[t + 1] == m);
                        }
                    }
                }
            }
        }
        k += 1;
    }
    order
}

/// A segment of a lane, in the lane's start order.
#[derive(Clone, Copy, Debug, PartialEq, Eq, Structural)]
struct IndexedSegment {
    segment_index: usize,
    range: TimeRange,
}

spec fn segment_before(a: IndexedSegment, b: IndexedSegment) -> bool {
    a.range.start.0 < b.range.start.0 || (a.range.start.0 == b.range.start.0 && a.segment_index
        < b.segment_index)
}

/// `order` lists every segment of `segments` once, sorted by start and then by index.
spec fn lane_order(segments: Seq<TimedSegment>, order: Seq<IndexedSegment>) -> bool {
    &&& forall|t: int|
        0 <= t < order.len() ==> (#[trigger] order[t]).segment_index < segments.len()
            && order[t].range == segments[order[t].segment_index as int].range
    &&& forall|s: int, t: int|
        0 <= s < t < order.len() ==> segment_before(#[trigger] order[s], #[trigger] order[t])
    &&& forall|m: int| 0 <= m < segments.len() ==> #[trigger] lists_segment(order, m)
}

/// Some entry of `order` is segment `m`.
spec fn lists_segment(order: Seq<IndexedSegment>, m: int) -> bool {
    exists|t: int| 0 <= t < order.len() && (#[trigger] order[t]).segment_index == m
}

proof fn lemma_lane_order(
    segments: Seq<TimedSegment>,
    starts: Seq<LyricTime>,
    keep: Seq<bool>,
    indices: Seq<usize>,
    order: Seq<IndexedSegment>,
)
    requires
        starts.len() == segments.len(),
        keep.len() == segments.len(),
        forall|m: int| 0 <= m < segments.len() ==> #[trigger] starts[m] == segments[m].range.start,
        forall|m: int| 0 <= m < segments.len() ==> #[trigger] keep[m],
        sorted_order(starts, keep, indices),
        order.len() == indices.len(),
        forall|u: int|
            0 <= u < order.len() ==> (#[trigger] order[u]).segment_index == indices[u]
                && order[u].range == segments[indices[u] as int].range,
    ensures
        lane_order(segments, order),
{
    assert forall|s: int, u: int| 0 <= s < u < order.len() implies segment_before(
        #[trigger] order[s],
        #[trigger] order[u],
    ) by {
        assert(sorts_before(starts, indices[s] as int, indices[u] as int));
    }
    assert forall|m: int| 0 <= m < segments.len() implies #[trigger] lists_segment(order, m) by {
        assert(keep[m]);
        let u = choose|u: int| 0 <= u < indices.len() && indices[u] == m;
        assert(order[u].segment_index == m);
    }
}

/// The segments of a lane sorted by start and then by index.
fn order_lane(segments: &Vec<TimedSegment>) -> (order: Vec<IndexedSegment>)
    ensures
        lane_order(segments@, order@),
{
    let mut starts: Vec<LyricTime> = Vec::new();
    let mut keep: Vec<bool> = Vec::new();
    let mut i: usize = 0;
    while i < segments.len()
        invariant
            i <= segments@.len(),
            starts@.len() == i,
            keep@.len() == i,
            forall|m: int| 0 <= m < i ==> #[trigger] starts@[m] == segments@[m].range.start,
            forall|m: int| 0 <= m < i ==> #[trigger] keep@[m],
        decreases segments.len() - i,
    {
        starts.push(segments[i].range.start);
        keep.push(true);
        i += 1;
    }
    let indices = sorted_indices(&starts, &keep);
    let mut order: Vec<IndexedSegment> = Vec::new();
    let mut t: usize = 0;
    while t < indices.len()
        invariant
            t <= indices@.len(),
            order@.len() == t,
            starts@.len() == segments@.len(),
            keep@.len() == segments@.len(),
            forall|m: int| 0 <= m < segments@.len() ==> #[trigger] starts@[m] == segments@[m].range.start,
            forall|m: int| 0 <= m < segments@.len() ==> #[trigger] keep@[m],
            sorted_order(starts@, keep@, indices@),
            forall|u: int|
                0 <= u < t ==> (#[trigger] order@[u]).segment_index == indices@[u] && order@[u].range
                    == segments@[indices@[u] as int].range,
        decreases indices.len() - t,
    {
        let index = indices[t];
        order.push(IndexedSegment { segment_index: index, range: segments[index].range });
        t += 1;
    }
    proof {
        lemma_lane_order(segments@, starts@, keep@, indices@, order@);
    }
    order
}

fn segment_is_active(range: TimeRange, position: LyricTime) -> (active: bool)
    ensures
        active == segment_active(range, position),
{
    range.contains(position) || (match range.end {
        Some(end) => end.0 == range.start.0 && position.0 == range.start.0,
        None => false,
    })
}

/// The fraction of `range` that has run at `position`, as elapsed time over duration.
fn segment_progress(range: TimeRange, position: LyricTime) -> (fraction: (u64, u64))
    ensures
        fraction.0 == progress_elapsed(range, position),
        fraction.1 == progress_duration(range),
        0 <= fraction.0 <= fraction.1,
        fraction.1 > 0,
{
    match range.end {
        None => (0, 1),
        Some(end) => {
            let duration = end.saturating_sub(range.start).0;
            if duration <= 0 {
                (1, 1)
            } else {
                let elapsed = position.saturating_sub(range.start).0;
                if elapsed < 0 {
                    (0, duration as u64)
                } else if elapsed > duration {
                    (duration as u64, duration as u64)
                } else {
                    (elapsed as u64, duration as u64)
                }
            }
        },
    }
}

/// The first index of `order` whose segment starts after `position`.
fn segments_started_by(order: &Vec<IndexedSegment>, position: LyricTime) -> (upper: usize)
    requires
        forall|s: int, t: int|
            0 <= s < t < order@.len() ==> segment_before(#[trigger] order@[s], #[trigger] order@[t]),
    ensures
        upper <= order@.len(),
        forall|t: int| 0 <= t < upper ==> (#[trigger] order@[t]).range.start.0 <= position.0,
        forall|t: int| upper <= t < order@.len() ==> (#[trigger] order@[t]).range.start.0 > position.0,
{
    let mut lo: usize = 0;
    let mut hi: usize = order.len();
    while lo < hi
        invariant
            lo <= hi <= order@.len(),
            forall|s: int, t: int|
                0 <= s < t < order@.len() ==> segment_before(#[trigger] order@[s], #[trigger] order@[t]),
            forall|t: int| 0 <= t < lo ==> (#[trigger] order@[t]).range.start.0 <= position.0,
            forall|t: int| hi <= t < order@.len() ==> (#[trigger] order@[t]).range.start.0 > position.0,
        decreases hi - lo,
    {
        let middle = lo + (hi - lo) / 2;
        if order[middle].range.start.0 <= position.0 {
            proof {
                assert forall|t: int| 0 <= t < middle + 1 implies (#[trigger] order@[t]).range.start.0
                    <= position.0 by {
                    if t < middle {
                        assert(segment_before(order@[t], order@[middle as int]));
                    }
                }
            }
            lo = middle + 1;
        } else {
            proof {
                assert forall|t: int| middle <= t < order@.len() implies (
                #[trigger] order@[t]).range.start.0 > position.0 by {
                    if t > middle {
                        assert(segment_before(order@[middle as int], order@[t]));
                    }
                }
            }
            hi = middle;
        }
    }
    lo
}

/// The last segment of `order` that is active at `position`.
fn active_segment(order: &Vec<IndexedSegment>, position: LyricTime) -> (found: Option<IndexedSegment>)
    requires
        forall|s: int, t: int|
            0 <= s < t < order@.len() ==> segment_before(#[trigger] order@[s], #[trigger] order@[t]),
    ensures
        found matches Some(segment) ==> exists|j: int|
            0 <= j < order@.len() && order@[j] == segment && segment_active(segment.range, position)
                && forall|m: int|
                j < m < order@.len() ==> !segment_active((#[trigger] order@[m]).range, position),
        found is None ==> forall|m: int|
            0 <= m < order@.len() ==> !segment_active((#[trigger] order@[m]).range, position),
{
    let upper = segments_started_by(order, position);
    let mut i: usize = upper;
    while i > 0
        invariant
            i <= upper <= order@.len(),
            forall|t: int| upper <= t < order@.len() ==> (#[trigger] order@[t]).range.start.0 > position.0,
            forall|m: int| i <= m < order@.len() ==> !segment_active((#[trigger] order@[m]).range, position),
        decreases i,
    {
        i -= 1;
        if segment_is_active(order[i].range, position) {
            return Some(order[i]);
        }
    }
    None
}

/// The segment found in a lane's order is the lane's chosen segment.
proof fn lemma_found_is_chosen(segments: Seq<TimedSegment>, order: Seq<IndexedSegment>, position: LyricTime, j: int)
    requires
        lane_order(segments, order),
        0 <= j < order.len(),
        segment_active(order[j].range, position),
        forall|m: int| j < m < order.len() ==> !segment_active((#[trigger] order[m]).range, position),
    ensures
        chosen_segment(segments, position, order[j].segment_index as int),
{
    let k = order[j].segment_index as int;
    assert forall|i: int| 0 <= i < segments.len() && segment_active((#[trigger] segments[i]).range, position)
        implies segments[i].range.start.0 < segments[k].range.start.0 || (segments[i].range.start.0
        == segments[k].range.start.0 && i <= k) by {
        assert(lists_segment(order, i));
        let t = choose|t: int| 0 <= t < order.len() && (#[trigger] order[t]).segment_index == i;
        if t > j {
            assert(!segment_active(order[t].range, position));
        } else if t < j {
            assert(segment_before(order[t], order[j]));
        }
    }
}

proof fn lemma_none_found(segments: Seq<TimedSegment>, order: Seq<IndexedSegment>, position: LyricTime)
    requires
        lane_order(segments, order),
        forall|m: int| 0 <= m < order.len() ==> !segment_active((#[trigger] order[m]).range, position),
    ensures
        !some_segment_active(segments, position),
{
    assert forall|i: int| 0 <= i < segments.len() implies !segment_active(
        (#[trigger] segments[i]).range,
        position,
    ) by {
        assert(lists_segment(order, i));
        let t = choose|t: int| 0 <= t < order.len() && (#[trigger] order[t]).segment_index == i;
        assert(!segment_active(order[t].range, position));
    }
}

/// A visible line of the timeline, with its lanes' segments in start order.
struct IndexedLine {
    summary: TimelineLine,
    lanes: Vec<Vec<IndexedSegment>>,
}

/// `entry` indexes `line`, the line `line_index` of track `track_index`, placed at
/// `timeline_index`.
spec fn indexes_line(entry: IndexedLine, line: LyricLine, track_index: usize, line_index: usize, timeline_index: usize) -> bool {
    &&& entry.summary == TimelineLine {
        timeline_index,
        track_index,
        line_index,
        id: line.id,
        range: line.range,
    }
    &&& entry.lanes@.len() == line.lanes@.len()
    &&& forall|j: int|
        0 <= j < line.lanes@.len() ==> lane_order(
            (#[trigger] line.lanes@[j]).segments@,
            entry.lanes@[j]@,
        )
}

impl IndexedLine {
    /// A copy of the entry: the same summary and segment orders.
    fn copy(&self) -> (copy: IndexedLine)
        ensures
            copy.summary == self.summary,
            copy.lanes@.len() == self.lanes@.len(),
            forall|j: int| 0 <= j < self.lanes@.len() ==> (#[trigger] copy.lanes@[j])@ == self.lanes@[j]@,
    {
        let mut lanes: Vec<Vec<IndexedSegment>> = Vec::new();
        let mut j: usize = 0;
        while j < self.lanes.len()
            invariant
                j <= self.lanes@.len(),
                lanes@.len() == j,
                forall|q: int| 0 <= q < j ==> (#[trigger] lanes@[q])@ == self.lanes@[q]@,
            decreases self.lanes@.len() - j,
        {
            let mut segments: Vec<IndexedSegment> = Vec::new();
            let mut k: usize = 0;
            while k < self.lanes[j].len()
                invariant
                    j < self.lanes@.len(),
                    k <= self.lanes@[j as int]@.len(),
                    segments@ == self.lanes@[j as int]@.take(k as int),
                decreases self.lanes@[j as int]@.len() - k,
            {
                segments.push(self.lanes[j][k]);
                proof {
                    assert(self.lanes@[j as int]@.take(k + 1) == self.lanes@[j as int]@.take(k as int).push(
                        self.lanes@[j as int]@[k as int],
                    ));
                }
                k += 1;
            }
            proof {
                assert(self.lanes@[j as int]@.take(k as int) == self.lanes@[j as int]@);
            }
            lanes.push(segments);
            j += 1;
        }
        IndexedLine { summary: self.summary, lanes }
    }

    fn new(line: &LyricLine, track_index: usize, line_index: usize, timeline_index: usize) -> (entry: IndexedLine)
        ensures
            indexes_line(entry, *line, track_index, line_index, timeline_index),
    {
        let mut lanes: Vec<Vec<IndexedSegment>> = Vec::new();
        let mut j: usize = 0;
        while j < line.lanes.len()
            invariant
                j <= line.lanes@.len(),
                lanes@.len() == j,
                forall|m: int| 0 <= m < j ==> lane_order(
                    (#[trigger] line.lanes@[m]).segments@,
                    lanes@[m]@,
                ),
            decreases line.lanes.len() - j,
        {
            lanes.push(order_lane(&line.lanes[j].segments));
            j += 1;
        }
        IndexedLine {
            summary: TimelineLine {
                timeline_index,
                track_index,
                line_index,
                id: line.id,
                range: line.range,
            },
            lanes,
        }
    }

    fn active_at(&self, position: LyricTime, Ghost(line): Ghost<LyricLine>) -> (active: ActiveLine)
        requires
            indexes_line(*self, line, self.summary.track_index, self.summary.line_index, self.summary.timeline_index),
        ensures
            active.line == self.summary,
            reports_lanes(line, position, active.active_segments@),
    {
        let mut progress: Vec<SegmentProgress> = Vec::new();
        let mut j: usize = 0;
        while j < self.lanes.len()
            invariant
                j <= self.lanes@.len(),
                indexes_line(*self, line, self.summary.track_index, self.summary.line_index, self.summary.timeline_index),
                reports_chosen(line, position, progress@),
                forall|a: int| 0 <= a < progress@.len() ==> (#[trigger] progress@[a]).lane_index < j,
                forall|m: int|
                    0 <= m < j && some_segment_active(
                        (#[trigger] line.lanes@[m]).segments@,
                        position,
                    ) ==> exists|a: int| 0 <= a < progress@.len() && progress@[a].lane_index == m,
            decreases self.lanes.len() - j,
        {
            proof {
                assert(lane_order(line.lanes@[j as int].segments@, self.lanes@[j as int]@));
            }
            match active_segment(&self.lanes[j], position) {
                Some(segment) => {
                    proof {
                        let order = self.lanes@[j as int]@;
                        let t = choose|t: int|
                            0 <= t < order.len() && order[t] == segment && segment_active(segment.range, position)
                                && forall|m: int|
                                t < m < order.len() ==> !segment_active((#[trigger] order[m]).range, position);
                        lemma_found_is_chosen(line.lanes@[j as int].segments@, order, position, t);
                    }
                    let (elapsed, duration) = segment_progress(segment.range, position);
                    let ghost before = progress@;
                    progress.push(SegmentProgress {
                        lane_index: j,
                        segment_index: segment.segment_index,
                        range: segment.range,
                        elapsed,
                        duration,
                    });
                    proof {
                        assert forall|a: int| 0 <= a < progress@.len() implies (#[trigger] progress@[a]).lane_index < j + 1 by {
                            if a < before.len() {
                                assert(progress@[a] == before[a]);
                            }
                        }
                        assert forall|m: int|
                            0 <= m < j + 1 && some_segment_active((#[trigger] line.lanes@[m]).segments@, position)
                            implies exists|a: int| 0 <= a < progress@.len() && progress@[a].lane_index == m by {
                            if m == j {
                                assert(progress@[before.len() as int].lane_index == m);
                            } else {
                                let a = choose|a: int| 0 <= a < before.len() && before[a].lane_index == m;
                                assert(progress@[a] == before[a]);
                            }
                        }
                        assert forall|a: int, b: int| 0 <= a < b < progress@.len() implies (
                        #[trigger] progress@[a]).lane_index < (#[trigger] progress@[b]).lane_index by {
                            assert(progress@[a] == before[a]);
                            if b < before.len() {
                                assert(progress@[b] == before[b]);
                            }
                        }
                        assert forall|a: int| 0 <= a < progress@.len() implies {
                            let p = #[trigger] progress@[a];
                            let segments = line.lanes@[p.lane_index as int].segments@;
                            &&& p.lane_index < line.lanes@.len()
                            &&& chosen_segment(segments, position, p.segment_index as int)
                            &&& p.range == segments[p.segment_index as int].range
                            &&& p.elapsed == progress_elapsed(p.range, position)
                            &&& p.duration == progress_duration(p.range)
                        } by {
                            if a < before.len() {
                                assert(progress@[a] == before[a]);
                            }
                        }
                    }
                },
                None => {
                    proof {
                        lemma_none_found(line.lanes@[j as int].segments@, self.lanes@[j as int]@, position);
                    }
                },
            }
            j += 1;
        }
        ActiveLine { line: self.summary, active_segments: progress }
    }
}

/// The visible lines of a track sorted by start, with their end-bound tree.
pub struct LineIndex {
    entries: Vec<IndexedLine>,
    tree: Option<EndTree>,
}

impl Clone for LineIndex {
    fn clone(&self) -> (copy: LineIndex)
        ensures
            copy.lines_view() == self.lines_view(),
            forall|lines: Seq<LyricLine>, track_index: usize|
                self.indexes(lines, track_index) ==> #[trigger] copy.indexes(lines, track_index),
    {
        let mut entries: Vec<IndexedLine> = Vec::new();
        let mut t: usize = 0;
        while t < self.entries.len()
            invariant
                t <= self.entries@.len(),
                entries@.len() == t,
                forall|q: int|
                    0 <= q < t ==> {
                        &&& (#[trigger] entries@[q]).summary == self.entries@[q].summary
                        &&& entries@[q].lanes@.len() == self.entries@[q].lanes@.len()
                        &&& forall|j: int|
                            0 <= j < self.entries@[q].lanes@.len() ==> (#[trigger] entries@[q].lanes@[j])@
                                == self.entries@[q].lanes@[j]@
                    },
            decreases self.entries@.len() - t,
        {
            entries.push(self.entries[t].copy());
            t += 1;
        }
        let tree = match &self.tree {
            Some(tree) => Some(copy_tree(tree)),
            None => None,
        };
        let copy = LineIndex { entries, tree };
        proof {
            assert(summaries_of(copy.entries@) =~= summaries_of(self.entries@));
            assert(ranges_of(copy.entries@) =~= ranges_of(self.entries@));
            assert forall|lines: Seq<LyricLine>, track_index: usize|
                self.indexes(lines, track_index) implies #[trigger] copy.indexes(lines, track_index) by {
                assert forall|q: int| 0 <= q < copy.entries@.len() implies indexes_line(
                    #[trigger] copy.entries@[q],
                    lines[copy.entries@[q].summary.line_index as int],
                    track_index,
                    copy.entries@[q].summary.line_index,
                    q as usize,
                ) by {
                    assert(indexes_line(
                        self.entries@[q],
                        lines[self.entries@[q].summary.line_index as int],
                        track_index,
                        self.entries@[q].summary.line_index,
                        q as usize,
                    ));
                }
            }
        }
        copy
    }
}

impl LineIndex {
    /// The lines of the index.
    pub closed spec fn lines_view(self) -> Seq<TimelineLine> {
        summaries_of(self.entries@)
    }

    /// The index covers the visible lines of `lines`, track `track_index`.
    pub closed spec fn indexes(self, lines: Seq<LyricLine>, track_index: usize) -> bool {
        &&& timeline_of(summaries_of(self.entries@), lines, track_index)
        &&& forall|t: int|
            0 <= t < self.entries@.len() ==> indexes_line(
                #[trigger] self.entries@[t],
                lines[self.entries@[t].summary.line_index as int],
                track_index,
                self.entries@[t].summary.line_index,
                t as usize,
            )
        &&& match self.tree {
            None => self.entries@.len() == 0,
            Some(tree) => tree_covers(tree, ranges_of(self.entries@), 0, self.entries@.len() as int),
        }
    }

    /// What an index states of its lines.
    pub proof fn lemma_indexes(self, lines: Seq<LyricLine>, track_index: usize)
        requires
            self.indexes(lines, track_index),
        ensures
            timeline_of(self.lines_view(), lines, track_index),
    {
    }

    /// An index of no line.
    pub fn empty() -> (index: LineIndex)
        ensures
            index.lines_view().len() == 0,
            forall|lines: Seq<LyricLine>, track_index: usize|
                lines.len() == 0 ==> #[trigger] index.indexes(lines, track_index),
    {
        let index = LineIndex { entries: Vec::new(), tree: None };
        proof {
            assert forall|lines: Seq<LyricLine>, track_index: usize| lines.len() == 0 implies #[trigger] index.indexes(lines, track_index) by {
                assert(summaries_of(index.entries@).len() == 0);
            }
        }
        index
    }

    pub fn new(track: &LyricTrack, track_index: usize) -> (index: LineIndex)
        ensures
            index.indexes(track.lines@, track_index),
    {
        let lines = &track.lines;
        let mut starts: Vec<LyricTime> = Vec::new();
        let mut keep: Vec<bool> = Vec::new();
        let mut k: usize = 0;
        while k < lines.len()
            invariant
                k <= lines@.len(),
                starts@.len() == k,
                keep@.len() == k,
                forall|m: int| 0 <= m < k ==> #[trigger] starts@[m] == lines@[m].range.start,
                forall|m: int| 0 <= m < k ==> #[trigger] keep@[m] == lines@[m].visible(),
            decreases lines.len() - k,
        {
            starts.push(lines[k].range.start);
            keep.push(lines[k].has_visible_text());
            k += 1;
        }
        let order = sorted_indices(&starts, &keep);
        let mut entries: Vec<IndexedLine> = Vec::new();
        let mut t: usize = 0;
        while t < order.len()
            invariant
                t <= order@.len(),
                entries@.len() == t,
                starts@.len() == lines@.len(),
                keep@.len() == lines@.len(),
                forall|m: int| 0 <= m < lines@.len() ==> #[trigger] starts@[m] == lines@[m].range.start,
                forall|m: int| 0 <= m < lines@.len() ==> #[trigger] keep@[m] == lines@[m].visible(),
                sorted_order(starts@, keep@, order@),
                forall|u: int|
                    0 <= u < t ==> (#[trigger] entries@[u]).summary.line_index == order@[u] && indexes_line(
                        entries@[u],
                        lines@[order@[u] as int],
                        track_index,
                        order@[u],
                        u as usize,
                    ),
            decreases order.len() - t,
        {
            let line_index = order[t];
            entries.push(IndexedLine::new(&lines[line_index], track_index, line_index, t));
            t += 1;
        }
        let tree = if entries.len() > 0 {
            Some(build_tree(&entries, 0, entries.len()))
        } else {
            None
        };
        let count = entries.len();
        let index = LineIndex { entries, tree };
        proof {
            lemma_index_order(lines@, track_index, starts@, keep@, order@, index.entries@);
        }
        index
    }

    pub fn len(&self) -> (count: usize)
        ensures
            count == self.lines_view().len(),
    {
        self.entries.len()
    }

    pub fn line(&self, index: usize) -> (line: Option<TimelineLine>)
        ensures
            index < self.lines_view().len() ==> line == Some(self.lines_view()[index as int]),
            index >= self.lines_view().len() ==> line is None,
    {
        if index < self.entries.len() {
            Some(self.entries[index].summary)
        } else {
            None
        }
    }

    /// The lines of the index, in order.
    pub fn lines(&self) -> (lines: Vec<TimelineLine>)
        ensures
            lines@ == self.lines_view(),
    {
        let mut lines: Vec<TimelineLine> = Vec::new();
        let mut t: usize = 0;
        while t < self.entries.len()
            invariant
                t <= self.entries@.len(),
                lines@ == summaries_of(self.entries@).take(t as int),
            decreases self.entries.len() - t,
        {
            lines.push(self.entries[t].summary);
            t += 1;
            assert(lines@ =~= summaries_of(self.entries@).take(t as int));
        }
        assert(lines@ =~= summaries_of(self.entries@));
        lines
    }

    /// The number of lines that start at or before `position`.
    pub fn upper_bound(&self, position: LyricTime, Ghost(lines): Ghost<Seq<LyricLine>>, Ghost(track_index): Ghost<usize>) -> (upper: usize)
        requires
            self.indexes(lines, track_index),
        ensures
            upper <= self.lines_view().len(),
            forall|t: int| 0 <= t < upper ==> (#[trigger] self.lines_view()[t]).range.start.0 <= position.0,
            forall|t: int|
                upper <= t < self.lines_view().len() ==> (#[trigger] self.lines_view()[t]).range.start.0
                    > position.0,
    {
        let ghost view = summaries_of(self.entries@);
        let mut lo: usize = 0;
        let mut hi: usize = self.entries.len();
        while lo < hi
            invariant
                lo <= hi <= self.entries@.len(),
                view == summaries_of(self.entries@),
                forall|s: int, t: int|
                    0 <= s < t < view.len() ==> line_sorts_before(#[trigger] view[s], #[trigger] view[t]),
                forall|t: int| 0 <= t < lo ==> (#[trigger] view[t]).range.start.0 <= position.0,
                forall|t: int| hi <= t < view.len() ==> (#[trigger] view[t]).range.start.0 > position.0,
            decreases hi - lo,
        {
            let middle = lo + (hi - lo) / 2;
            if self.entries[middle].summary.range.start.0 <= position.0 {
                proof {
                    assert forall|t: int| 0 <= t < middle + 1 implies (#[trigger] view[t]).range.start.0
                        <= position.0 by {
                        if t < middle {
                            assert(line_sorts_before(view[t], view[middle as int]));
                        }
                    }
                }
                lo = middle + 1;
            } else {
                proof {
                    assert forall|t: int| middle <= t < view.len() implies (
                    #[trigger] view[t]).range.start.0 > position.0 by {
                        if t > middle {
                            assert(line_sorts_before(view[middle as int], view[t]));
                        }
                    }
                }
                hi = middle;
            }
        }
        lo
    }

    /// The indices of the lines that hold `position`, ascending.
    fn active_indices_at(&self, position: LyricTime, Ghost(lines): Ghost<Seq<LyricLine>>, Ghost(track_index): Ghost<usize>) -> (indices: Vec<usize>)
        requires
            self.indexes(lines, track_index),
        ensures
            indices@ == holding_between(ranges_of(self.entries@), 0, self.entries@.len() as int, position),
    {
        let mut indices: Vec<usize> = Vec::new();
        match &self.tree {
            None => {
                assert(indices@ =~= holding_between(ranges_of(self.entries@), 0, 0, position));
            },
            Some(tree) => {
                proof {
                    lemma_sorted_starts(self.entries@);
                }
                query_tree(tree, &self.entries, 0, self.entries.len(), position, &mut indices);
                assert(indices@ =~= holding_between(ranges_of(self.entries@), 0, self.entries@.len() as int, position));
            },
        }
        indices
    }

    /// The lines that hold `position`, in order, with their active segments.
    pub fn active_at(&self, position: LyricTime, Ghost(lines): Ghost<Seq<LyricLine>>, Ghost(track_index): Ghost<usize>) -> (actives: Vec<ActiveLine>)
        requires
            self.indexes(lines, track_index),
        ensures
            reports_active_lines(self.lines_view(), lines, position, actives@),
    {
        let indices = self.active_indices_at(position, Ghost(lines), Ghost(track_index));
        let count = self.entries.len();
        let ghost ranges = ranges_of(self.entries@);
        let ghost view = summaries_of(self.entries@);
        proof {
            lemma_holding_members(ranges, 0, self.entries@.len() as int, position);
        }
        let mut actives: Vec<ActiveLine> = Vec::new();
        let mut a: usize = 0;
        while a < indices.len()
            invariant
                a <= indices@.len(),
                actives@.len() == a,
                self.indexes(lines, track_index),
                ranges == ranges_of(self.entries@),
                view == summaries_of(self.entries@),
                indices@ == holding_between(ranges, 0, self.entries@.len() as int, position),
                forall|b: int|
                    0 <= b < indices@.len() ==> 0 <= (#[trigger] indices@[b]) < self.entries@.len()
                        && ranges[indices@[b] as int].holds(position),
                forall|b: int|
                    0 <= b < a ==> {
                        let active = #[trigger] actives@[b];
                        &&& active.line == view[indices@[b] as int]
                        &&& reports_lanes(lines[view[indices@[b] as int].line_index as int], position, active.active_segments@)
                    },
            decreases indices.len() - a,
        {
            let i = indices[a];
            proof {
                assert(indexes_line(
                    self.entries@[i as int],
                    lines[self.entries@[i as int].summary.line_index as int],
                    track_index,
                    self.entries@[i as int].summary.line_index,
                    i,
                ));
            }
            let active = self.entries[i].active_at(
                position,
                Ghost(lines[self.entries@[i as int].summary.line_index as int]),
            );
            actives.push(active);
            a += 1;
        }
        proof {
            assert forall|b: int| 0 <= b < actives@.len() implies {
                let active = #[trigger] actives@[b];
                let t = active.line.timeline_index as int;
                &&& t < view.len()
                &&& active.line == view[t]
                &&& view[t].range.holds(position)
                &&& reports_lanes(lines[view[t].line_index as int], position, active.active_segments@)
            } by {
                assert(view[indices@[b] as int].timeline_index == indices@[b]);
            }
            assert forall|b: int, c: int| 0 <= b < c < actives@.len() implies (
            #[trigger] actives@[b]).line.timeline_index < (#[trigger] actives@[c]).line.timeline_index by {
                assert(view[indices@[b] as int].timeline_index == indices@[b]);
                assert(view[indices@[c] as int].timeline_index == indices@[c]);
                assert(indices@[b] < indices@[c]);
            }
            assert forall|t: int| 0 <= t < view.len() && (#[trigger] view[t]).range.holds(position) implies exists|b: int|
                0 <= b < actives@.len() && actives@[b].line.timeline_index == t by {
                assert(ranges[t].holds(position));
                let b = choose|b: int| 0 <= b < indices@.len() && indices@[b] == t;
                assert(view[indices@[b] as int].timeline_index == indices@[b]);
                assert(actives@[b].line.timeline_index == t);
            }
        }
        actives
    }

    /// The first and the last line that hold `position`.
    pub fn active_index_bounds(&self, position: LyricTime, Ghost(lines): Ghost<Seq<LyricLine>>, Ghost(track_index): Ghost<usize>) -> (bounds: Option<(usize, usize)>)
        requires
            self.indexes(lines, track_index),
        ensures
            bounds is None ==> forall|t: int|
                0 <= t < self.lines_view().len() ==> !(#[trigger] self.lines_view()[t]).range.holds(position),
            bounds matches Some((first, last)) ==> {
                &&& first <= last < self.lines_view().len()
                &&& self.lines_view()[first as int].range.holds(position)
                &&& self.lines_view()[last as int].range.holds(position)
                &&& forall|t: int|
                    0 <= t < self.lines_view().len() && (#[trigger] self.lines_view()[t]).range.holds(position)
                        ==> first <= t <= last
            },
    {
        let indices = self.active_indices_at(position, Ghost(lines), Ghost(track_index));
        let count = self.entries.len();
        let ghost ranges = ranges_of(self.entries@);
        let ghost view = summaries_of(self.entries@);
        proof {
            lemma_holding_members(ranges, 0, self.entries@.len() as int, position);
        }
        if indices.len() == 0 {
            proof {
                assert forall|t: int| 0 <= t < view.len() implies !(#[trigger] view[t]).range.holds(position) by {
                    if view[t].range.holds(position) {
                        assert(ranges[t].holds(position));
                    }
                }
            }
            None
        } else {
            let first = indices[0];
            let last = indices[indices.len() - 1];
            proof {
                assert forall|t: int| 0 <= t < view.len() && (#[trigger] view[t]).range.holds(position)
                    implies first <= t <= last by {
                    assert(ranges[t].holds(position));
                    let b = choose|b: int| 0 <= b < indices@.len() && indices@[b] == t;
                    if b > 0 {
                        assert(indices@[0] < indices@[b]);
                    }
                    if b < indices@.len() - 1 {
                        assert(indices@[b] < indices@[indices@.len() - 1]);
                    }
                }
                assert(ranges[first as int].holds(position));
                assert(ranges[last as int].holds(position));
                if indices@.len() > 1 {
                    assert(indices@[0] < indices@[indices@.len() - 1]);
                }
            }
            Some((first, last))
        }
    }
}

/// The starts of an index's lines ascend.
proof fn lemma_sorted_starts(entries: Seq<IndexedLine>)
    requires
        forall|s: int, t: int|
            0 <= s < t < entries.len() ==> line_sorts_before(
                #[trigger] summaries_of(entries)[s],
                #[trigger] summaries_of(entries)[t],
            ),
    ensures
        starts_ascend(ranges_of(entries)),
{
    let view = summaries_of(entries);
    assert forall|i: int, j: int| 0 <= i <= j < ranges_of(entries).len() implies (
    #[trigger] ranges_of(entries)[i]).start.0 <= (#[trigger] ranges_of(entries)[j]).start.0 by {
        if i < j {
            assert(line_sorts_before(view[i], view[j]));
        }
    }
}

proof fn lemma_index_order(
    lines: Seq<LyricLine>,
    track_index: usize,
    starts: Seq<LyricTime>,
    keep: Seq<bool>,
    order: Seq<usize>,
    entries: Seq<IndexedLine>,
)
    requires
        starts.len() == lines.len(),
        keep.len() == lines.len(),
        forall|m: int| 0 <= m < lines.len() ==> #[trigger] starts[m] == lines[m].range.start,
        forall|m: int| 0 <= m < lines.len() ==> #[trigger] keep[m] == lines[m].visible(),
        sorted_order(starts, keep, order),
        entries.len() == order.len(),
        entries.len() <= usize::MAX,
        forall|u: int|
            0 <= u < entries.len() ==> (#[trigger] entries[u]).summary.line_index == order[u] && indexes_line(
                entries[u],
                lines[order[u] as int],
                track_index,
                order[u],
                u as usize,
            ),
    ensures
        timeline_of(summaries_of(entries), lines, track_index),
{
    let view = summaries_of(entries);
    assert forall|t: int| 0 <= t < view.len() implies {
        let line = #[trigger] view[t];
        &&& line.timeline_index == t
        &&& line.track_index == track_index
        &&& line.line_index < lines.len()
        &&& lines[line.line_index as int].visible()
        &&& line.id == lines[line.line_index as int].id
        &&& line.range == lines[line.line_index as int].range
    } by {
        assert(entries[t].summary.line_index == order[t]);
        assert(keep[order[t] as int]);
    }
    assert forall|s: int, t: int| 0 <= s < t < view.len() implies line_sorts_before(
        #[trigger] view[s],
        #[trigger] view[t],
    ) by {
        assert(entries[s].summary.line_index == order[s]);
        assert(entries[t].summary.line_index == order[t]);
        assert(sorts_before(starts, order[s] as int, order[t] as int));
    }
    assert forall|m: int| 0 <= m < lines.len() && lines[m].visible() implies #[trigger] lists_line(view, m) by {
        assert(keep[m]);
        let t = choose|t: int| 0 <= t < order.len() && order[t] == m;
        assert(entries[t].summary.line_index == order[t]);
        assert(view[t].line_index == m);
    }
}

} // verus!
