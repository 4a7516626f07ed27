//! The part of highlight geometry that does not depend on shaped text: which byte ranges
//! the shaped clusters cover, and which run of clusters a timed segment lights up.

use std::ops::Range;

use vstd::prelude::*;

verus! {

/// Whether two byte ranges share a byte.
pub open spec fn overlapping(left: Range<usize>, right: Range<usize>) -> bool {
    left.start < right.end && right.start < left.end
}

/// Whether two byte ranges share a byte.
pub fn ranges_overlap(left: &Range<usize>, right: &Range<usize>) -> (overlap: bool)
    ensures
        overlap == overlapping(*left, *right),
{
    left.start < right.end && right.start < left.end
}

/// What a timed segment lights up: a run of clusters (by index), the whole layout when
/// there are no clusters to follow, or nothing.
#[derive(Debug)]
pub enum SegmentMask {
    Clusters(Range<usize>),
    Bounds,
    Empty,
}

/// Whether no cluster among `clusters[from..to]` overlaps `range`.
pub open spec fn none_overlap(clusters: Seq<Range<usize>>, range: Range<usize>, from: int, to: int) -> bool {
    forall|i: int| from <= i < to ==> !overlapping(#[trigger] clusters[i], range)
}

/// The mask of a segment: nothing for an empty segment; the layout bounds (when the layout
/// has any) where no cluster was shaped; otherwise the clusters from the first to the last
/// one that overlaps the segment, or nothing when none does.
pub open spec fn is_mask_for(
    mask: SegmentMask,
    range: Range<usize>,
    clusters: Seq<Range<usize>>,
    has_bounds: bool,
) -> bool {
    if range.start >= range.end {
        mask == SegmentMask::Empty
    } else if clusters.len() == 0 {
        mask == (if has_bounds { SegmentMask::Bounds } else { SegmentMask::Empty })
    } else {
        match mask {
            SegmentMask::Clusters(run) => {
                &&& run.start < run.end <= clusters.len()
                &&& overlapping(clusters[run.start as int], range)
                &&& overlapping(clusters[run.end - 1], range)
                &&& none_overlap(clusters, range, 0, run.start as int)
                &&& none_overlap(clusters, range, run.end as int, clusters.len() as int)
            },
            SegmentMask::Bounds => false,
            SegmentMask::Empty => none_overlap(clusters, range, 0, clusters.len() as int),
        }
    }
}

/// The run of clusters that the segment `range` lights up; `has_bounds` tells whether the
/// layout has any extent at all.
pub fn segment_mask(range: &Range<usize>, clusters: &Vec<Range<usize>>, has_bounds: bool) -> (mask:
    SegmentMask)
    ensures
        is_mask_for(mask, *range, clusters@, has_bounds),
{
    if range.start >= range.end {
        return SegmentMask::Empty;
    }
    if clusters.len() == 0 {
        return if has_bounds { SegmentMask::Bounds } else { SegmentMask::Empty };
    }
    let mut first: usize = 0;
    while first < clusters.len()
        invariant
            first <= clusters.len(),
            none_overlap(clusters@, *range, 0, first as int),
        ensures
            first <= clusters.len(),
            none_overlap(clusters@, *range, 0, first as int),
            first < clusters.len() ==> overlapping(clusters@[first as int], *range),
        decreases clusters.len() - first,
    {
        if ranges_overlap(&clusters[first], range) {
            break;
        }
        first = first + 1;
    }
    if first == clusters.len() {
        return SegmentMask::Empty;
    }
    let mut end: usize = clusters.len();
    while end > first + 1
        invariant
            first < end <= clusters.len(),
            overlapping(clusters@[first as int], *range),
            none_overlap(clusters@, *range, end as int, clusters.len() as int),
        ensures
            first < end <= clusters.len(),
            overlapping(clusters@[end - 1], *range),
            none_overlap(clusters@, *range, end as int, clusters.len() as int),
        decreases end,
    {
        if ranges_overlap(&clusters[end - 1], range) {
            break;
        }
        end = end - 1;
    }
    SegmentMask::Clusters(first..end)
}

/// Where the cluster that starts at `starts[index]` ends: at the next cluster's start (or at
/// the end of the text for the last one), never before its own start nor past the text.
pub open spec fn cluster_end(starts: Seq<usize>, text_len: usize, index: int) -> int {
    let next: int = if index + 1 < starts.len() { starts[index + 1] as int } else { text_len as int };
    let at_least_start: int = if next < starts[index] { starts[index] as int } else { next };
    if at_least_start > text_len { text_len as int } else { at_least_start }
}

/// The byte range of each shaped cluster, given the sorted, distinct byte offsets where
/// clusters start: a cluster runs from its start to the next one's; an empty one is dropped
/// (`None`).
pub fn cluster_ranges(starts: &Vec<usize>, text_len: usize) -> (ranges: Vec<Option<Range<usize>>>)
    ensures
        ranges.len() == starts.len(),
        forall|i: int|
            0 <= i < starts.len() ==> (#[trigger] ranges@[i] is Some <==> starts@[i] < cluster_end(
                starts@,
                text_len,
                i,
            )),
        forall|i: int|
            0 <= i < starts.len() && #[trigger] ranges@[i] is Some ==> ranges@[i]->0.start
                == starts@[i] && ranges@[i]->0.end == cluster_end(starts@, text_len, i),
{
    let mut ranges: Vec<Option<Range<usize>>> = Vec::new();
    let mut index: usize = 0;
    while index < starts.len()
        invariant
            index <= starts.len(),
            ranges.len() == index,
            forall|i: int|
                0 <= i < index ==> (#[trigger] ranges@[i] is Some <==> starts@[i] < cluster_end(
                    starts@,
                    text_len,
                    i,
                )),
            forall|i: int|
                0 <= i < index && #[trigger] ranges@[i] is Some ==> ranges@[i]->0.start
                    == starts@[i] && ranges@[i]->0.end == cluster_end(starts@, text_len, i),
        decreases starts.len() - index,
    {
        let start = starts[index];
        let next: usize = if index + 1 < starts.len() { starts[index + 1] } else { text_len };
        let at_least_start: usize = if next < start { start } else { next };
        let end: usize = if at_least_start > text_len { text_len } else { at_least_start };
        if start < end {
            ranges.push(Some(start..end));
        } else {
            ranges.push(None);
        }
        index = index + 1;
    }
    ranges
}

} // verus!
