//! Merging sidecar lyric documents (other languages, romanizations, annotations) into a
//! primary document: matching their lines, placing their lanes, and reporting what could
//! not be placed cleanly.

use vstd::prelude::*;
use vstd::string::StringExecFns;

use crate::diagnostics::{Diagnostic, DiagnosticCode, DiagnosticSeverity};
use crate::model::{
    copy_text, lane_times_only, opt_text, LineId, LyricLane, LyricLine, LyricTrack, LyricsDocument,
    LyricsMetadata, same_text,
};
use crate::time::{
    abs_int, decimal_text, fits_i64, max_time, min_time, push_decimal_text, saturate_i64,
    LyricTime, TimeRange,
};

verus! {

/// How the lines of a sidecar document find the primary lines they belong to.
#[derive(Clone, Copy, Debug, PartialEq, Eq, Structural)]
pub enum MatchStrategy {
    /// A sidecar line joins the one primary line that starts at the same time.
    ExactTimestamp,
    /// A sidecar line joins the closest primary line whose start lies within `tolerance`.
    TimestampTolerance { tolerance: LyricTime },
    /// A sidecar line joins the primary line with the same id.
    ExplicitLineId,
    /// The n-th sidecar line joins the n-th primary line, its timing moved to that line.
    Ordered,
    /// Sidecar tracks are kept as tracks of their own.
    KeepSeparate,
}

pub type MergeStrategy = MatchStrategy;

pub type SidecarMatchStrategy = MatchStrategy;

pub type VariantMatchStrategy = MatchStrategy;

/// A merged document together with the warnings raised while merging.
#[derive(Clone, Debug)]
pub struct AssemblyReport {
    pub document: LyricsDocument,
    pub diagnostics: Vec<Diagnostic>,
}

impl AssemblyReport {
    pub fn into_document(self) -> (document: LyricsDocument)
        ensures
            document == self.document,
    {
        self.document
    }
}

/// Every diagnostic is a warning.
pub open spec fn all_warnings(diagnostics: Seq<Diagnostic>) -> bool {
    forall|k: int| 0 <= k < diagnostics.len() ==> (#[trigger] diagnostics[k]).severity
        == DiagnosticSeverity::Warning
}

/// `after` is `before` with diagnostics appended, each of them a warning.
pub open spec fn warnings_added(before: Seq<Diagnostic>, after: Seq<Diagnostic>) -> bool {
    &&& before.len() <= after.len()
    &&& after.subrange(0, before.len() as int) == before
    &&& forall|k: int| before.len() <= k < after.len() ==> (#[trigger] after[k]).severity
        == DiagnosticSeverity::Warning
}

/// `after` is `before` with `count` warnings of kind `code` appended.
pub open spec fn coded_warnings_added(
    before: Seq<Diagnostic>,
    after: Seq<Diagnostic>,
    code: DiagnosticCode,
    count: int,
) -> bool {
    &&& warnings_added(before, after)
    &&& after.len() == before.len() + count
    &&& forall|k: int| before.len() <= k < after.len() ==> (#[trigger] after[k]).code == code
}

/// The later of two optional times; a missing one gives way to the other.
pub open spec fn later_of(left: Option<LyricTime>, right: Option<LyricTime>) -> Option<LyricTime> {
    match (left, right) {
        (Some(l), Some(r)) => Some(max_time(l, r)),
        (Some(l), None) => Some(l),
        (None, r) => r,
    }
}

fn later_time(left: Option<LyricTime>, right: Option<LyricTime>) -> (later: Option<LyricTime>)
    ensures
        later == later_of(left, right),
{
    match (left, right) {
        (Some(l), Some(r)) => Some(l.later(r)),
        (Some(l), None) => Some(l),
        (None, r) => r,
    }
}

/// The primary's text when it has one, else the sidecar's.
pub open spec fn first_text(primary: Option<String>, sidecar: Option<String>) -> Option<String> {
    if primary is Some {
        primary
    } else {
        sidecar
    }
}

/// `after` is the metadata `before` completed from `sidecar`: each missing field taken from
/// the sidecar, the later length, the primary's offset, and the sidecar's other tags
/// appended to the primary's.
pub open spec fn metadata_merged(
    before: LyricsMetadata,
    sidecar: LyricsMetadata,
    after: LyricsMetadata,
) -> bool {
    &&& after.artist == first_text(before.artist, sidecar.artist)
    &&& after.album == first_text(before.album, sidecar.album)
    &&& after.title == first_text(before.title, sidecar.title)
    &&& after.author == first_text(before.author, sidecar.author)
    &&& after.creator == first_text(before.creator, sidecar.creator)
    &&& after.editor == first_text(before.editor, sidecar.editor)
    &&& after.version == first_text(before.version, sidecar.version)
    &&& after.length == later_of(before.length, sidecar.length)
    &&& after.offset == before.offset
    &&& after.unknown@ == before.unknown@ + sidecar.unknown@
}

fn fill_text(primary: &mut Option<String>, sidecar: &Option<String>)
    ensures
        *final(primary) == first_text(*old(primary), *sidecar),
{
    if primary.is_none() {
        *primary = copy_text(sidecar);
    }
}

fn merge_metadata(primary: &mut LyricsMetadata, sidecar: &LyricsMetadata)
    ensures
        metadata_merged(*old(primary), *sidecar, *final(primary)),
{
    fill_text(&mut primary.artist, &sidecar.artist);
    fill_text(&mut primary.album, &sidecar.album);
    fill_text(&mut primary.title, &sidecar.title);
    fill_text(&mut primary.author, &sidecar.author);
    fill_text(&mut primary.creator, &sidecar.creator);
    fill_text(&mut primary.editor, &sidecar.editor);
    fill_text(&mut primary.version, &sidecar.version);
    primary.length = later_time(primary.length, sidecar.length);
    let ghost filled = *primary;
    let mut k: usize = 0;
    while k < sidecar.unknown.len()
        invariant
            k <= sidecar.unknown@.len(),
            primary.artist == filled.artist,
            primary.album == filled.album,
            primary.title == filled.title,
            primary.author == filled.author,
            primary.creator == filled.creator,
            primary.editor == filled.editor,
            primary.version == filled.version,
            primary.length == filled.length,
            primary.offset == filled.offset,
            primary.unknown@ == old(primary).unknown@ + sidecar.unknown@.subrange(0, k as int),
        decreases sidecar.unknown@.len() - k,
    {
        primary.unknown.push(sidecar.unknown[k].clone());
        proof {
            assert(sidecar.unknown@.subrange(0, k + 1) == sidecar.unknown@.subrange(0, k as int).push(
                sidecar.unknown@[k as int],
            ));
        }
        k += 1;
    }
    proof {
        assert(sidecar.unknown@.subrange(0, sidecar.unknown@.len() as int) == sidecar.unknown@);
    }
}

fn warning(code: DiagnosticCode, message: String) -> (diagnostic: Diagnostic)
    ensures
        diagnostic.severity == DiagnosticSeverity::Warning,
        diagnostic.code == code,
        diagnostic.message == message,
        diagnostic.span is None,
{
    Diagnostic { severity: DiagnosticSeverity::Warning, code, message, span: None }
}

/// `prefix`, the decimal digits of `number`, then `suffix`.
fn numbered_message(prefix: &str, number: u64, suffix: &str) -> (message: String)
    ensures
        message@ == prefix@ + decimal_text(number as nat) + suffix@,
{
    let mut message = String::from_str(prefix);
    push_decimal_text(&mut message, number);
    message.append(suffix);
    message
}

/// How a sidecar line fared against the lines of the primary track.
#[derive(Clone, Copy, Debug, PartialEq, Eq, Structural)]
pub enum MatchResult {
    /// It joins line `index`; `fuzzy_distance` is the timestamp distance when a tolerance
    /// match was not exact.
    Found { index: usize, fuzzy_distance: Option<u64> },
    /// More than one line is equally close.
    Ambiguous,
    /// No line qualifies.
    Missing,
}

/// What matching reads of a line: its start and its id.
pub open spec fn key_of(line: LyricLine) -> (LyricTime, LineId) {
    (line.range.start, line.id)
}

pub open spec fn line_keys(lines: Seq<LyricLine>) -> Seq<(LyricTime, LineId)> {
    Seq::new(lines.len(), |i: int| key_of(lines[i]))
}

/// The largest accepted timestamp distance: the tolerance, taken as zero when negative.
pub open spec fn tolerance_bound(tolerance: LyricTime) -> int {
    if tolerance.0 < 0 {
        0
    } else {
        tolerance.0 as int
    }
}

/// How far a primary line with key `key` is from the sidecar line, when it is a candidate
/// under `strategy` at all.
pub open spec fn candidate_distance(
    key: (LyricTime, LineId),
    sidecar: (LyricTime, LineId),
    strategy: MatchStrategy,
) -> Option<int> {
    match strategy {
        MatchStrategy::ExactTimestamp => if key.0 == sidecar.0 {
            Some(0)
        } else {
            None
        },
        MatchStrategy::TimestampTolerance { tolerance } => {
            let distance = abs_int(key.0.micros() - sidecar.0.micros());
            if distance <= tolerance_bound(tolerance) {
                Some(distance)
            } else {
                None
            }
        },
        MatchStrategy::ExplicitLineId => if key.1 == sidecar.1 {
            Some(0)
        } else {
            None
        },
        _ => None,
    }
}

/// Line `i` is a candidate and no candidate is closer.
pub open spec fn is_closest(
    keys: Seq<(LyricTime, LineId)>,
    sidecar: (LyricTime, LineId),
    strategy: MatchStrategy,
    i: int,
) -> bool {
    &&& 0 <= i < keys.len()
    &&& candidate_distance(keys[i], sidecar, strategy) matches Some(d) && forall|j: int|
        0 <= j < keys.len() ==> (#[trigger] candidate_distance(keys[j], sidecar, strategy) matches Some(
            e,
        ) ==> d <= e)
}

/// The outcome of matching a sidecar line with key `sidecar`, the `ordered_index`-th of its
/// track, against primary lines with keys `keys`.
pub open spec fn match_for(
    keys: Seq<(LyricTime, LineId)>,
    sidecar: (LyricTime, LineId),
    strategy: MatchStrategy,
    ordered_index: int,
) -> MatchResult {
    match strategy {
        MatchStrategy::Ordered => if 0 <= ordered_index < keys.len() {
            MatchResult::Found { index: ordered_index as usize, fuzzy_distance: None }
        } else {
            MatchResult::Missing
        },
        MatchStrategy::KeepSeparate => MatchResult::Missing,
        _ => if !(exists|i: int| is_closest(keys, sidecar, strategy, i)) {
            MatchResult::Missing
        } else if exists|i: int, j: int|
            i != j && is_closest(keys, sidecar, strategy, i) && is_closest(keys, sidecar, strategy, j) {
            MatchResult::Ambiguous
        } else {
            let i = choose|i: int| is_closest(keys, sidecar, strategy, i);
            let d = candidate_distance(keys[i], sidecar, strategy)->0;
            MatchResult::Found {
                index: i as usize,
                fuzzy_distance: if strategy is TimestampTolerance && d != 0 {
                    Some(d as u64)
                } else {
                    None
                },
            }
        },
    }
}

/// How far the primary line `line` is from `sidecar` under `strategy`, when it is a
/// candidate.
fn distance_of(line: &LyricLine, sidecar: &LyricLine, strategy: MatchStrategy) -> (distance:
    Option<u64>)
    ensures
        match candidate_distance(key_of(*line), key_of(*sidecar), strategy) {
            Some(d) => distance == Some(d as u64),
            None => distance is None,
        },
{
    match strategy {
        MatchStrategy::ExactTimestamp => if line.range.start.0 == sidecar.range.start.0 {
            Some(0)
        } else {
            None
        },
        MatchStrategy::TimestampTolerance { tolerance } => {
            let bound: u64 = if tolerance.0 < 0 {
                0
            } else {
                tolerance.0 as u64
            };
            let distance = line.range.start.abs_diff(sidecar.range.start);
            if distance <= bound {
                Some(distance)
            } else {
                None
            }
        },
        MatchStrategy::ExplicitLineId => if line.id.0 == sidecar.id.0 {
            Some(0)
        } else {
            None
        },
        _ => None,
    }
}

/// Candidate `k` is no farther than any other candidate.
pub open spec fn closest_candidate(candidates: Seq<(usize, u64)>, k: int) -> bool {
    &&& 0 <= k < candidates.len()
    &&& forall|j: int| 0 <= j < candidates.len() ==> candidates[k].1 <= (#[trigger] candidates[j]).1
}

/// The outcome among `candidates`, pairs of a line index and its distance: missing when
/// there is none, ambiguous when two are equally closest, else the closest, with its
/// distance reported when `report_fuzzy` and not zero.
pub open spec fn unique_outcome(candidates: Seq<(usize, u64)>, report_fuzzy: bool) -> MatchResult {
    if candidates.len() == 0 {
        MatchResult::Missing
    } else if exists|a: int, b: int|
        a != b && closest_candidate(candidates, a) && closest_candidate(candidates, b) {
        MatchResult::Ambiguous
    } else {
        let k = choose|k: int| closest_candidate(candidates, k);
        MatchResult::Found {
            index: candidates[k].0,
            fuzzy_distance: if report_fuzzy && candidates[k].1 != 0 {
                Some(candidates[k].1)
            } else {
                None
            },
        }
    }
}

proof fn lemma_closest_exists(candidates: Seq<(usize, u64)>)
    requires
        candidates.len() > 0,
    ensures
        exists|k: int| closest_candidate(candidates, k),
    decreases candidates.len(),
{
    if candidates.len() == 1 {
        assert(closest_candidate(candidates, 0));
    } else {
        let rest = candidates.drop_last();
        lemma_closest_exists(rest);
        let k = choose|k: int| closest_candidate(rest, k);
        let last = candidates.len() - 1;
        if candidates[last].1 < rest[k].1 {
            assert forall|j: int| 0 <= j < candidates.len() implies candidates[last].1 <= (#[trigger] candidates[j]).1 by {
                if j < last {
                    assert(rest[j] == candidates[j]);
                }
            }
            assert(closest_candidate(candidates, last));
        } else {
            assert forall|j: int| 0 <= j < candidates.len() implies candidates[k].1 <= (#[trigger] candidates[j]).1 by {
                if j < last {
                    assert(rest[j] == candidates[j]);
                }
            }
            assert(closest_candidate(candidates, k));
        }
    }
}

/// The closest of `candidates`, unless none or more than one is closest.
fn unique_match(candidates: &Vec<(usize, u64)>, report_fuzzy: bool) -> (result: MatchResult)
    ensures
        result == unique_outcome(candidates@, report_fuzzy),
{
    let ghost c = candidates@;
    let mut best: Option<(usize, u64)> = None;
    let mut position: usize = 0;
    let mut tied = false;
    let mut k: usize = 0;
    while k < candidates.len()
        invariant
            k <= c.len(),
            c == candidates@,
            best is None <==> k == 0,
            best matches Some((index, distance)) ==> {
                &&& position < k
                &&& c[position as int] == (index, distance)
                &&& forall|j: int| 0 <= j < k ==> distance <= (#[trigger] c[j]).1
                &&& tied <==> exists|j: int| 0 <= j < k && j != position && (#[trigger] c[j]).1 == distance
            },
        decreases c.len() - k,
    {
        let candidate = candidates[k];
        match best {
            None => {
                best = Some(candidate);
                position = k;
                tied = false;
            },
            Some((_, best_distance)) => {
                if candidate.1 < best_distance {
                    best = Some(candidate);
                    position = k;
                    tied = false;
                } else if candidate.1 == best_distance {
                    tied = true;
                }
            },
        }
        k += 1;
    }
    match best {
        None => MatchResult::Missing,
        Some((index, distance)) => {
            proof {
                assert(closest_candidate(c, position as int));
            }
            if tied {
                proof {
                    let j = choose|j: int| 0 <= j < k && j != position && (#[trigger] c[j]).1 == distance;
                    assert(closest_candidate(c, j));
                }
                MatchResult::Ambiguous
            } else {
                proof {
                    assert forall|a: int, b: int|
                        a != b && closest_candidate(c, a) implies !closest_candidate(c, b) by {
                        if closest_candidate(c, b) {
                            assert(c[a].1 == distance && c[b].1 == distance);
                        }
                    }
                    let chosen = choose|x: int| closest_candidate(c, x);
                    assert(closest_candidate(c, chosen));
                    if chosen != position {
                        assert(c[chosen].1 == distance);
                    }
                }
                MatchResult::Found {
                    index,
                    fuzzy_distance: if report_fuzzy && distance != 0 {
                        Some(distance)
                    } else {
                        None
                    },
                }
            }
        },
    }
}

/// The candidates among the first `n` primary lines: each line that qualifies, with its
/// distance, in line order.
pub open spec fn candidate_list(
    keys: Seq<(LyricTime, LineId)>,
    sidecar: (LyricTime, LineId),
    strategy: MatchStrategy,
    n: int,
) -> Seq<(usize, u64)>
    decreases n,
{
    if n <= 0 || n > keys.len() {
        Seq::empty()
    } else {
        let earlier = candidate_list(keys, sidecar, strategy, n - 1);
        match candidate_distance(keys[n - 1], sidecar, strategy) {
            Some(d) => earlier.push(((n - 1) as usize, d as u64)),
            None => earlier,
        }
    }
}

/// A candidate distance fits in a `u64`.
proof fn lemma_distance_fits(key: (LyricTime, LineId), sidecar: (LyricTime, LineId), strategy: MatchStrategy)
    ensures
        candidate_distance(key, sidecar, strategy) matches Some(d) ==> 0 <= d <= u64::MAX,
{
}

/// The candidate list names each qualifying line once, in increasing order, with its
/// distance.
proof fn lemma_candidate_list(keys: Seq<(LyricTime, LineId)>, sidecar: (LyricTime, LineId), strategy: MatchStrategy, n: int)
    requires
        0 <= n <= keys.len(),
        keys.len() <= usize::MAX,
    ensures
        forall|k: int|
            0 <= k < candidate_list(keys, sidecar, strategy, n).len() ==> {
                let c = #[trigger] candidate_list(keys, sidecar, strategy, n)[k];
                &&& c.0 < n
                &&& candidate_distance(keys[c.0 as int], sidecar, strategy) == Some(c.1 as int)
            },
        forall|a: int, b: int|
            0 <= a < b < candidate_list(keys, sidecar, strategy, n).len() ==> (#[trigger] candidate_list(
                keys,
                sidecar,
                strategy,
                n,
            )[a]).0 < (#[trigger] candidate_list(keys, sidecar, strategy, n)[b]).0,
        forall|i: int|
            0 <= i < n && (#[trigger] candidate_distance(keys[i], sidecar, strategy)) is Some ==> exists|k: int|
                0 <= k < candidate_list(keys, sidecar, strategy, n).len() && candidate_list(keys, sidecar, strategy, n)[k].0
                    == i,
    decreases n,
{
    if n > 0 {
        lemma_candidate_list(keys, sidecar, strategy, n - 1);
        lemma_distance_fits(keys[n - 1], sidecar, strategy);
        let earlier = candidate_list(keys, sidecar, strategy, n - 1);
        let list = candidate_list(keys, sidecar, strategy, n);
        assert forall|i: int|
            0 <= i < n && (#[trigger] candidate_distance(keys[i], sidecar, strategy)) is Some implies exists|k: int|
                0 <= k < list.len() && list[k].0 == i by {
            if i < n - 1 {
                let k = choose|k: int| 0 <= k < earlier.len() && earlier[k].0 == i;
                assert(list[k] == earlier[k]);
            } else {
                assert(list[list.len() - 1].0 == i);
            }
        }
        assert forall|k: int| 0 <= k < list.len() implies {
            let c = #[trigger] list[k];
            &&& c.0 < n
            &&& candidate_distance(keys[c.0 as int], sidecar, strategy) == Some(c.1 as int)
        } by {
            if k < earlier.len() {
                assert(list[k] == earlier[k]);
            }
        }
        assert forall|a: int, b: int| 0 <= a < b < list.len() implies (#[trigger] list[a]).0 < (#[trigger] list[b]).0 by {
            if b < earlier.len() {
                assert(list[a] == earlier[a]);
                assert(list[b] == earlier[b]);
            } else {
                assert(list[a] == earlier[a]);
            }
        }
    }
}

/// Picking the unique closest candidate from the list is matching against the lines.
proof fn lemma_unique_outcome_matches(
    keys: Seq<(LyricTime, LineId)>,
    sidecar: (LyricTime, LineId),
    strategy: MatchStrategy,
    ordered_index: int,
)
    requires
        keys.len() <= usize::MAX,
        !(strategy is Ordered),
        !(strategy is KeepSeparate),
    ensures
        unique_outcome(candidate_list(keys, sidecar, strategy, keys.len() as int), strategy is TimestampTolerance)
            == match_for(keys, sidecar, strategy, ordered_index),
{
    let n = keys.len() as int;
    let list = candidate_list(keys, sidecar, strategy, n);
    lemma_candidate_list(keys, sidecar, strategy, n);
    assert forall|k: int| closest_candidate(list, k) implies is_closest(keys, sidecar, strategy, list[k].0 as int) by {
        let i = list[k].0 as int;
        assert(candidate_distance(keys[i], sidecar, strategy) == Some(list[k].1 as int));
        assert forall|j: int| 0 <= j < keys.len() implies (#[trigger] candidate_distance(keys[j], sidecar, strategy) matches Some(
            e,
        ) ==> list[k].1 <= e) by {
            if candidate_distance(keys[j], sidecar, strategy) is Some {
                let q = choose|q: int| 0 <= q < list.len() && list[q].0 == j;
                assert(candidate_distance(keys[list[q].0 as int], sidecar, strategy) == Some(list[q].1 as int));
                assert(list[k].1 <= list[q].1);
            }
        }
    }
    assert forall|i: int| is_closest(keys, sidecar, strategy, i) implies exists|k: int|
        closest_candidate(list, k) && list[k].0 == i by {
        let k = choose|k: int| 0 <= k < list.len() && list[k].0 == i;
        assert(candidate_distance(keys[i], sidecar, strategy) == Some(list[k].1 as int));
        assert forall|j: int| 0 <= j < list.len() implies list[k].1 <= (#[trigger] list[j]).1 by {
            assert(candidate_distance(keys[list[j].0 as int], sidecar, strategy) == Some(list[j].1 as int));
        }
        assert(closest_candidate(list, k));
    }
    if list.len() == 0 {
        assert(!(exists|i: int| is_closest(keys, sidecar, strategy, i))) by {
            if exists|i: int| is_closest(keys, sidecar, strategy, i) {
                let i = choose|i: int| is_closest(keys, sidecar, strategy, i);
                assert(exists|k: int| closest_candidate(list, k) && list[k].0 == i);
            }
        }
    } else {
        lemma_closest_exists(list);
        let k0 = choose|k: int| closest_candidate(list, k);
        assert(is_closest(keys, sidecar, strategy, list[k0].0 as int));
        if exists|a: int, b: int| a != b && closest_candidate(list, a) && closest_candidate(list, b) {
            let (a, b) = choose|a: int, b: int| a != b && closest_candidate(list, a) && closest_candidate(list, b);
            assert(is_closest(keys, sidecar, strategy, list[a].0 as int));
            assert(is_closest(keys, sidecar, strategy, list[b].0 as int));
            if a < b {
                assert(list[a].0 < list[b].0);
            } else {
                assert(list[b].0 < list[a].0);
            }
        } else {
            assert(!(exists|i: int, j: int|
                i != j && is_closest(keys, sidecar, strategy, i) && is_closest(keys, sidecar, strategy, j))) by {
                if exists|i: int, j: int|
                    i != j && is_closest(keys, sidecar, strategy, i) && is_closest(keys, sidecar, strategy, j) {
                    let (i, j) = choose|i: int, j: int|
                        i != j && is_closest(keys, sidecar, strategy, i) && is_closest(keys, sidecar, strategy, j);
                    let ki = choose|k: int| closest_candidate(list, k) && list[k].0 == i;
                    let kj = choose|k: int| closest_candidate(list, k) && list[k].0 == j;
                    assert(ki != kj);
                }
            }
            let i = choose|i: int| is_closest(keys, sidecar, strategy, i);
            let ki = choose|k: int| closest_candidate(list, k) && list[k].0 == i;
            let chosen = choose|k: int| closest_candidate(list, k);
            assert(ki == chosen);
            assert(candidate_distance(keys[i], sidecar, strategy) == Some(list[ki].1 as int));
        }
    }
}

/// Matches `sidecar`, the `ordered_index`-th line of its track, against `target`.
pub fn find_match(
    target: &Vec<LyricLine>,
    sidecar: &LyricLine,
    strategy: MatchStrategy,
    ordered_index: usize,
) -> (result: MatchResult)
    ensures
        result == match_for(line_keys(target@), key_of(*sidecar), strategy, ordered_index as int),
{
    let ghost keys = line_keys(target@);
    let ghost key = key_of(*sidecar);
    match strategy {
        MatchStrategy::Ordered => {
            return if ordered_index < target.len() {
                MatchResult::Found { index: ordered_index, fuzzy_distance: None }
            } else {
                MatchResult::Missing
            };
        },
        MatchStrategy::KeepSeparate => {
            return MatchResult::Missing;
        },
        _ => {},
    }
    let mut candidates: Vec<(usize, u64)> = Vec::new();
    let mut i: usize = 0;
    while i < target.len()
        invariant
            i <= target@.len(),
            keys == line_keys(target@),
            key == key_of(*sidecar),
            candidates@ == candidate_list(keys, key, strategy, i as int),
        decreases target@.len() - i,
    {
        proof {
            assert(keys[i as int] == key_of(target@[i as int]));
            lemma_distance_fits(keys[i as int], key, strategy);
        }
        match distance_of(&target[i], sidecar, strategy) {
            Some(distance) => candidates.push((i, distance)),
            None => {},
        }
        i += 1;
    }
    let report_fuzzy = match strategy {
        MatchStrategy::TimestampTolerance { .. } => true,
        _ => false,
    };
    proof {
        lemma_unique_outcome_matches(keys, key, strategy, ordered_index as int);
    }
    unique_match(&candidates, report_fuzzy)
}

/// `after` is `before` with warnings of kind `code` appended.
pub open spec fn warnings_of(before: Seq<Diagnostic>, after: Seq<Diagnostic>, code: DiagnosticCode) -> bool {
    &&& warnings_added(before, after)
    &&& forall|k: int| before.len() <= k < after.len() ==> (#[trigger] after[k]).code == code
}

pub proof fn lemma_warnings_added_trans(a: Seq<Diagnostic>, b: Seq<Diagnostic>, c: Seq<Diagnostic>)
    requires
        warnings_added(a, b),
        warnings_added(b, c),
    ensures
        warnings_added(a, c),
{
    assert(c.subrange(0, a.len() as int) =~= c.subrange(0, b.len() as int).subrange(0, a.len() as int));
    assert forall|k: int| a.len() <= k < c.len() implies (#[trigger] c[k]).severity
        == DiagnosticSeverity::Warning by {
        if k < b.len() {
            assert(c[k] == c.subrange(0, b.len() as int)[k]);
        }
    }
}

pub proof fn lemma_warnings_of_trans(
    a: Seq<Diagnostic>,
    b: Seq<Diagnostic>,
    c: Seq<Diagnostic>,
    code: DiagnosticCode,
)
    requires
        warnings_of(a, b, code),
        warnings_of(b, c, code),
    ensures
        warnings_of(a, c, code),
{
    lemma_warnings_added_trans(a, b, c);
    assert forall|k: int| a.len() <= k < c.len() implies (#[trigger] c[k]).code == code by {
        if k < b.len() {
            assert(c[k] == c.subrange(0, b.len() as int)[k]);
        }
    }
}

proof fn lemma_push_warning(before: Seq<Diagnostic>, diagnostic: Diagnostic)
    requires
        diagnostic.severity == DiagnosticSeverity::Warning,
    ensures
        coded_warnings_added(before, before.push(diagnostic), diagnostic.code, 1),
        warnings_of(before, before.push(diagnostic), diagnostic.code),
{
    assert(before.push(diagnostic).subrange(0, before.len() as int) =~= before);
}

/// The kind and message of each of `diagnostics`, in order.
pub open spec fn notes_of(diagnostics: Seq<Diagnostic>) -> Seq<(DiagnosticCode, Seq<char>)> {
    Seq::new(diagnostics.len(), |i: int| (diagnostics[i].code, diagnostics[i].message@))
}

/// `after` is `before` with warnings appended whose kinds and messages are `notes`, in order,
/// none of them pointing at a place in a source.
pub open spec fn noted(before: Seq<Diagnostic>, after: Seq<Diagnostic>, notes: Seq<(DiagnosticCode, Seq<char>)>) -> bool {
    &&& warnings_added(before, after)
    &&& notes_of(after.subrange(before.len() as int, after.len() as int)) == notes
    &&& forall|k: int| before.len() <= k < after.len() ==> (#[trigger] after[k]).span is None
}

proof fn lemma_noted_none(diagnostics: Seq<Diagnostic>)
    ensures
        noted(diagnostics, diagnostics, Seq::empty()),
{
    assert(diagnostics.subrange(0, diagnostics.len() as int) =~= diagnostics);
    assert(notes_of(diagnostics.subrange(diagnostics.len() as int, diagnostics.len() as int)) =~= Seq::<(DiagnosticCode, Seq<char>)>::empty());
}

proof fn lemma_noted_push(before: Seq<Diagnostic>, diagnostic: Diagnostic)
    requires
        diagnostic.severity == DiagnosticSeverity::Warning,
        diagnostic.span is None,
    ensures
        noted(before, before.push(diagnostic), seq![(diagnostic.code, diagnostic.message@)]),
{
    assert(before.push(diagnostic).subrange(0, before.len() as int) =~= before);
    assert(notes_of(before.push(diagnostic).subrange(before.len() as int, before.len() + 1int)) =~= seq![(diagnostic.code, diagnostic.message@)]);
}

proof fn lemma_noted_trans(
    a: Seq<Diagnostic>,
    b: Seq<Diagnostic>,
    c: Seq<Diagnostic>,
    first: Seq<(DiagnosticCode, Seq<char>)>,
    second: Seq<(DiagnosticCode, Seq<char>)>,
)
    requires
        noted(a, b, first),
        noted(b, c, second),
    ensures
        noted(a, c, first + second),
{
    lemma_warnings_added_trans(a, b, c);
    assert(c.subrange(0, b.len() as int) == b);
    assert forall|i: int| a.len() <= i < b.len() implies c[i] == b[i] by {
        assert(c.subrange(0, b.len() as int)[i] == c[i]);
    }
    assert(notes_of(c.subrange(a.len() as int, c.len() as int)) =~= notes_of(b.subrange(a.len() as int, b.len() as int))
        + notes_of(c.subrange(b.len() as int, c.len() as int)));
}

/// A note naming a line or segment number: `prefix`, the number in decimal, `suffix`.
pub open spec fn numbered(prefix: Seq<char>, number: int, suffix: Seq<char>) -> Seq<char> {
    prefix + decimal_text(number as nat) + suffix
}

/// The note on a saturated start delta of sidecar line `id`.
pub open spec fn delta_note(id: u64) -> (DiagnosticCode, Seq<char>) {
    (DiagnosticCode::TimeOverflow, numbered("sidecar line "@, id as int, " start delta overflowed and was saturated"@))
}

/// The note on a saturated segment time of sidecar line `id`.
pub open spec fn shift_note(id: u64) -> (DiagnosticCode, Seq<char>) {
    (DiagnosticCode::TimeOverflow, numbered("enhanced timing on sidecar line "@, id as int, " overflowed and was saturated"@))
}

/// The notes of moving `time` by `delta`: one when it overflows.
pub open spec fn time_notes(time: LyricTime, delta: LyricTime, id: u64) -> Seq<(DiagnosticCode, Seq<char>)> {
    if fits_i64(time.micros() + delta.micros()) {
        Seq::empty()
    } else {
        seq![shift_note(id)]
    }
}

/// The notes of moving the first `n` segments by `delta`: start, then end, of each.
pub open spec fn shift_notes(segments: Seq<crate::model::TimedSegment>, delta: LyricTime, id: u64, n: int) -> Seq<
    (DiagnosticCode, Seq<char>),
>
    decreases n,
{
    if n <= 0 || n > segments.len() {
        Seq::empty()
    } else {
        let range = segments[n - 1].range;
        shift_notes(segments, delta, id, n - 1) + time_notes(range.start, delta, id) + match range.end {
            Some(end) => time_notes(end, delta, id),
            None => Seq::empty(),
        }
    }
}

/// The note on repairing the range of target line `id`.
pub open spec fn target_note(id: u64) -> (DiagnosticCode, Seq<char>) {
    (DiagnosticCode::InvalidRange, numbered("target line "@, id as int, " had an invalid range; its end was clamped"@))
}

/// The note on normalizing segment `k` into target line `id`.
pub open spec fn segment_note(k: int, id: u64) -> (DiagnosticCode, Seq<char>) {
    (
        DiagnosticCode::InvalidRange,
        numbered("enhanced segment "@, k, " had timing outside target line "@) + decimal_text(id as nat)
            + " and was normalized"@,
    )
}

/// The notes of normalizing the first `n` segments into `target` (repaired) on line `id`.
pub open spec fn segment_notes(segments: Seq<crate::model::TimedSegment>, target: TimeRange, id: u64, n: int) -> Seq<
    (DiagnosticCode, Seq<char>),
>
    decreases n,
{
    if n <= 0 || n > segments.len() {
        Seq::empty()
    } else {
        segment_notes(segments, target, id, n - 1) + if segment_flagged(segments[n - 1].range, target) {
            seq![segment_note(n - 1, id)]
        } else {
            Seq::empty()
        }
    }
}

/// The notes of normalizing the segments of a lane into the line `id` spanning `target`.
pub open spec fn normalize_notes(segments: Seq<crate::model::TimedSegment>, target: TimeRange, id: u64) -> Seq<
    (DiagnosticCode, Seq<char>),
> {
    (if target.well_ordered() {
        Seq::empty()
    } else {
        seq![target_note(id)]
    }) + segment_notes(segments, clamp_target(target), id, segments.len() as int)
}

proof fn lemma_no_warning(before: Seq<Diagnostic>, code: DiagnosticCode)
    ensures
        coded_warnings_added(before, before, code, 0),
        warnings_of(before, before, code),
{
    assert(before.subrange(0, before.len() as int) =~= before);
}

/// How many of `diagnostics` have kind `code`.
pub open spec fn code_count(diagnostics: Seq<Diagnostic>, code: DiagnosticCode) -> int
    decreases diagnostics.len(),
{
    if diagnostics.len() == 0 {
        0
    } else {
        code_count(diagnostics.drop_last(), code) + if diagnostics.last().code == code {
            1int
        } else {
            0int
        }
    }
}

/// The kinds of warning that report how a sidecar line matched.
pub open spec fn is_match_code(code: DiagnosticCode) -> bool {
    ||| code == DiagnosticCode::FuzzyMatch
    ||| code == DiagnosticCode::AmbiguousMatch
    ||| code == DiagnosticCode::UnmatchedSidecarLine
}

/// How many warnings of each matching kind `diagnostics` holds.
pub open spec fn match_counts(diagnostics: Seq<Diagnostic>) -> (int, int, int) {
    (
        code_count(diagnostics, DiagnosticCode::FuzzyMatch),
        code_count(diagnostics, DiagnosticCode::AmbiguousMatch),
        code_count(diagnostics, DiagnosticCode::UnmatchedSidecarLine),
    )
}

/// How many of `diagnostics` are of none of the kinds that merging gives.
pub open spec fn foreign_count(diagnostics: Seq<Diagnostic>) -> int {
    diagnostics.len() - code_count(diagnostics, DiagnosticCode::FuzzyMatch) - code_count(
        diagnostics,
        DiagnosticCode::AmbiguousMatch,
    ) - code_count(diagnostics, DiagnosticCode::UnmatchedSidecarLine) - code_count(
        diagnostics,
        DiagnosticCode::TimeOverflow,
    ) - code_count(diagnostics, DiagnosticCode::InvalidRange) - code_count(diagnostics, DiagnosticCode::LaneConflict)
}

/// The kinds of warning that merging gives.
pub open spec fn is_merge_code(code: DiagnosticCode) -> bool {
    ||| is_match_code(code)
    ||| code == DiagnosticCode::TimeOverflow
    ||| code == DiagnosticCode::InvalidRange
    ||| code == DiagnosticCode::LaneConflict
}

/// Appending warnings of a kind that merging gives leaves the foreign count as it was.
proof fn lemma_foreign_kept(before: Seq<Diagnostic>, after: Seq<Diagnostic>, code: DiagnosticCode)
    requires
        warnings_of(before, after, code),
        is_merge_code(code),
    ensures
        foreign_count(after) == foreign_count(before),
{
    lemma_same_code_counted(before, after, code);
    if code != DiagnosticCode::FuzzyMatch {
        lemma_other_codes_kept(before, after, code, DiagnosticCode::FuzzyMatch);
    }
    if code != DiagnosticCode::AmbiguousMatch {
        lemma_other_codes_kept(before, after, code, DiagnosticCode::AmbiguousMatch);
    }
    if code != DiagnosticCode::UnmatchedSidecarLine {
        lemma_other_codes_kept(before, after, code, DiagnosticCode::UnmatchedSidecarLine);
    }
    if code != DiagnosticCode::TimeOverflow {
        lemma_other_codes_kept(before, after, code, DiagnosticCode::TimeOverflow);
    }
    if code != DiagnosticCode::InvalidRange {
        lemma_other_codes_kept(before, after, code, DiagnosticCode::InvalidRange);
    }
    if code != DiagnosticCode::LaneConflict {
        lemma_other_codes_kept(before, after, code, DiagnosticCode::LaneConflict);
    }
}

proof fn lemma_code_count_push(diagnostics: Seq<Diagnostic>, diagnostic: Diagnostic, code: DiagnosticCode)
    ensures
        code_count(diagnostics.push(diagnostic), code) == code_count(diagnostics, code) + if diagnostic.code == code {
            1int
        } else {
            0int
        },
{
    assert(diagnostics.push(diagnostic).drop_last() =~= diagnostics);
}

/// Appending warnings of one kind leaves the count of every other kind as it was.
proof fn lemma_other_codes_kept(
    before: Seq<Diagnostic>,
    after: Seq<Diagnostic>,
    code: DiagnosticCode,
    other: DiagnosticCode,
)
    requires
        warnings_of(before, after, code),
        other != code,
    ensures
        code_count(after, other) == code_count(before, other),
    decreases after.len(),
{
    if after.len() > before.len() {
        let shorter = after.drop_last();
        assert(shorter.subrange(0, before.len() as int) =~= after.subrange(0, before.len() as int));
        assert forall|k: int| before.len() <= k < shorter.len() implies (#[trigger] shorter[k]).severity
            == DiagnosticSeverity::Warning && shorter[k].code == code by {
            assert(shorter[k] == after[k]);
        }
        lemma_other_codes_kept(before, shorter, code, other);
        assert(after.last() == after[after.len() - 1]);
    } else {
        assert(after =~= before) by {
            assert(after.subrange(0, before.len() as int) =~= after);
        }
    }
}

/// Appending warnings of one kind adds their number to the count of that kind.
proof fn lemma_same_code_counted(before: Seq<Diagnostic>, after: Seq<Diagnostic>, code: DiagnosticCode)
    requires
        warnings_of(before, after, code),
    ensures
        code_count(after, code) == code_count(before, code) + (after.len() - before.len()),
    decreases after.len(),
{
    if after.len() > before.len() {
        let shorter = after.drop_last();
        assert(shorter.subrange(0, before.len() as int) =~= after.subrange(0, before.len() as int));
        assert forall|k: int| before.len() <= k < shorter.len() implies (#[trigger] shorter[k]).severity
            == DiagnosticSeverity::Warning && shorter[k].code == code by {
            assert(shorter[k] == after[k]);
        }
        lemma_same_code_counted(before, shorter, code);
        assert(after.last() == after[after.len() - 1]);
    } else {
        assert(after =~= before) by {
            assert(after.subrange(0, before.len() as int) =~= after);
        }
    }
}

/// Warnings of a kind that reports no match leave the matching counts as they were.
proof fn lemma_match_counts_kept(before: Seq<Diagnostic>, after: Seq<Diagnostic>, code: DiagnosticCode)
    requires
        warnings_of(before, after, code),
        !is_match_code(code),
    ensures
        match_counts(after) == match_counts(before),
{
    lemma_other_codes_kept(before, after, code, DiagnosticCode::FuzzyMatch);
    lemma_other_codes_kept(before, after, code, DiagnosticCode::AmbiguousMatch);
    lemma_other_codes_kept(before, after, code, DiagnosticCode::UnmatchedSidecarLine);
}

/// The matching warnings among `diagnostics`, in order: the kind and message of each.
pub open spec fn match_marks(diagnostics: Seq<Diagnostic>) -> Seq<(DiagnosticCode, Seq<char>)>
    decreases diagnostics.len(),
{
    if diagnostics.len() == 0 {
        Seq::empty()
    } else {
        let rest = match_marks(diagnostics.drop_last());
        if is_match_code(diagnostics.last().code) {
            rest.push((diagnostics.last().code, diagnostics.last().message@))
        } else {
            rest
        }
    }
}

proof fn lemma_match_marks_push(diagnostics: Seq<Diagnostic>, diagnostic: Diagnostic)
    ensures
        match_marks(diagnostics.push(diagnostic)) == if is_match_code(diagnostic.code) {
            match_marks(diagnostics).push((diagnostic.code, diagnostic.message@))
        } else {
            match_marks(diagnostics)
        },
{
    assert(diagnostics.push(diagnostic).drop_last() =~= diagnostics);
}

proof fn lemma_code_count_prefix(before: Seq<Diagnostic>, after: Seq<Diagnostic>, code: DiagnosticCode)
    requires
        before.len() <= after.len(),
        after.subrange(0, before.len() as int) == before,
    ensures
        code_count(before, code) <= code_count(after, code),
    decreases after.len(),
{
    if after.len() > before.len() {
        let shorter = after.drop_last();
        assert(shorter.subrange(0, before.len() as int) =~= after.subrange(0, before.len() as int));
        lemma_code_count_prefix(before, shorter, code);
    } else {
        assert(after.subrange(0, before.len() as int) =~= after);
    }
}

/// Appending warnings of no matching kind keeps the matching warnings.
proof fn lemma_match_marks_kept(before: Seq<Diagnostic>, after: Seq<Diagnostic>)
    requires
        warnings_added(before, after),
        match_counts(after) == match_counts(before),
    ensures
        match_marks(after) == match_marks(before),
    decreases after.len(),
{
    if after.len() > before.len() {
        let shorter = after.drop_last();
        assert(shorter.subrange(0, before.len() as int) =~= after.subrange(0, before.len() as int));
        assert forall|k: int| before.len() <= k < shorter.len() implies (#[trigger] shorter[k]).severity
            == DiagnosticSeverity::Warning by {
            assert(shorter[k] == after[k]);
        }
        lemma_code_count_prefix(before, shorter, DiagnosticCode::FuzzyMatch);
        lemma_code_count_prefix(before, shorter, DiagnosticCode::AmbiguousMatch);
        lemma_code_count_prefix(before, shorter, DiagnosticCode::UnmatchedSidecarLine);
        lemma_match_marks_kept(before, shorter);
    } else {
        assert(after =~= before) by {
            assert(after.subrange(0, before.len() as int) =~= after);
        }
    }
}

/// The matching warning that sidecar line `j` of `lines` gets: one naming the distance when
/// it joined a line within a tolerance but not exactly, one when it matched more than one
/// line, one when it matched none; none when it matched exactly.
pub open spec fn line_match_notes(
    keys: Seq<(LyricTime, LineId)>,
    lines: Seq<LyricLine>,
    strategy: MatchStrategy,
    j: int,
) -> Seq<(DiagnosticCode, Seq<char>)> {
    let id = decimal_text(lines[j].id.0 as nat);
    match match_for(keys, key_of(lines[j]), strategy, j) {
        MatchResult::Found { fuzzy_distance, .. } => match fuzzy_distance {
            Some(distance) => seq![
                (
                    DiagnosticCode::FuzzyMatch,
                    "sidecar line "@ + id + " matched within a "@ + decimal_text(distance as nat)
                        + "\u{b5}s timestamp tolerance"@,
                ),
            ],
            None => Seq::empty(),
        },
        MatchResult::Ambiguous => seq![
            (
                DiagnosticCode::AmbiguousMatch,
                "sidecar line "@ + id + " matched more than one primary line and was kept separate"@,
            ),
        ],
        MatchResult::Missing => seq![
            (
                DiagnosticCode::UnmatchedSidecarLine,
                "sidecar line "@ + id + " had no safe primary match and was kept separate"@,
            ),
        ],
    }
}

/// The matching warnings of the first `n` sidecar `lines`, in order.
pub open spec fn lines_match_notes(
    keys: Seq<(LyricTime, LineId)>,
    lines: Seq<LyricLine>,
    strategy: MatchStrategy,
    n: int,
) -> Seq<(DiagnosticCode, Seq<char>)>
    decreases n,
{
    if n <= 0 || n > lines.len() {
        Seq::empty()
    } else {
        lines_match_notes(keys, lines, strategy, n - 1) + line_match_notes(keys, lines, strategy, n - 1)
    }
}

/// The matching warnings of the lines of the first `m` sidecar `tracks`, in order.
pub open spec fn tracks_match_notes(
    keys: Seq<(LyricTime, LineId)>,
    tracks: Seq<LyricTrack>,
    strategy: MatchStrategy,
    m: int,
) -> Seq<(DiagnosticCode, Seq<char>)>
    decreases m,
{
    if m <= 0 || m > tracks.len() {
        Seq::empty()
    } else {
        tracks_match_notes(keys, tracks, strategy, m - 1) + lines_match_notes(
            keys,
            tracks[m - 1].lines@,
            strategy,
            tracks[m - 1].lines@.len() as int,
        )
    }
}

/// `time` moved by `delta`, saturated at the ends of the representable range.
pub open spec fn shifted(time: LyricTime, delta: LyricTime) -> LyricTime {
    LyricTime(saturate_i64(time.micros() + delta.micros()) as i64)
}

/// `range` with both ends moved by `delta`.
pub open spec fn moved_range(range: TimeRange, delta: LyricTime) -> TimeRange {
    TimeRange {
        start: shifted(range.start, delta),
        end: match range.end {
            Some(end) => Some(shifted(end, delta)),
            None => None,
        },
    }
}

/// One when moving `time` by `delta` leaves the representable range, else zero.
pub open spec fn overflow_count(time: LyricTime, delta: LyricTime) -> int {
    if fits_i64(time.micros() + delta.micros()) {
        0
    } else {
        1
    }
}

/// How many of the ends of the first `n` segments overflow when moved by `delta`.
pub open spec fn shift_overflows(segments: Seq<crate::model::TimedSegment>, delta: LyricTime, n: int) -> int
    decreases n,
{
    if n <= 0 || n > segments.len() {
        0
    } else {
        let range = segments[n - 1].range;
        shift_overflows(segments, delta, n - 1) + overflow_count(range.start, delta) + match range.end {
            Some(end) => overflow_count(end, delta),
            None => 0,
        }
    }
}

/// The distance from the sidecar line's start to the target line's start, saturated.
pub open spec fn line_delta(target_start: LyricTime, sidecar_start: LyricTime) -> LyricTime {
    LyricTime(saturate_i64(target_start.micros() - sidecar_start.micros()) as i64)
}

fn time_delta(
    target_start: LyricTime,
    sidecar_start: LyricTime,
    sidecar_id: u64,
    diagnostics: &mut Vec<Diagnostic>,
) -> (delta: LyricTime)
    ensures
        delta == line_delta(target_start, sidecar_start),
        coded_warnings_added(
            old(diagnostics)@,
            final(diagnostics)@,
            DiagnosticCode::TimeOverflow,
            if fits_i64(target_start.micros() - sidecar_start.micros()) {
                0
            } else {
                1
            },
        ),
        noted(
            old(diagnostics)@,
            final(diagnostics)@,
            if fits_i64(target_start.micros() - sidecar_start.micros()) {
                Seq::empty()
            } else {
                seq![delta_note(sidecar_id)]
            },
        ),
{
    match target_start.checked_sub(sidecar_start) {
        Some(delta) => {
            proof {
                lemma_no_warning(diagnostics@, DiagnosticCode::TimeOverflow);
                lemma_noted_none(diagnostics@);
            }
            delta
        },
        None => {
            let diagnostic = warning(
                DiagnosticCode::TimeOverflow,
                numbered_message("sidecar line ", sidecar_id, " start delta overflowed and was saturated"),
            );
            proof {
                lemma_push_warning(diagnostics@, diagnostic);
                lemma_noted_push(diagnostics@, diagnostic);
            }
            diagnostics.push(diagnostic);
            target_start.saturating_sub(sidecar_start)
        },
    }
}

fn shift_segment_time(
    time: LyricTime,
    delta: LyricTime,
    sidecar_id: u64,
    diagnostics: &mut Vec<Diagnostic>,
) -> (moved: LyricTime)
    ensures
        moved == shifted(time, delta),
        coded_warnings_added(
            old(diagnostics)@,
            final(diagnostics)@,
            DiagnosticCode::TimeOverflow,
            overflow_count(time, delta),
        ),
        noted(old(diagnostics)@, final(diagnostics)@, time_notes(time, delta, sidecar_id)),
{
    match time.checked_add(delta) {
        Some(moved) => {
            proof {
                lemma_no_warning(diagnostics@, DiagnosticCode::TimeOverflow);
                lemma_noted_none(diagnostics@);
            }
            moved
        },
        None => {
            let diagnostic = warning(
                DiagnosticCode::TimeOverflow,
                numbered_message(
                    "enhanced timing on sidecar line ",
                    sidecar_id,
                    " overflowed and was saturated",
                ),
            );
            proof {
                lemma_push_warning(diagnostics@, diagnostic);
                lemma_noted_push(diagnostics@, diagnostic);
            }
            diagnostics.push(diagnostic);
            time.saturating_add(delta)
        },
    }
}

fn shift_segments(
    segments: &mut Vec<crate::model::TimedSegment>,
    delta: LyricTime,
    sidecar_id: u64,
    diagnostics: &mut Vec<Diagnostic>,
)
    ensures
        final(segments)@.len() == old(segments)@.len(),
        forall|k: int|
            0 <= k < old(segments)@.len() ==> (#[trigger] final(segments)@[k]).text_range
                == old(segments)@[k].text_range && final(segments)@[k].range == moved_range(
                old(segments)@[k].range,
                delta,
            ),
        coded_warnings_added(
            old(diagnostics)@,
            final(diagnostics)@,
            DiagnosticCode::TimeOverflow,
            shift_overflows(old(segments)@, delta, old(segments)@.len() as int),
        ),
        noted(
            old(diagnostics)@,
            final(diagnostics)@,
            shift_notes(old(segments)@, delta, sidecar_id, old(segments)@.len() as int),
        ),
{
    let ghost original = segments@;
    let ghost diagnostics_before = diagnostics@;
    proof {
        lemma_no_warning(diagnostics@, DiagnosticCode::TimeOverflow);
        lemma_noted_none(diagnostics@);
    }
    let mut k: usize = 0;
    while k < segments.len()
        invariant
            k <= segments@.len(),
            segments@.len() == original.len(),
            forall|q: int|
                0 <= q < k ==> (#[trigger] segments@[q]).text_range == original[q].text_range
                    && segments@[q].range == moved_range(original[q].range, delta),
            forall|q: int| k <= q < segments@.len() ==> #[trigger] segments@[q] == original[q],
            coded_warnings_added(
                diagnostics_before,
                diagnostics@,
                DiagnosticCode::TimeOverflow,
                shift_overflows(original, delta, k as int),
            ),
            noted(diagnostics_before, diagnostics@, shift_notes(original, delta, sidecar_id, k as int)),
        decreases original.len() - k,
    {
        let ghost before_step = diagnostics@;
        let start = shift_segment_time(segments[k].range.start, delta, sidecar_id, diagnostics);
        proof {
            lemma_warnings_of_trans(diagnostics_before, before_step, diagnostics@, DiagnosticCode::TimeOverflow);
            lemma_noted_trans(
                diagnostics_before,
                before_step,
                diagnostics@,
                shift_notes(original, delta, sidecar_id, k as int),
                time_notes(original[k as int].range.start, delta, sidecar_id),
            );
        }
        let ghost middle = diagnostics@;
        let end = match segments[k].range.end {
            Some(end) => Some(shift_segment_time(end, delta, sidecar_id, diagnostics)),
            None => {
                proof {
                    lemma_no_warning(diagnostics@, DiagnosticCode::TimeOverflow);
                    lemma_noted_none(diagnostics@);
                }
                None
            },
        };
        proof {
            lemma_warnings_of_trans(diagnostics_before, middle, diagnostics@, DiagnosticCode::TimeOverflow);
            let end_notes = match original[k as int].range.end {
                Some(e) => time_notes(e, delta, sidecar_id),
                None => Seq::empty(),
            };
            lemma_noted_trans(
                diagnostics_before,
                middle,
                diagnostics@,
                shift_notes(original, delta, sidecar_id, k as int) + time_notes(
                    original[k as int].range.start,
                    delta,
                    sidecar_id,
                ),
                end_notes,
            );
            assert(shift_notes(original, delta, sidecar_id, k + 1) == shift_notes(original, delta, sidecar_id, k as int)
                + time_notes(original[k as int].range.start, delta, sidecar_id) + end_notes);
        }
        segments[k].range.start = start;
        segments[k].range.end = end;
        k += 1;
    }
}

/// The target range with an end before its start repaired to end at its start.
pub open spec fn clamp_target(target: TimeRange) -> TimeRange {
    if target.well_ordered() {
        target
    } else {
        TimeRange { start: target.start, end: Some(target.start) }
    }
}

/// `range` lies wholly before or wholly after `target`.
pub open spec fn outside_target(range: TimeRange, target: TimeRange) -> bool {
    ||| range.end matches Some(end) && (end.0 < target.start.0 || (end.0 == target.start.0
        && range.start.0 < end.0))
    ||| target.end matches Some(end) && range.start.0 >= end.0
}

/// `range` normalized into `target`: a range outside the target becomes the target; any
/// other is cut to the target, an open end taking the target's end.
pub open spec fn clamp_segment(range: TimeRange, target: TimeRange) -> TimeRange {
    if outside_target(range, target) {
        target
    } else {
        let start = max_time(range.start, target.start);
        let open_end = if range.end is Some {
            range.end
        } else {
            target.end
        };
        let cut_end = match (open_end, target.end) {
            (Some(end), Some(limit)) => Some(min_time(end, limit)),
            _ => open_end,
        };
        let end = match cut_end {
            Some(end) => if end.0 < start.0 {
                Some(start)
            } else {
                cut_end
            },
            None => None,
        };
        TimeRange { start, end }
    }
}

/// Normalizing `range` into `target` reports it.
pub open spec fn segment_flagged(range: TimeRange, target: TimeRange) -> bool {
    outside_target(range, target) || clamp_segment(range, target) != range
}

/// How many of the first `n` segments are reported when normalized into `target`.
pub open spec fn flagged_count(segments: Seq<crate::model::TimedSegment>, target: TimeRange, n: int) -> int
    decreases n,
{
    if n <= 0 || n > segments.len() {
        0
    } else {
        flagged_count(segments, target, n - 1) + if segment_flagged(segments[n - 1].range, target) {
            1int
        } else {
            0int
        }
    }
}

/// `range` starts within `target`, ends no earlier than it starts, and, when the target
/// ends, ends within it.
pub open spec fn lies_in(range: TimeRange, target: TimeRange) -> bool {
    &&& target.start.0 <= range.start.0
    &&& range.well_ordered()
    &&& target.end matches Some(limit) ==> range.end matches Some(end) && range.start.0
        <= limit.0 && end.0 <= limit.0
}

/// A segment normalized into a line lies within that line, once the line's own range is
/// repaired.
pub proof fn lemma_clamp_lies_in(range: TimeRange, target: TimeRange)
    ensures
        lies_in(clamp_segment(range, clamp_target(target)), clamp_target(target)),
{
}

fn segment_range_diagnostic(target_id: u64, segment_index: usize) -> (diagnostic: Diagnostic)
    ensures
        diagnostic.severity == DiagnosticSeverity::Warning,
        diagnostic.code == DiagnosticCode::InvalidRange,
        diagnostic.span is None,
        (diagnostic.code, diagnostic.message@) == segment_note(segment_index as int, target_id),
{
    let mut message = numbered_message("enhanced segment ", segment_index as u64, " had timing outside target line ");
    push_decimal_text(&mut message, target_id);
    message.append(" and was normalized");
    warning(DiagnosticCode::InvalidRange, message)
}

fn normalize_segments_to_line(
    lane: &mut LyricLane,
    target: TimeRange,
    target_id: u64,
    diagnostics: &mut Vec<Diagnostic>,
)
    ensures
        lane_times_only(*old(lane), *final(lane)),
        forall|k: int|
            0 <= k < old(lane).segments@.len() ==> (#[trigger] final(lane).segments@[k]).range
                == clamp_segment(old(lane).segments@[k].range, clamp_target(target)),
        coded_warnings_added(
            old(diagnostics)@,
            final(diagnostics)@,
            DiagnosticCode::InvalidRange,
            (if target.well_ordered() {
                0int
            } else {
                1int
            }) + flagged_count(
                old(lane).segments@,
                clamp_target(target),
                old(lane).segments@.len() as int,
            ),
        ),
        noted(old(diagnostics)@, final(diagnostics)@, normalize_notes(old(lane).segments@, target, target_id)),
{
    let ghost diagnostics_before = diagnostics@;
    let ghost original = *lane;
    let ghost given = target;
    let target = if target.is_valid() {
        proof {
            lemma_no_warning(diagnostics@, DiagnosticCode::InvalidRange);
            lemma_noted_none(diagnostics@);
        }
        target
    } else {
        let diagnostic = warning(
            DiagnosticCode::InvalidRange,
            numbered_message("target line ", target_id, " had an invalid range; its end was clamped"),
        );
        proof {
            lemma_push_warning(diagnostics@, diagnostic);
            lemma_noted_push(diagnostics@, diagnostic);
        }
        diagnostics.push(diagnostic);
        TimeRange::new(target.start, Some(target.start))
    };
    let ghost diagnostics_target = diagnostics@;
    let ghost opening_notes: Seq<(DiagnosticCode, Seq<char>)> = if given.well_ordered() {
        Seq::empty()
    } else {
        seq![target_note(target_id)]
    };
    proof {
        lemma_no_warning(diagnostics@, DiagnosticCode::InvalidRange);
        lemma_noted_none(diagnostics@);
        assert(noted(diagnostics_before, diagnostics_target, opening_notes));
        assert(target == clamp_target(given));
    }
    let mut k: usize = 0;
    while k < lane.segments.len()
        invariant
            k <= lane.segments@.len(),
            lane.segments@.len() == original.segments@.len(),
            lane.kind == original.kind,
            lane.language == original.language,
            lane.text == original.text,
            forall|q: int|
                0 <= q < k ==> (#[trigger] lane.segments@[q]).text_range
                    == original.segments@[q].text_range && lane.segments@[q].range == clamp_segment(
                    original.segments@[q].range,
                    target,
                ),
            forall|q: int| k <= q < lane.segments@.len() ==> #[trigger] lane.segments@[q] == original.segments@[q],
            coded_warnings_added(
                diagnostics_before,
                diagnostics_target,
                DiagnosticCode::InvalidRange,
                diagnostics_target.len() - diagnostics_before.len(),
            ),
            coded_warnings_added(
                diagnostics_target,
                diagnostics@,
                DiagnosticCode::InvalidRange,
                flagged_count(original.segments@, target, k as int),
            ),
            noted(diagnostics_target, diagnostics@, segment_notes(original.segments@, target, target_id, k as int)),
        decreases original.segments@.len() - k,
    {
        let ghost before_step = diagnostics@;
        let original_range = lane.segments[k].range;
        let outside_before = match original_range.end {
            Some(end) => end.0 < target.start.0 || (end.0 == target.start.0 && original_range.start.0 < end.0),
            None => false,
        };
        let outside_after = match target.end {
            Some(end) => original_range.start.0 >= end.0,
            None => false,
        };
        if outside_before || outside_after {
            lane.segments[k].range = target;
            let diagnostic = segment_range_diagnostic(target_id, k);
            proof {
                lemma_push_warning(diagnostics@, diagnostic);
                lemma_noted_push(diagnostics@, diagnostic);
            }
            diagnostics.push(diagnostic);
        } else {
            let start = original_range.start.later(target.start);
            let mut end = match original_range.end {
                Some(end) => Some(end),
                None => target.end,
            };
            match (end, target.end) {
                (Some(segment_end), Some(target_end)) => {
                    end = Some(segment_end.earlier(target_end));
                },
                _ => {},
            }
            match end {
                Some(e) => if e.0 < start.0 {
                    end = Some(start);
                },
                None => {},
            }
            let normalized = TimeRange::new(start, end);
            if normalized != original_range {
                let diagnostic = segment_range_diagnostic(target_id, k);
                proof {
                    lemma_push_warning(diagnostics@, diagnostic);
                    lemma_noted_push(diagnostics@, diagnostic);
                }
                diagnostics.push(diagnostic);
                lane.segments[k].range = normalized;
            } else {
                proof {
                    lemma_no_warning(diagnostics@, DiagnosticCode::InvalidRange);
                    lemma_noted_none(diagnostics@);
                }
            }
        }
        proof {
            lemma_warnings_of_trans(diagnostics_target, before_step, diagnostics@, DiagnosticCode::InvalidRange);
            let step_notes: Seq<(DiagnosticCode, Seq<char>)> = if segment_flagged(original.segments@[k as int].range, target) {
                seq![segment_note(k as int, target_id)]
            } else {
                Seq::empty()
            };
            assert(noted(before_step, diagnostics@, step_notes));
            lemma_noted_trans(
                diagnostics_target,
                before_step,
                diagnostics@,
                segment_notes(original.segments@, target, target_id, k as int),
                step_notes,
            );
        }
        k += 1;
    }
    proof {
        lemma_warnings_of_trans(diagnostics_before, diagnostics_target, diagnostics@, DiagnosticCode::InvalidRange);
        lemma_noted_trans(
            diagnostics_before,
            diagnostics_target,
            diagnostics@,
            opening_notes,
            segment_notes(original.segments@, target, target_id, original.segments@.len() as int),
        );
    }
}

/// Where a sidecar segment's `range` lands when its line joins a line spanning `target`:
/// under `Ordered` first moved by the distance between the two lines' starts, then
/// normalized into the target.
pub open spec fn placed_range(
    range: TimeRange,
    strategy: MatchStrategy,
    target: TimeRange,
    sidecar_start: LyricTime,
) -> TimeRange {
    let moved = if strategy is Ordered {
        moved_range(range, line_delta(target.start, sidecar_start))
    } else {
        range
    };
    clamp_segment(moved, clamp_target(target))
}

/// `after` is the sidecar lane `before` as placed on a line spanning `target`.
pub open spec fn lane_placed(
    before: LyricLane,
    after: LyricLane,
    strategy: MatchStrategy,
    target: TimeRange,
    sidecar_start: LyricTime,
) -> bool {
    &&& lane_times_only(before, after)
    &&& forall|k: int|
        0 <= k < before.segments@.len() ==> (#[trigger] after.segments@[k]).range == placed_range(
            before.segments@[k].range,
            strategy,
            target,
            sidecar_start,
        )
}

/// A merged segment lies within the line it joined, once that line's own range is repaired.
pub proof fn lemma_placed_lies_in(
    range: TimeRange,
    strategy: MatchStrategy,
    target: TimeRange,
    sidecar_start: LyricTime,
)
    ensures
        lies_in(placed_range(range, strategy, target, sidecar_start), clamp_target(target)),
{
    let moved = if strategy is Ordered {
        moved_range(range, line_delta(target.start, sidecar_start))
    } else {
        range
    };
    lemma_clamp_lies_in(moved, target);
}

spec fn lane_moved(before: LyricLane, after: LyricLane, moved: bool, delta: LyricTime) -> bool {
    &&& lane_times_only(before, after)
    &&& forall|k: int|
        0 <= k < before.segments@.len() ==> (#[trigger] after.segments@[k]).range == if moved {
            moved_range(before.segments@[k].range, delta)
        } else {
            before.segments@[k].range
        }
}

/// `range` as moved for placement on a line spanning `target`: under `Ordered` by the
/// distance between the two lines' starts.
pub open spec fn moved_for(range: TimeRange, strategy: MatchStrategy, target: TimeRange, sidecar_start: LyricTime) -> TimeRange {
    if strategy is Ordered {
        moved_range(range, line_delta(target.start, sidecar_start))
    } else {
        range
    }
}

/// How many of the ends of the segments of the first `n` lanes overflow when moved by `delta`.
pub open spec fn lanes_overflows(lanes: Seq<LyricLane>, delta: LyricTime, n: int) -> int
    decreases n,
{
    if n <= 0 || n > lanes.len() {
        0
    } else {
        lanes_overflows(lanes, delta, n - 1) + shift_overflows(
            lanes[n - 1].segments@,
            delta,
            lanes[n - 1].segments@.len() as int,
        )
    }
}

/// How many of the first `n` segments are reported when placed on a line spanning `target`.
pub open spec fn placed_flags(
    segments: Seq<crate::model::TimedSegment>,
    strategy: MatchStrategy,
    target: TimeRange,
    sidecar_start: LyricTime,
    n: int,
) -> int
    decreases n,
{
    if n <= 0 || n > segments.len() {
        0
    } else {
        placed_flags(segments, strategy, target, sidecar_start, n - 1) + if segment_flagged(
            moved_for(segments[n - 1].range, strategy, target, sidecar_start),
            clamp_target(target),
        ) {
            1int
        } else {
            0int
        }
    }
}

/// How many range repairs placing the first `n` lanes on a line spanning `target` reports:
/// for each lane, the target's own range when it ends before it starts, and each segment
/// normalized into the target.
pub open spec fn lanes_range_repairs(
    lanes: Seq<LyricLane>,
    strategy: MatchStrategy,
    target: TimeRange,
    sidecar_start: LyricTime,
    n: int,
) -> int
    decreases n,
{
    if n <= 0 || n > lanes.len() {
        0
    } else {
        lanes_range_repairs(lanes, strategy, target, sidecar_start, n - 1) + (if target.well_ordered() {
            0int
        } else {
            1int
        }) + placed_flags(
            lanes[n - 1].segments@,
            strategy,
            target,
            sidecar_start,
            lanes[n - 1].segments@.len() as int,
        )
    }
}

proof fn lemma_placed_flags(
    before: LyricLane,
    after: LyricLane,
    ordered: bool,
    delta: LyricTime,
    strategy: MatchStrategy,
    target: TimeRange,
    sidecar_start: LyricTime,
    n: int,
)
    requires
        lane_moved(before, after, ordered, delta),
        ordered == strategy is Ordered,
        delta == line_delta(target.start, sidecar_start),
        0 <= n <= before.segments@.len(),
    ensures
        flagged_count(after.segments@, clamp_target(target), n) == placed_flags(
            before.segments@,
            strategy,
            target,
            sidecar_start,
            n,
        ),
    decreases n,
{
    if n > 0 {
        lemma_placed_flags(before, after, ordered, delta, strategy, target, sidecar_start, n - 1);
        assert(after.segments@[n - 1].range == moved_for(before.segments@[n - 1].range, strategy, target, sidecar_start));
    }
}

/// The notes of normalizing the first `n` segments of a sidecar lane placed on line `id`
/// spanning `target`: one for each segment that, as moved, needs repair.
pub open spec fn placed_segment_notes(
    segments: Seq<crate::model::TimedSegment>,
    strategy: MatchStrategy,
    target: TimeRange,
    sidecar_start: LyricTime,
    id: u64,
    n: int,
) -> Seq<(DiagnosticCode, Seq<char>)>
    decreases n,
{
    if n <= 0 || n > segments.len() {
        Seq::empty()
    } else {
        placed_segment_notes(segments, strategy, target, sidecar_start, id, n - 1) + if segment_flagged(
            moved_for(segments[n - 1].range, strategy, target, sidecar_start),
            clamp_target(target),
        ) {
            seq![segment_note(n - 1, id)]
        } else {
            Seq::empty()
        }
    }
}

proof fn lemma_placed_segment_notes(
    before: LyricLane,
    after: LyricLane,
    ordered: bool,
    delta: LyricTime,
    strategy: MatchStrategy,
    target: TimeRange,
    sidecar_start: LyricTime,
    id: u64,
    n: int,
)
    requires
        lane_moved(before, after, ordered, delta),
        ordered == strategy is Ordered,
        delta == line_delta(target.start, sidecar_start),
        0 <= n <= before.segments@.len(),
    ensures
        segment_notes(after.segments@, clamp_target(target), id, n) == placed_segment_notes(
            before.segments@,
            strategy,
            target,
            sidecar_start,
            id,
            n,
        ),
    decreases n,
{
    if n > 0 {
        lemma_placed_segment_notes(before, after, ordered, delta, strategy, target, sidecar_start, id, n - 1);
        assert(after.segments@[n - 1].range == moved_for(before.segments@[n - 1].range, strategy, target, sidecar_start));
    }
}

/// The note on a lane whose kind and language line `id` already held.
pub open spec fn conflict_note(id: u64) -> (DiagnosticCode, Seq<char>) {
    (
        DiagnosticCode::LaneConflict,
        numbered("line "@, id as int, " already contained this lane kind and language; both lanes were preserved"@),
    )
}

/// The notes of moving the segments of the first `n` sidecar lanes by `delta`.
pub open spec fn lanes_shift_notes(lanes: Seq<LyricLane>, delta: LyricTime, id: u64, n: int) -> Seq<
    (DiagnosticCode, Seq<char>),
>
    decreases n,
{
    if n <= 0 || n > lanes.len() {
        Seq::empty()
    } else {
        lanes_shift_notes(lanes, delta, id, n - 1) + shift_notes(
            lanes[n - 1].segments@,
            delta,
            id,
            lanes[n - 1].segments@.len() as int,
        )
    }
}

/// The notes of placing the first `n` sidecar lanes `lanes` on line `id` spanning `target`,
/// where they stand in `after` from position `base` on: for each lane, the repair of the
/// target's range, those of its segments, and a conflict when the line already held its
/// kind and language.
pub open spec fn lanes_place_notes(
    lanes: Seq<LyricLane>,
    after: Seq<LyricLane>,
    base: int,
    strategy: MatchStrategy,
    target: TimeRange,
    sidecar_start: LyricTime,
    id: u64,
    n: int,
) -> Seq<(DiagnosticCode, Seq<char>)>
    decreases n,
{
    if n <= 0 || n > lanes.len() {
        Seq::empty()
    } else {
        lanes_place_notes(lanes, after, base, strategy, target, sidecar_start, id, n - 1) + (if target.well_ordered() {
            Seq::empty()
        } else {
            seq![target_note(id)]
        }) + placed_segment_notes(
            lanes[n - 1].segments@,
            strategy,
            target,
            sidecar_start,
            id,
            lanes[n - 1].segments@.len() as int,
        ) + if conflicts_with(after.take(base + n - 1), after[base + n - 1]) {
            seq![conflict_note(id)]
        } else {
            Seq::empty()
        }
    }
}

/// The warnings joining the sidecar line `sidecar` to the line `id` spanning `range` gives,
/// when the line held `base` lanes before and its lanes end up as `after`: under `Ordered`,
/// a saturated start delta and the overflows of moving each lane's segments; then the
/// placement notes of each lane.
pub open spec fn append_notes(
    range: TimeRange,
    id: u64,
    base: int,
    sidecar: LyricLine,
    strategy: MatchStrategy,
    after: Seq<LyricLane>,
) -> Seq<(DiagnosticCode, Seq<char>)> {
    let delta = line_delta(range.start, sidecar.range.start);
    let shifting = if strategy is Ordered {
        (if fits_i64(range.start.micros() - sidecar.range.start.micros()) {
            Seq::empty()
        } else {
            seq![delta_note(sidecar.id.0)]
        }) + lanes_shift_notes(sidecar.lanes@, delta, sidecar.id.0, sidecar.lanes@.len() as int)
    } else {
        Seq::empty()
    };
    shifting + lanes_place_notes(
        sidecar.lanes@,
        after,
        base,
        strategy,
        range,
        sidecar.range.start,
        id,
        sidecar.lanes@.len() as int,
    )
}

/// Some lane of `lanes` has the kind and language of `lane`.
pub open spec fn conflicts_with(lanes: Seq<LyricLane>, lane: LyricLane) -> bool {
    exists|i: int|
        0 <= i < lanes.len() && (#[trigger] lanes[i]).kind.same(lane.kind) && opt_text(
            lanes[i].language,
        ) == opt_text(lane.language)
}

/// How many of the lanes at positions `from..to` of `lanes` find a lane of their kind and
/// language before them.
pub open spec fn added_conflicts(lanes: Seq<LyricLane>, from: int, to: int) -> int
    decreases to - from,
{
    if to <= from || to > lanes.len() || from < 0 {
        0
    } else {
        added_conflicts(lanes, from, to - 1) + if conflicts_with(lanes.take(to - 1), lanes[to - 1]) {
            1int
        } else {
            0int
        }
    }
}

/// How many lanes added to the first `n` lines, from `before` to `after`, find a lane of
/// their kind and language already on their line.
pub open spec fn lines_conflicts(before: Seq<LyricLine>, after: Seq<LyricLine>, n: int) -> int
    decreases n,
{
    if n <= 0 || n > before.len() || n > after.len() {
        0
    } else {
        lines_conflicts(before, after, n - 1) + added_conflicts(
            after[n - 1].lanes@,
            before[n - 1].lanes@.len() as int,
            after[n - 1].lanes@.len() as int,
        )
    }
}

proof fn lemma_added_conflicts_prefix(a: Seq<LyricLane>, b: Seq<LyricLane>, from: int, to: int)
    requires
        0 <= from,
        to <= a.len(),
        to <= b.len(),
        a.take(to) == b.take(to),
    ensures
        added_conflicts(a, from, to) == added_conflicts(b, from, to),
    decreases to - from,
{
    if from < to {
        assert(a.take(to - 1) =~= a.take(to).take(to - 1));
        assert(b.take(to - 1) =~= b.take(to).take(to - 1));
        assert(a[to - 1] == a.take(to)[to - 1]);
        assert(b[to - 1] == b.take(to)[to - 1]);
        assert(a.take(to - 1) == b.take(to - 1));
        lemma_added_conflicts_prefix(a, b, from, to - 1);
    }
}

proof fn lemma_added_conflicts_split(lanes: Seq<LyricLane>, a: int, b: int, c: int)
    requires
        0 <= a <= b <= c <= lanes.len(),
    ensures
        added_conflicts(lanes, a, c) == added_conflicts(lanes, a, b) + added_conflicts(lanes, b, c),
    decreases c - b,
{
    if b < c {
        lemma_added_conflicts_split(lanes, a, b, c - 1);
    }
}

proof fn lemma_lines_conflicts_split(b0: Seq<LyricLine>, a1: Seq<LyricLine>, a2: Seq<LyricLine>, n: int)
    requires
        lines_extended(b0, a1),
        lines_extended(a1, a2),
        0 <= n <= b0.len(),
    ensures
        lines_conflicts(b0, a2, n) == lines_conflicts(b0, a1, n) + lines_conflicts(a1, a2, n),
    decreases n,
{
    if n > 0 {
        lemma_lines_conflicts_split(b0, a1, a2, n - 1);
        let i = n - 1;
        let l0 = b0[i].lanes@.len() as int;
        let l1 = a1[i].lanes@.len() as int;
        let l2 = a2[i].lanes@.len() as int;
        assert(a2[i].id == a1[i].id);
        assert(a1[i].id == b0[i].id);
        lemma_added_conflicts_split(a2[i].lanes@, l0, l1, l2);
        assert(a2[i].lanes@.take(l1) =~= a1[i].lanes@.take(l1)) by {
            assert forall|q: int| 0 <= q < l1 implies #[trigger] a2[i].lanes@[q] == a1[i].lanes@[q] by {}
        }
        lemma_added_conflicts_prefix(a2[i].lanes@, a1[i].lanes@, l0, l1);
    }
}

/// Lines that gained no lanes report no conflicts.
proof fn lemma_lines_conflicts_none(a: Seq<LyricLine>, n: int)
    requires
        0 <= n <= a.len(),
    ensures
        lines_conflicts(a, a, n) == 0,
    decreases n,
{
    if n > 0 {
        lemma_lines_conflicts_none(a, n - 1);
    }
}

/// From `a` to `b` only line `index` gained lanes: the conflicts are those it gained.
proof fn lemma_lines_conflicts_single(a: Seq<LyricLine>, b: Seq<LyricLine>, index: int, n: int)
    requires
        lines_extended(a, b),
        0 <= index < a.len(),
        forall|i: int| 0 <= i < a.len() && i != index ==> #[trigger] b[i] == a[i],
        0 <= n <= a.len(),
    ensures
        lines_conflicts(a, b, n) == if index < n {
            added_conflicts(b[index].lanes@, a[index].lanes@.len() as int, b[index].lanes@.len() as int)
        } else {
            0int
        },
    decreases n,
{
    if n > 0 {
        lemma_lines_conflicts_single(a, b, index, n - 1);
        if n - 1 != index {
            assert(b[n - 1] == a[n - 1]);
        }
    }
}

proof fn lemma_place_notes_prefix(
    lanes: Seq<LyricLane>,
    a: Seq<LyricLane>,
    b: Seq<LyricLane>,
    base: int,
    strategy: MatchStrategy,
    target: TimeRange,
    sidecar_start: LyricTime,
    id: u64,
    n: int,
)
    requires
        0 <= base,
        0 <= n <= lanes.len(),
        base + n <= a.len(),
        base + n <= b.len(),
        a.take(base + n) == b.take(base + n),
    ensures
        lanes_place_notes(lanes, a, base, strategy, target, sidecar_start, id, n) == lanes_place_notes(
            lanes,
            b,
            base,
            strategy,
            target,
            sidecar_start,
            id,
            n,
        ),
    decreases n,
{
    if n > 0 {
        assert(a.take(base + n - 1) =~= a.take(base + n).take(base + n - 1));
        assert(b.take(base + n - 1) =~= b.take(base + n).take(base + n - 1));
        assert(a[base + n - 1] == a.take(base + n)[base + n - 1]);
        assert(b[base + n - 1] == b.take(base + n)[base + n - 1]);
        lemma_place_notes_prefix(lanes, a, b, base, strategy, target, sidecar_start, id, n - 1);
    }
}

fn has_conflict(lanes: &Vec<LyricLane>, lane: &LyricLane) -> (conflict: bool)
    ensures
        conflict == conflicts_with(lanes@, *lane),
{
    let mut i: usize = 0;
    while i < lanes.len()
        invariant
            i <= lanes@.len(),
            forall|q: int|
                0 <= q < i ==> !((#[trigger] lanes@[q]).kind.same(lane.kind) && opt_text(
                    lanes@[q].language,
                ) == opt_text(lane.language)),
        decreases lanes@.len() - i,
    {
        if lanes[i].kind.same_as(&lane.kind) && same_text(&lanes[i].language, &lane.language) {
            return true;
        }
        i += 1;
    }
    false
}

/// The items of `items` in reverse order.
fn reversed<T>(items: Vec<T>) -> (flipped: Vec<T>)
    ensures
        flipped@.len() == items@.len(),
        forall|k: int|
            0 <= k < items@.len() ==> #[trigger] flipped@[k] == items@[items@.len() - 1 - k],
{
    let ghost original = items@;
    let mut items = items;
    let mut flipped: Vec<T> = Vec::new();
    while items.len() > 0
        invariant
            flipped@.len() + items@.len() == original.len(),
            items@ == original.subrange(0, items@.len() as int),
            forall|k: int|
                0 <= k < flipped@.len() ==> #[trigger] flipped@[k] == original[original.len() - 1 - k],
        decreases items@.len(),
    {
        let item = items.pop().unwrap();
        flipped.push(item);
    }
    flipped
}

fn append_lanes(
    target: &mut LyricLine,
    sidecar: LyricLine,
    strategy: MatchStrategy,
    diagnostics: &mut Vec<Diagnostic>,
)
    ensures
        final(target).id == old(target).id,
        final(target).range == old(target).range,
        final(target).lanes@.len() == old(target).lanes@.len() + sidecar.lanes@.len(),
        forall|l: int|
            0 <= l < old(target).lanes@.len() ==> #[trigger] final(target).lanes@[l] == old(
                target,
            ).lanes@[l],
        forall|l: int|
            0 <= l < sidecar.lanes@.len() ==> lane_placed(
                #[trigger] sidecar.lanes@[l],
                final(target).lanes@[old(target).lanes@.len() + l],
                strategy,
                old(target).range,
                sidecar.range.start,
            ),
        warnings_added(old(diagnostics)@, final(diagnostics)@),
        match_counts(final(diagnostics)@) == match_counts(old(diagnostics)@),
        foreign_count(final(diagnostics)@) == foreign_count(old(diagnostics)@),
        code_count(final(diagnostics)@, DiagnosticCode::TimeOverflow) == code_count(
            old(diagnostics)@,
            DiagnosticCode::TimeOverflow,
        ) + if strategy is Ordered {
            (if fits_i64(old(target).range.start.micros() - sidecar.range.start.micros()) {
                0int
            } else {
                1int
            }) + lanes_overflows(
                sidecar.lanes@,
                line_delta(old(target).range.start, sidecar.range.start),
                sidecar.lanes@.len() as int,
            )
        } else {
            0int
        },
        code_count(final(diagnostics)@, DiagnosticCode::InvalidRange) == code_count(
            old(diagnostics)@,
            DiagnosticCode::InvalidRange,
        ) + lanes_range_repairs(
            sidecar.lanes@,
            strategy,
            old(target).range,
            sidecar.range.start,
            sidecar.lanes@.len() as int,
        ),
        code_count(final(diagnostics)@, DiagnosticCode::LaneConflict) == code_count(
            old(diagnostics)@,
            DiagnosticCode::LaneConflict,
        ) + added_conflicts(
            final(target).lanes@,
            old(target).lanes@.len() as int,
            final(target).lanes@.len() as int,
        ),
        noted(
            old(diagnostics)@,
            final(diagnostics)@,
            append_notes(old(target).range, old(target).id.0, old(target).lanes@.len() as int, sidecar, strategy, final(target).lanes@),
        ),
{
    let ghost diagnostics_before = diagnostics@;
    let ghost target_before = *target;
    let ghost sidecar_line = sidecar;
    let target_id = target.id;
    let target_range = target.range;
    let sidecar_id = sidecar.id.get();
    let sidecar_start = sidecar.range.start;
    let ghost delta = line_delta(target_range.start, sidecar_start);
    let ordered = match strategy {
        MatchStrategy::Ordered => true,
        _ => false,
    };
    let mut lanes = sidecar.lanes;
    let ghost original = lanes@;
    let ghost overflows_before = code_count(diagnostics@, DiagnosticCode::TimeOverflow);
    let ghost ranges_before = code_count(diagnostics@, DiagnosticCode::InvalidRange);
    let ghost conflicts_before = code_count(diagnostics@, DiagnosticCode::LaneConflict);
    let ghost delta_overflow = if fits_i64(target_range.start.micros() - sidecar_start.micros()) {
        0int
    } else {
        1int
    };
    let ghost delta_notes: Seq<(DiagnosticCode, Seq<char>)> = if fits_i64(
        target_range.start.micros() - sidecar_start.micros(),
    ) {
        Seq::empty()
    } else {
        seq![delta_note(sidecar_id)]
    };
    proof {
        lemma_no_warning(diagnostics@, DiagnosticCode::TimeOverflow);
        lemma_noted_none(diagnostics@);
    }
    if ordered {
        let ghost opening = diagnostics@;
        let shift = time_delta(target_range.start, sidecar_start, sidecar_id, diagnostics);
        proof {
            lemma_match_counts_kept(opening, diagnostics@, DiagnosticCode::TimeOverflow);
            lemma_foreign_kept(opening, diagnostics@, DiagnosticCode::TimeOverflow);
            lemma_same_code_counted(opening, diagnostics@, DiagnosticCode::TimeOverflow);
            lemma_other_codes_kept(opening, diagnostics@, DiagnosticCode::TimeOverflow, DiagnosticCode::InvalidRange);
            lemma_other_codes_kept(opening, diagnostics@, DiagnosticCode::TimeOverflow, DiagnosticCode::LaneConflict);
            assert(delta_notes + lanes_shift_notes(original, delta, sidecar_id, 0) =~= delta_notes);
        }
        let mut l: usize = 0;
        while l < lanes.len()
            invariant
                l <= lanes@.len(),
                lanes@.len() == original.len(),
                shift == delta,
                ordered,
                forall|a: int| 0 <= a < l ==> lane_moved(original[a], #[trigger] lanes@[a], ordered, delta),
                forall|a: int| l <= a < lanes@.len() ==> #[trigger] lanes@[a] == original[a],
                warnings_added(diagnostics_before, diagnostics@),
                match_counts(diagnostics@) == match_counts(diagnostics_before),
                foreign_count(diagnostics@) == foreign_count(diagnostics_before),
                code_count(diagnostics@, DiagnosticCode::TimeOverflow) == overflows_before + delta_overflow
                    + lanes_overflows(original, delta, l as int),
                code_count(diagnostics@, DiagnosticCode::InvalidRange) == ranges_before,
                code_count(diagnostics@, DiagnosticCode::LaneConflict) == conflicts_before,
                noted(diagnostics_before, diagnostics@, delta_notes + lanes_shift_notes(original, delta, sidecar_id, l as int)),
            decreases original.len() - l,
        {
            let ghost step = diagnostics@;
            shift_segments(&mut lanes[l].segments, shift, sidecar_id, diagnostics);
            proof {
                lemma_warnings_added_trans(diagnostics_before, step, diagnostics@);
                lemma_match_counts_kept(step, diagnostics@, DiagnosticCode::TimeOverflow);
                lemma_foreign_kept(step, diagnostics@, DiagnosticCode::TimeOverflow);
                lemma_same_code_counted(step, diagnostics@, DiagnosticCode::TimeOverflow);
                lemma_other_codes_kept(step, diagnostics@, DiagnosticCode::TimeOverflow, DiagnosticCode::InvalidRange);
                lemma_other_codes_kept(step, diagnostics@, DiagnosticCode::TimeOverflow, DiagnosticCode::LaneConflict);
                lemma_noted_trans(
                    diagnostics_before,
                    step,
                    diagnostics@,
                    delta_notes + lanes_shift_notes(original, delta, sidecar_id, l as int),
                    shift_notes(original[l as int].segments@, delta, sidecar_id, original[l as int].segments@.len() as int),
                );
                assert(delta_notes + lanes_shift_notes(original, delta, sidecar_id, l + 1) =~= delta_notes
                    + lanes_shift_notes(original, delta, sidecar_id, l as int) + shift_notes(
                    original[l as int].segments@,
                    delta,
                    sidecar_id,
                    original[l as int].segments@.len() as int,
                ));
            }
            l += 1;
        }
    }
    let ghost shifting: Seq<(DiagnosticCode, Seq<char>)> = if ordered {
        delta_notes + lanes_shift_notes(original, delta, sidecar_id, original.len() as int)
    } else {
        Seq::empty()
    };
    let ghost diagnostics_shifted = diagnostics@;
    assert(noted(diagnostics_before, diagnostics_shifted, shifting));
    let ghost moved_lanes = lanes@;
    let ghost overflows_after = code_count(diagnostics@, DiagnosticCode::TimeOverflow);
    assert(overflows_after == overflows_before + if ordered {
        delta_overflow + lanes_overflows(original, delta, original.len() as int)
    } else {
        0int
    });
    assert forall|a: int| 0 <= a < original.len() implies lane_moved(original[a], #[trigger] moved_lanes[a], ordered, delta) by {
        if !ordered {
            assert(moved_lanes[a] == original[a]);
        }
    }
    let count = lanes.len();
    let mut rest = reversed(lanes);
    let ghost target_lanes = target.lanes@;
    proof {
        lemma_noted_none(diagnostics@);
    }
    let mut l: usize = 0;
    while l < count
        invariant
            l <= count,
            count == original.len(),
            moved_lanes.len() == original.len(),
            rest@.len() == count - l,
            forall|k: int| 0 <= k < rest@.len() ==> #[trigger] rest@[k] == moved_lanes[count - 1 - k],
            forall|a: int| 0 <= a < original.len() ==> lane_moved(original[a], #[trigger] moved_lanes[a], ordered, delta),
            ordered == strategy is Ordered,
            delta == line_delta(target_range.start, sidecar_start),
            target.id == target_id,
            target.range == target_range,
            target.lanes@.len() == target_lanes.len() + l,
            forall|a: int| 0 <= a < target_lanes.len() ==> #[trigger] target.lanes@[a] == target_lanes[a],
            forall|a: int|
                0 <= a < l ==> lane_placed(
                    #[trigger] original[a],
                    target.lanes@[target_lanes.len() + a],
                    strategy,
                    target_range,
                    sidecar_start,
                ),
            warnings_added(diagnostics_before, diagnostics@),
            match_counts(diagnostics@) == match_counts(diagnostics_before),
            foreign_count(diagnostics@) == foreign_count(diagnostics_before),
            code_count(diagnostics@, DiagnosticCode::TimeOverflow) == overflows_after,
            code_count(diagnostics@, DiagnosticCode::InvalidRange) == ranges_before + lanes_range_repairs(
                original,
                strategy,
                target_range,
                sidecar_start,
                l as int,
            ),
            code_count(diagnostics@, DiagnosticCode::LaneConflict) == conflicts_before + added_conflicts(
                target.lanes@,
                target_lanes.len() as int,
                target.lanes@.len() as int,
            ),
            noted(diagnostics_before, diagnostics_shifted, shifting),
            noted(
                diagnostics_shifted,
                diagnostics@,
                lanes_place_notes(
                    original,
                    target.lanes@,
                    target_lanes.len() as int,
                    strategy,
                    target_range,
                    sidecar_start,
                    target_id.0,
                    l as int,
                ),
            ),
        decreases count - l,
    {
        let ghost step = diagnostics@;
        let mut lane = rest.pop().unwrap();
        let ghost before_lane = lane;
        assert(before_lane == moved_lanes[l as int]);
        normalize_segments_to_line(&mut lane, target_range, target_id.get(), diagnostics);
        let ghost middle = diagnostics@;
        let ghost lane_notes = (if target_range.well_ordered() {
            Seq::empty()
        } else {
            seq![target_note(target_id.0)]
        }) + placed_segment_notes(
            original[l as int].segments@,
            strategy,
            target_range,
            sidecar_start,
            target_id.0,
            original[l as int].segments@.len() as int,
        );
        proof {
            lemma_placed_segment_notes(
                original[l as int],
                before_lane,
                ordered,
                delta,
                strategy,
                target_range,
                sidecar_start,
                target_id.0,
                original[l as int].segments@.len() as int,
            );
            assert(normalize_notes(before_lane.segments@, target_range, target_id.0) == lane_notes);
        }
        let ghost conflict = conflicts_with(target.lanes@, lane);
        proof {
            lemma_match_counts_kept(step, middle, DiagnosticCode::InvalidRange);
            lemma_foreign_kept(step, middle, DiagnosticCode::InvalidRange);
            lemma_same_code_counted(step, middle, DiagnosticCode::InvalidRange);
            lemma_other_codes_kept(step, middle, DiagnosticCode::InvalidRange, DiagnosticCode::TimeOverflow);
            lemma_other_codes_kept(step, middle, DiagnosticCode::InvalidRange, DiagnosticCode::LaneConflict);
            lemma_placed_flags(
                original[l as int],
                before_lane,
                ordered,
                delta,
                strategy,
                target_range,
                sidecar_start,
                original[l as int].segments@.len() as int,
            );
        }
        if has_conflict(&target.lanes, &lane) {
            let diagnostic = warning(
                DiagnosticCode::LaneConflict,
                numbered_message(
                    "line ",
                    target_id.get(),
                    " already contained this lane kind and language; both lanes were preserved",
                ),
            );
            proof {
                lemma_push_warning(diagnostics@, diagnostic);
                lemma_noted_push(diagnostics@, diagnostic);
            }
            diagnostics.push(diagnostic);
        } else {
            proof {
                lemma_no_warning(diagnostics@, DiagnosticCode::LaneConflict);
                lemma_noted_none(diagnostics@);
            }
        }
        let ghost conflict_notes: Seq<(DiagnosticCode, Seq<char>)> = if conflict {
            seq![conflict_note(target_id.0)]
        } else {
            Seq::empty()
        };
        proof {
            lemma_match_counts_kept(middle, diagnostics@, DiagnosticCode::LaneConflict);
            lemma_foreign_kept(middle, diagnostics@, DiagnosticCode::LaneConflict);
            lemma_same_code_counted(middle, diagnostics@, DiagnosticCode::LaneConflict);
            lemma_other_codes_kept(middle, diagnostics@, DiagnosticCode::LaneConflict, DiagnosticCode::TimeOverflow);
            lemma_other_codes_kept(middle, diagnostics@, DiagnosticCode::LaneConflict, DiagnosticCode::InvalidRange);
            lemma_warnings_added_trans(step, middle, diagnostics@);
            lemma_warnings_added_trans(diagnostics_before, step, diagnostics@);
            assert(lane_moved(original[l as int], before_lane, ordered, delta));
            assert forall|k: int| 0 <= k < original[l as int].segments@.len() implies (#[trigger] lane.segments@[k]).range
                == placed_range(original[l as int].segments@[k].range, strategy, target_range, sidecar_start) by {
                assert(before_lane.segments@[k].range == if ordered {
                    moved_range(original[l as int].segments@[k].range, delta)
                } else {
                    original[l as int].segments@[k].range
                });
            }
            assert forall|k: int| 0 <= k < original[l as int].segments@.len() implies (#[trigger] original[l as int].segments@[k]).text_range
                == lane.segments@[k].text_range by {
                assert(before_lane.segments@[k].text_range == original[l as int].segments@[k].text_range);
            }
        }
        let ghost lanes_before = target.lanes@;
        target.lanes.push(lane);
        proof {
            let n = lanes_before.len() as int;
            assert(target.lanes@.take(n) =~= lanes_before);
            assert(target.lanes@.take(n) =~= lanes_before.take(n));
            lemma_added_conflicts_prefix(target.lanes@, lanes_before, target_lanes.len() as int, n);
            lemma_noted_trans(step, middle, diagnostics@, lane_notes, conflict_notes);
            lemma_noted_trans(
                diagnostics_shifted,
                step,
                diagnostics@,
                lanes_place_notes(
                    original,
                    lanes_before,
                    target_lanes.len() as int,
                    strategy,
                    target_range,
                    sidecar_start,
                    target_id.0,
                    l as int,
                ),
                lane_notes + conflict_notes,
            );
            lemma_place_notes_prefix(
                original,
                lanes_before,
                target.lanes@,
                target_lanes.len() as int,
                strategy,
                target_range,
                sidecar_start,
                target_id.0,
                l as int,
            );
            assert(target.lanes@.take(n) =~= lanes_before);
            assert(target.lanes@[n] == lane);
            assert(lanes_place_notes(
                original,
                target.lanes@,
                target_lanes.len() as int,
                strategy,
                target_range,
                sidecar_start,
                target_id.0,
                l + 1,
            ) =~= lanes_place_notes(
                original,
                lanes_before,
                target_lanes.len() as int,
                strategy,
                target_range,
                sidecar_start,
                target_id.0,
                l as int,
            ) + (lane_notes + conflict_notes));
        }
        l += 1;
    }
    proof {
        lemma_noted_trans(
            diagnostics_before,
            diagnostics_shifted,
            diagnostics@,
            shifting,
            lanes_place_notes(
                original,
                target.lanes@,
                target_lanes.len() as int,
                strategy,
                target_range,
                sidecar_start,
                target_id.0,
                count as int,
            ),
        );
        assert(sidecar_line.lanes@ == original);
        assert(append_notes(target_before.range, target_before.id.0, target_before.lanes@.len() as int, sidecar_line, strategy, target.lanes@) == shifting + lanes_place_notes(
            original,
            target.lanes@,
            target_lanes.len() as int,
            strategy,
            target_range,
            sidecar_start,
            target_id.0,
            count as int,
        ));
    }
}

/// A line that matching finds lies among the primary lines.
pub proof fn lemma_found_in_bounds(
    keys: Seq<(LyricTime, LineId)>,
    sidecar: (LyricTime, LineId),
    strategy: MatchStrategy,
    ordered_index: int,
)
    requires
        keys.len() <= usize::MAX,
    ensures
        match_for(keys, sidecar, strategy, ordered_index) matches MatchResult::Found { index, .. }
            ==> index < keys.len(),
{
    if !(strategy is Ordered) && !(strategy is KeepSeparate) && exists|i: int|
        is_closest(keys, sidecar, strategy, i) {
        let i = choose|i: int| is_closest(keys, sidecar, strategy, i);
        assert(0 <= i < keys.len());
    }
}

/// The sidecar lines among the first `n` of `lines` that join no primary line, in order.
pub open spec fn unmatched_lines(
    keys: Seq<(LyricTime, LineId)>,
    lines: Seq<LyricLine>,
    strategy: MatchStrategy,
    n: int,
) -> Seq<LyricLine>
    decreases n,
{
    if n <= 0 || n > lines.len() {
        Seq::empty()
    } else {
        let earlier = unmatched_lines(keys, lines, strategy, n - 1);
        if match_for(keys, key_of(lines[n - 1]), strategy, n - 1) is Found {
            earlier
        } else {
            earlier.push(lines[n - 1])
        }
    }
}

/// The warning that reports how a sidecar line matched, if any: a match within a tolerance
/// that was not exact, an ambiguous match, or no match.
pub open spec fn match_code(result: MatchResult) -> Option<DiagnosticCode> {
    match result {
        MatchResult::Found { fuzzy_distance, .. } => if fuzzy_distance is Some {
            Some(DiagnosticCode::FuzzyMatch)
        } else {
            None
        },
        MatchResult::Ambiguous => Some(DiagnosticCode::AmbiguousMatch),
        MatchResult::Missing => Some(DiagnosticCode::UnmatchedSidecarLine),
    }
}

/// How many of the first `n` sidecar `lines` are reported with a warning of kind `code`.
pub open spec fn reported_matches(
    keys: Seq<(LyricTime, LineId)>,
    lines: Seq<LyricLine>,
    strategy: MatchStrategy,
    code: DiagnosticCode,
    n: int,
) -> int
    decreases n,
{
    if n <= 0 || n > lines.len() {
        0
    } else {
        reported_matches(keys, lines, strategy, code, n - 1) + if match_code(
            match_for(keys, key_of(lines[n - 1]), strategy, n - 1),
        ) == Some(code) {
            1int
        } else {
            0int
        }
    }
}

/// From `before` to `after`, the matching warnings grew by those of the first `n` sidecar
/// `lines`.
pub open spec fn matches_reported(
    before: Seq<Diagnostic>,
    after: Seq<Diagnostic>,
    keys: Seq<(LyricTime, LineId)>,
    lines: Seq<LyricLine>,
    strategy: MatchStrategy,
    n: int,
) -> bool {
    &&& code_count(after, DiagnosticCode::FuzzyMatch) == code_count(before, DiagnosticCode::FuzzyMatch)
        + reported_matches(keys, lines, strategy, DiagnosticCode::FuzzyMatch, n)
    &&& code_count(after, DiagnosticCode::AmbiguousMatch) == code_count(before, DiagnosticCode::AmbiguousMatch)
        + reported_matches(keys, lines, strategy, DiagnosticCode::AmbiguousMatch, n)
    &&& code_count(after, DiagnosticCode::UnmatchedSidecarLine) == code_count(
        before,
        DiagnosticCode::UnmatchedSidecarLine,
    ) + reported_matches(keys, lines, strategy, DiagnosticCode::UnmatchedSidecarLine, n)
}

/// How many warnings of kind `code` placing the sidecar line `line` on a primary line
/// spanning `target` gives: time overflows under `Ordered`, and range repairs.
pub open spec fn placement_warnings(target: TimeRange, line: LyricLine, strategy: MatchStrategy, code: DiagnosticCode) -> int {
    if code == DiagnosticCode::TimeOverflow {
        if strategy is Ordered {
            (if fits_i64(target.start.micros() - line.range.start.micros()) {
                0int
            } else {
                1int
            }) + lanes_overflows(line.lanes@, line_delta(target.start, line.range.start), line.lanes@.len() as int)
        } else {
            0int
        }
    } else if code == DiagnosticCode::InvalidRange {
        lanes_range_repairs(line.lanes@, strategy, target, line.range.start, line.lanes@.len() as int)
    } else {
        0int
    }
}

/// How many warnings of kind `code` placing the first `n` sidecar `lines` on the primary
/// lines `before` they match gives.
pub open spec fn track_placement_warnings(
    before: Seq<LyricLine>,
    lines: Seq<LyricLine>,
    strategy: MatchStrategy,
    code: DiagnosticCode,
    n: int,
) -> int
    decreases n,
{
    if n <= 0 || n > lines.len() {
        0
    } else {
        track_placement_warnings(before, lines, strategy, code, n - 1) + match match_for(
            line_keys(before),
            key_of(lines[n - 1]),
            strategy,
            n - 1,
        ) {
            MatchResult::Found { index, .. } => placement_warnings(before[index as int].range, lines[n - 1], strategy, code),
            _ => 0int,
        }
    }
}

/// How many lanes the first `n` of the sidecar `lines` add to primary line `i`.
pub open spec fn lanes_added(
    keys: Seq<(LyricTime, LineId)>,
    lines: Seq<LyricLine>,
    strategy: MatchStrategy,
    i: int,
    n: int,
) -> int
    decreases n,
{
    if n <= 0 || n > lines.len() {
        0
    } else {
        lanes_added(keys, lines, strategy, i, n - 1) + match match_for(
            keys,
            key_of(lines[n - 1]),
            strategy,
            n - 1,
        ) {
            MatchResult::Found { index, .. } => if index == i {
                lines[n - 1].lanes@.len() as int
            } else {
                0int
            },
            _ => 0int,
        }
    }
}

pub proof fn lemma_lanes_added_grow(
    keys: Seq<(LyricTime, LineId)>,
    lines: Seq<LyricLine>,
    strategy: MatchStrategy,
    i: int,
    m: int,
    n: int,
)
    requires
        0 <= m <= n <= lines.len(),
    ensures
        0 <= lanes_added(keys, lines, strategy, i, m) <= lanes_added(keys, lines, strategy, i, n),
    decreases n,
{
    if m < n {
        lemma_lanes_added_grow(keys, lines, strategy, i, m, n - 1);
    } else if n > 0 {
        lemma_lanes_added_grow(keys, lines, strategy, i, n - 1, n - 1);
    }
}

/// The lanes of sidecar line `j` stand, as placed, on the primary line it matched, after
/// the lanes that earlier sidecar lines added there.
pub open spec fn placed_at(
    before: Seq<LyricLine>,
    after: Seq<LyricLine>,
    sidecar_lines: Seq<LyricLine>,
    strategy: MatchStrategy,
    j: int,
) -> bool {
    let keys = line_keys(before);
    match match_for(keys, key_of(sidecar_lines[j]), strategy, j) {
        MatchResult::Found { index, .. } => forall|l: int|
            0 <= l < sidecar_lines[j].lanes@.len() ==> lane_placed(
                #[trigger] sidecar_lines[j].lanes@[l],
                after[index as int].lanes@[before[index as int].lanes@.len() + lanes_added(
                    keys,
                    sidecar_lines,
                    strategy,
                    index as int,
                    j,
                ) + l],
                strategy,
                before[index as int].range,
                sidecar_lines[j].range.start,
            ),
        _ => true,
    }
}

/// `after` holds the lines of `before`, each with its id, range and lanes kept and possibly
/// more lanes after them.
pub open spec fn lines_extended(before: Seq<LyricLine>, after: Seq<LyricLine>) -> bool {
    &&& after.len() == before.len()
    &&& forall|i: int|
        0 <= i < before.len() ==> {
            &&& (#[trigger] after[i]).id == before[i].id
            &&& after[i].range == before[i].range
            &&& before[i].lanes@.len() <= after[i].lanes@.len()
            &&& forall|a: int|
                0 <= a < before[i].lanes@.len() ==> #[trigger] after[i].lanes@[a] == before[i].lanes@[a]
        }
}

pub proof fn lemma_lines_extended_trans(a: Seq<LyricLine>, b: Seq<LyricLine>, c: Seq<LyricLine>)
    requires
        lines_extended(a, b),
        lines_extended(b, c),
    ensures
        lines_extended(a, c),
{
    assert forall|i: int| 0 <= i < a.len() implies {
        &&& (#[trigger] c[i]).id == a[i].id
        &&& c[i].range == a[i].range
        &&& a[i].lanes@.len() <= c[i].lanes@.len()
        &&& forall|q: int| 0 <= q < a[i].lanes@.len() ==> #[trigger] c[i].lanes@[q] == a[i].lanes@[q]
    } by {
        assert(b[i].id == a[i].id);
        assert forall|q: int| 0 <= q < a[i].lanes@.len() implies #[trigger] c[i].lanes@[q] == a[i].lanes@[q] by {
            assert(b[i].lanes@[q] == a[i].lanes@[q]);
            assert(c[i].lanes@[q] == b[i].lanes@[q]);
        }
    }
}

/// The warnings sidecar line `j` of `lines` gives when joining the primary lines `before`,
/// whose lanes end up as `after`; `prior(i)` lanes were added to line `i` before this run of
/// sidecar lines: the matching warning of the line, then, when it joined a line, those of
/// joining it there.
pub open spec fn line_notes(
    before: Seq<LyricLine>,
    after: Seq<LyricLine>,
    lines: Seq<LyricLine>,
    strategy: MatchStrategy,
    prior: spec_fn(int) -> int,
    j: int,
) -> Seq<(DiagnosticCode, Seq<char>)> {
    let keys = line_keys(before);
    line_match_notes(keys, lines, strategy, j) + match match_for(keys, key_of(lines[j]), strategy, j) {
        MatchResult::Found { index, .. } => append_notes(
            before[index as int].range,
            before[index as int].id.0,
            before[index as int].lanes@.len() + prior(index as int) + lanes_added(
                keys,
                lines,
                strategy,
                index as int,
                j,
            ),
            lines[j],
            strategy,
            after[index as int].lanes@,
        ),
        _ => Seq::empty(),
    }
}

/// The warnings of the first `n` sidecar `lines`, in order.
pub open spec fn lines_notes(
    before: Seq<LyricLine>,
    after: Seq<LyricLine>,
    lines: Seq<LyricLine>,
    strategy: MatchStrategy,
    prior: spec_fn(int) -> int,
    n: int,
) -> Seq<(DiagnosticCode, Seq<char>)>
    decreases n,
{
    if n <= 0 || n > lines.len() {
        Seq::empty()
    } else {
        lines_notes(before, after, lines, strategy, prior, n - 1) + line_notes(
            before,
            after,
            lines,
            strategy,
            prior,
            n - 1,
        )
    }
}

/// The warnings of the first `n` sidecar lines stay what they were while the primary lines
/// only gain lanes after the ones those lines added.
proof fn lemma_lines_notes_stable(
    before: Seq<LyricLine>,
    a: Seq<LyricLine>,
    b: Seq<LyricLine>,
    lines: Seq<LyricLine>,
    strategy: MatchStrategy,
    prior: spec_fn(int) -> int,
    n: int,
)
    requires
        0 <= n <= lines.len(),
        before.len() <= usize::MAX,
        lines_extended(a, b),
        a.len() == before.len(),
        forall|i: int|
            0 <= i < before.len() ==> prior(i) >= 0 && (#[trigger] a[i]).lanes@.len() >= before[i].lanes@.len()
                + prior(i) + lanes_added(line_keys(before), lines, strategy, i, n),
    ensures
        lines_notes(before, a, lines, strategy, prior, n) == lines_notes(before, b, lines, strategy, prior, n),
    decreases n,
{
    if n > 0 {
        let keys = line_keys(before);
        assert forall|i: int| 0 <= i < before.len() implies prior(i) >= 0 && (#[trigger] a[i]).lanes@.len()
            >= before[i].lanes@.len() + prior(i) + lanes_added(keys, lines, strategy, i, n - 1) by {
            lemma_lanes_added_grow(keys, lines, strategy, i, n - 1, n);
        }
        lemma_lines_notes_stable(before, a, b, lines, strategy, prior, n - 1);
        let j = n - 1;
        lemma_found_in_bounds(keys, key_of(lines[j]), strategy, j);
        match match_for(keys, key_of(lines[j]), strategy, j) {
            MatchResult::Found { index, .. } => {
                let f = index as int;
                let base = before[f].lanes@.len() + prior(f) + lanes_added(keys, lines, strategy, f, j);
                let count = lines[j].lanes@.len() as int;
                lemma_lanes_added_grow(keys, lines, strategy, f, 0, j);
                assert(base + count == before[f].lanes@.len() + prior(f) + lanes_added(keys, lines, strategy, f, n));
                assert(a[f].lanes@.take(base + count) =~= b[f].lanes@.take(base + count));
                lemma_place_notes_prefix(
                    lines[j].lanes@,
                    a[f].lanes@,
                    b[f].lanes@,
                    base,
                    strategy,
                    before[f].range,
                    lines[j].range.start,
                    before[f].id.0,
                    count,
                );
            },
            _ => {},
        }
    }
}

/// Line notes rest on the primary lines only through their keys, ranges, ids and lane
/// counts: lines that gained `prior(i)` lanes give the notes the originals give with that
/// prior.
proof fn lemma_lines_notes_rebase(
    before: Seq<LyricLine>,
    step: Seq<LyricLine>,
    after: Seq<LyricLine>,
    lines: Seq<LyricLine>,
    strategy: MatchStrategy,
    prior: spec_fn(int) -> int,
    n: int,
)
    requires
        0 <= n <= lines.len(),
        before.len() <= usize::MAX,
        step.len() == before.len(),
        line_keys(step) == line_keys(before),
        forall|i: int|
            0 <= i < before.len() ==> (#[trigger] step[i]).range == before[i].range && step[i].id == before[i].id
                && step[i].lanes@.len() == before[i].lanes@.len() + prior(i),
    ensures
        lines_notes(step, after, lines, strategy, |i: int| 0int, n) == lines_notes(before, after, lines, strategy, prior, n),
    decreases n,
{
    if n > 0 {
        lemma_lines_notes_rebase(before, step, after, lines, strategy, prior, n - 1);
        let keys = line_keys(before);
        lemma_found_in_bounds(keys, key_of(lines[n - 1]), strategy, n - 1);
        match match_for(keys, key_of(lines[n - 1]), strategy, n - 1) {
            MatchResult::Found { index, .. } => {
                let f = index as int;
                assert(step[f].range == before[f].range);
            },
            _ => {},
        }
    }
}

/// The warnings of the lines of the first `m` sidecar `tracks` joining the primary lines
/// `before`, whose lanes end up as `after`, in order; the lines of track `q` come after the
/// lanes that the earlier tracks added.
pub open spec fn tracks_notes(
    before: Seq<LyricLine>,
    after: Seq<LyricLine>,
    tracks: Seq<LyricTrack>,
    strategy: MatchStrategy,
    m: int,
) -> Seq<(DiagnosticCode, Seq<char>)>
    decreases m,
{
    if m <= 0 || m > tracks.len() {
        Seq::empty()
    } else {
        tracks_notes(before, after, tracks, strategy, m - 1) + lines_notes(
            before,
            after,
            tracks[m - 1].lines@,
            strategy,
            |i: int| track_lanes_added(line_keys(before), tracks, strategy, i, m - 1),
            tracks[m - 1].lines@.len() as int,
        )
    }
}

proof fn lemma_tracks_notes_stable(
    before: Seq<LyricLine>,
    a: Seq<LyricLine>,
    b: Seq<LyricLine>,
    tracks: Seq<LyricTrack>,
    strategy: MatchStrategy,
    m: int,
)
    requires
        0 <= m <= tracks.len(),
        before.len() <= usize::MAX,
        lines_extended(a, b),
        a.len() == before.len(),
        forall|i: int|
            0 <= i < before.len() ==> (#[trigger] a[i]).lanes@.len() >= before[i].lanes@.len() + track_lanes_added(
                line_keys(before),
                tracks,
                strategy,
                i,
                m,
            ),
    ensures
        tracks_notes(before, a, tracks, strategy, m) == tracks_notes(before, b, tracks, strategy, m),
    decreases m,
{
    if m > 0 {
        let keys = line_keys(before);
        assert forall|i: int| 0 <= i < before.len() implies (#[trigger] a[i]).lanes@.len() >= before[i].lanes@.len()
            + track_lanes_added(keys, tracks, strategy, i, m - 1) by {
            lemma_track_lanes_added_grow(keys, tracks, strategy, i, m - 1, m);
        }
        lemma_tracks_notes_stable(before, a, b, tracks, strategy, m - 1);
        let prior = |i: int| track_lanes_added(keys, tracks, strategy, i, m - 1);
        let lines = tracks[m - 1].lines@;
        assert forall|i: int| 0 <= i < before.len() implies prior(i) >= 0 && (#[trigger] a[i]).lanes@.len()
            >= before[i].lanes@.len() + prior(i) + lanes_added(keys, lines, strategy, i, lines.len() as int) by {
            lemma_track_lanes_added_grow(keys, tracks, strategy, i, 0, m - 1);
        }
        lemma_lines_notes_stable(before, a, b, lines, strategy, prior, lines.len() as int);
    }
}

/// The warning a negative timestamp tolerance gives, before any other.
pub open spec fn opening_notes(strategy: MatchStrategy) -> Seq<(DiagnosticCode, Seq<char>)> {
    if negative_tolerance(strategy) {
        seq![(DiagnosticCode::InvalidRange, "negative timestamp tolerance was treated as zero"@)]
    } else {
        Seq::empty()
    }
}

fn fuzzy_message(sidecar_id: u64, distance: u64) -> (message: String)
    ensures
        message@ == "sidecar line "@ + decimal_text(sidecar_id as nat) + " matched within a "@ + decimal_text(
            distance as nat,
        ) + "\u{b5}s timestamp tolerance"@,
{
    let mut message = numbered_message("sidecar line ", sidecar_id, " matched within a ");
    push_decimal_text(&mut message, distance);
    message.append("\u{b5}s timestamp tolerance");
    message
}

#[verifier::rlimit(80)]
fn merge_track(
    target: &mut LyricTrack,
    sidecar: LyricTrack,
    strategy: MatchStrategy,
    diagnostics: &mut Vec<Diagnostic>,
) -> (rest: Option<LyricTrack>)
    ensures
        final(target).kind == old(target).kind,
        final(target).language == old(target).language,
        lines_extended(old(target).lines@, final(target).lines@),
        forall|i: int|
            0 <= i < old(target).lines@.len() ==> (#[trigger] final(target).lines@[i]).lanes@.len()
                == old(target).lines@[i].lanes@.len() + lanes_added(
                line_keys(old(target).lines@),
                sidecar.lines@,
                strategy,
                i,
                sidecar.lines@.len() as int,
            ),
        forall|j: int|
            0 <= j < sidecar.lines@.len() ==> #[trigger] placed_at(
                old(target).lines@,
                final(target).lines@,
                sidecar.lines@,
                strategy,
                j,
            ),
        match rest {
            Some(track) => {
                &&& track.kind == sidecar.kind
                &&& track.language == sidecar.language
                &&& track.lines@ == unmatched_lines(
                    line_keys(old(target).lines@),
                    sidecar.lines@,
                    strategy,
                    sidecar.lines@.len() as int,
                )
                &&& track.lines@.len() > 0
            },
            None => unmatched_lines(
                line_keys(old(target).lines@),
                sidecar.lines@,
                strategy,
                sidecar.lines@.len() as int,
            ).len() == 0,
        },
        warnings_added(old(diagnostics)@, final(diagnostics)@),
        noted(
            old(diagnostics)@,
            final(diagnostics)@,
            lines_notes(
                old(target).lines@,
                final(target).lines@,
                sidecar.lines@,
                strategy,
                |i: int| 0int,
                sidecar.lines@.len() as int,
            ),
        ),
        match_marks(final(diagnostics)@) == match_marks(old(diagnostics)@) + lines_match_notes(
            line_keys(old(target).lines@),
            sidecar.lines@,
            strategy,
            sidecar.lines@.len() as int,
        ),
        matches_reported(
            old(diagnostics)@,
            final(diagnostics)@,
            line_keys(old(target).lines@),
            sidecar.lines@,
            strategy,
            sidecar.lines@.len() as int,
        ),
        code_count(final(diagnostics)@, DiagnosticCode::TimeOverflow) == code_count(
            old(diagnostics)@,
            DiagnosticCode::TimeOverflow,
        ) + track_placement_warnings(
            old(target).lines@,
            sidecar.lines@,
            strategy,
            DiagnosticCode::TimeOverflow,
            sidecar.lines@.len() as int,
        ),
        code_count(final(diagnostics)@, DiagnosticCode::InvalidRange) == code_count(
            old(diagnostics)@,
            DiagnosticCode::InvalidRange,
        ) + track_placement_warnings(
            old(target).lines@,
            sidecar.lines@,
            strategy,
            DiagnosticCode::InvalidRange,
            sidecar.lines@.len() as int,
        ),
        code_count(final(diagnostics)@, DiagnosticCode::LaneConflict) == code_count(
            old(diagnostics)@,
            DiagnosticCode::LaneConflict,
        ) + lines_conflicts(old(target).lines@, final(target).lines@, old(target).lines@.len() as int),
        foreign_count(final(diagnostics)@) == foreign_count(old(diagnostics)@),
{
    let ghost diagnostics_before = diagnostics@;
    let ghost before = target.lines@;
    let ghost keys = line_keys(target.lines@);
    let target_count = target.lines.len();
    let ghost kind_before = target.kind;
    let ghost language_before = target.language;
    let LyricTrack { language, kind, lines } = sidecar;
    let ghost sidecar_lines = lines@;
    let ghost zero = |i: int| 0int;
    let count = lines.len();
    let mut pending = reversed(lines);
    let mut unmatched: Vec<LyricLine> = Vec::new();
    proof {
        lemma_no_warning(diagnostics@, DiagnosticCode::FuzzyMatch);
        lemma_noted_none(diagnostics@);
        assert(lines_extended(before, before));
        lemma_lines_conflicts_none(before, before.len() as int);
    }
    let mut j: usize = 0;
    while j < count
        invariant
            j <= count,
            count == sidecar_lines.len(),
            pending@.len() == count - j,
            forall|k: int| 0 <= k < pending@.len() ==> #[trigger] pending@[k] == sidecar_lines[count - 1 - k],
            keys == line_keys(before),
            before.len() <= usize::MAX,
            target.kind == kind_before,
            target.language == language_before,
            lines_extended(before, target.lines@),
            forall|i: int|
                0 <= i < before.len() ==> (#[trigger] target.lines@[i]).lanes@.len() == before[i].lanes@.len()
                    + lanes_added(keys, sidecar_lines, strategy, i, j as int),
            forall|q: int| 0 <= q < j ==> #[trigger] placed_at(before, target.lines@, sidecar_lines, strategy, q),
            unmatched@ == unmatched_lines(keys, sidecar_lines, strategy, j as int),
            warnings_added(diagnostics_before, diagnostics@),
            zero == (|i: int| 0int),
            noted(diagnostics_before, diagnostics@, lines_notes(before, target.lines@, sidecar_lines, strategy, zero, j as int)),
            match_marks(diagnostics@) == match_marks(diagnostics_before) + lines_match_notes(
                keys,
                sidecar_lines,
                strategy,
                j as int,
            ),
            matches_reported(diagnostics_before, diagnostics@, keys, sidecar_lines, strategy, j as int),
            code_count(diagnostics@, DiagnosticCode::TimeOverflow) == code_count(
                diagnostics_before,
                DiagnosticCode::TimeOverflow,
            ) + track_placement_warnings(before, sidecar_lines, strategy, DiagnosticCode::TimeOverflow, j as int),
            code_count(diagnostics@, DiagnosticCode::InvalidRange) == code_count(
                diagnostics_before,
                DiagnosticCode::InvalidRange,
            ) + track_placement_warnings(before, sidecar_lines, strategy, DiagnosticCode::InvalidRange, j as int),
            code_count(diagnostics@, DiagnosticCode::LaneConflict) == code_count(
                diagnostics_before,
                DiagnosticCode::LaneConflict,
            ) + lines_conflicts(before, target.lines@, before.len() as int),
            foreign_count(diagnostics@) == foreign_count(diagnostics_before),
        decreases count - j,
    {
        let ghost step = diagnostics@;
        let ghost lines_step = target.lines@;
        assert(forall|i: int|
            0 <= i < before.len() ==> (#[trigger] lines_step[i]).lanes@.len() == before[i].lanes@.len() + lanes_added(
                keys,
                sidecar_lines,
                strategy,
                i,
                j as int,
            ));
        let sidecar_line = pending.pop().unwrap();
        assert(sidecar_line == sidecar_lines[j as int]);
        assert(line_keys(target.lines@) =~= keys);
        let result = find_match(&target.lines, &sidecar_line, strategy, j);
        proof {
            lemma_found_in_bounds(keys, key_of(sidecar_line), strategy, j as int);
        }
        match result {
            MatchResult::Found { index, fuzzy_distance } => {
                match fuzzy_distance {
                    Some(distance) => {
                        let diagnostic = warning(
                            DiagnosticCode::FuzzyMatch,
                            fuzzy_message(sidecar_line.id.get(), distance),
                        );
                        proof {
                            lemma_push_warning(diagnostics@, diagnostic);
                    lemma_match_marks_push(diagnostics@, diagnostic);
                    lemma_noted_push(diagnostics@, diagnostic);
                            lemma_match_marks_push(diagnostics@, diagnostic);
                            lemma_code_count_push(diagnostics@, diagnostic, DiagnosticCode::FuzzyMatch);
                            lemma_code_count_push(diagnostics@, diagnostic, DiagnosticCode::AmbiguousMatch);
                            lemma_code_count_push(diagnostics@, diagnostic, DiagnosticCode::UnmatchedSidecarLine);
                            lemma_code_count_push(diagnostics@, diagnostic, DiagnosticCode::TimeOverflow);
                            lemma_code_count_push(diagnostics@, diagnostic, DiagnosticCode::InvalidRange);
                            lemma_code_count_push(diagnostics@, diagnostic, DiagnosticCode::LaneConflict);
                            lemma_foreign_kept(diagnostics@, diagnostics@.push(diagnostic), diagnostic.code);
                        }
                        diagnostics.push(diagnostic);
                    },
                    None => {
                        proof {
                            lemma_no_warning(diagnostics@, DiagnosticCode::FuzzyMatch);
                            lemma_noted_none(diagnostics@);
                        }
                    },
                }
                let ghost middle = diagnostics@;
                let ghost sidecar_lanes = sidecar_line.lanes@;
                let ghost step_lanes = lines_step[index as int].lanes@;
                append_lanes(&mut target.lines[index], sidecar_line, strategy, diagnostics);
                proof {
                    let f = index as int;
                    let fuzzy = line_match_notes(keys, sidecar_lines, strategy, j as int);
                    assert(noted(step, middle, fuzzy));
                    lemma_noted_trans(
                        step,
                        middle,
                        diagnostics@,
                        fuzzy,
                        append_notes(
                            lines_step[f].range,
                            lines_step[f].id.0,
                            step_lanes.len() as int,
                            sidecar_line,
                            strategy,
                            target.lines@[f].lanes@,
                        ),
                    );
                }
                proof {
                    assert(lines_step[index as int].range == before[index as int].range);
                    lemma_match_marks_kept(middle, diagnostics@);
                    lemma_warnings_added_trans(step, middle, diagnostics@);
                    let i = index as int;
                    assert(lines_extended(lines_step, target.lines@)) by {
                        assert forall|x: int| 0 <= x < lines_step.len() implies {
                            &&& (#[trigger] target.lines@[x]).id == lines_step[x].id
                            &&& target.lines@[x].range == lines_step[x].range
                            &&& lines_step[x].lanes@.len() <= target.lines@[x].lanes@.len()
                            &&& forall|a: int|
                                0 <= a < lines_step[x].lanes@.len() ==> #[trigger] target.lines@[x].lanes@[a]
                                    == lines_step[x].lanes@[a]
                        } by {
                            if x != i {
                                assert(target.lines@[x] == lines_step[x]);
                            }
                        }
                    }
                    lemma_lines_extended_trans(before, lines_step, target.lines@);
                    lemma_lines_conflicts_split(before, lines_step, target.lines@, before.len() as int);
                    assert forall|x: int| 0 <= x < lines_step.len() && x != i implies #[trigger] target.lines@[x]
                        == lines_step[x] by {}
                    lemma_lines_conflicts_single(lines_step, target.lines@, i, before.len() as int);
                    assert forall|x: int| 0 <= x < before.len() implies (#[trigger] target.lines@[x]).lanes@.len()
                        == before[x].lanes@.len() + lanes_added(keys, sidecar_lines, strategy, x, j + 1) by {
                        if x != i {
                            assert(target.lines@[x] == lines_step[x]);
                        }
                    }
                    assert forall|q: int| 0 <= q <= j implies #[trigger] placed_at(before, target.lines@, sidecar_lines, strategy, q) by {
                        if q < j {
                            assert(placed_at(before, lines_step, sidecar_lines, strategy, q));
                            lemma_found_in_bounds(keys, key_of(sidecar_lines[q]), strategy, q);
                            match match_for(keys, key_of(sidecar_lines[q]), strategy, q) {
                                MatchResult::Found { index: found, .. } => {
                                    let f = found as int;
                                    lemma_lanes_added_grow(keys, sidecar_lines, strategy, f, q + 1, j as int);
                                    lemma_lanes_added_grow(keys, sidecar_lines, strategy, f, q, j as int);
                                    assert forall|l: int| 0 <= l < sidecar_lines[q].lanes@.len() implies lane_placed(
                                        #[trigger] sidecar_lines[q].lanes@[l],
                                        target.lines@[f].lanes@[before[f].lanes@.len() + lanes_added(
                                            keys,
                                            sidecar_lines,
                                            strategy,
                                            f,
                                            q,
                                        ) + l],
                                        strategy,
                                        before[f].range,
                                        sidecar_lines[q].range.start,
                                    ) by {
                                        let p = before[f].lanes@.len() + lanes_added(keys, sidecar_lines, strategy, f, q) + l;
                                        assert(p < lines_step[f].lanes@.len());
                                        if f == i {
                                            assert(target.lines@[i].id == lines_step[i].id);
                                            assert(target.lines@[i].lanes@[p] == lines_step[i].lanes@[p]);
                                        } else {
                                            assert(target.lines@[f] == lines_step[f]);
                                        }
                                    }
                                },
                                _ => {},
                            }
                        } else {
                            lemma_lanes_added_grow(keys, sidecar_lines, strategy, i, 0, j as int);
                            assert forall|l: int| 0 <= l < sidecar_lines[q].lanes@.len() implies lane_placed(
                                #[trigger] sidecar_lines[q].lanes@[l],
                                target.lines@[i].lanes@[before[i].lanes@.len() + lanes_added(
                                    keys,
                                    sidecar_lines,
                                    strategy,
                                    i,
                                    q,
                                ) + l],
                                strategy,
                                before[i].range,
                                sidecar_lines[q].range.start,
                            ) by {
                                assert(sidecar_lanes[l] == sidecar_lines[q].lanes@[l]);
                            }
                        }
                    }
                }
            },
            MatchResult::Ambiguous => {
                let diagnostic = warning(
                    DiagnosticCode::AmbiguousMatch,
                    numbered_message(
                        "sidecar line ",
                        sidecar_line.id.get(),
                        " matched more than one primary line and was kept separate",
                    ),
                );
                proof {
                    lemma_push_warning(diagnostics@, diagnostic);
                    lemma_match_marks_push(diagnostics@, diagnostic);
                    lemma_noted_push(diagnostics@, diagnostic);
                    lemma_code_count_push(diagnostics@, diagnostic, DiagnosticCode::FuzzyMatch);
                    lemma_code_count_push(diagnostics@, diagnostic, DiagnosticCode::AmbiguousMatch);
                    lemma_code_count_push(diagnostics@, diagnostic, DiagnosticCode::UnmatchedSidecarLine);
                    lemma_code_count_push(diagnostics@, diagnostic, DiagnosticCode::TimeOverflow);
                    lemma_code_count_push(diagnostics@, diagnostic, DiagnosticCode::InvalidRange);
                    lemma_code_count_push(diagnostics@, diagnostic, DiagnosticCode::LaneConflict);
                    lemma_foreign_kept(diagnostics@, diagnostics@.push(diagnostic), diagnostic.code);
                }
                diagnostics.push(diagnostic);
                unmatched.push(sidecar_line);
            },
            MatchResult::Missing => {
                let diagnostic = warning(
                    DiagnosticCode::UnmatchedSidecarLine,
                    numbered_message(
                        "sidecar line ",
                        sidecar_line.id.get(),
                        " had no safe primary match and was kept separate",
                    ),
                );
                proof {
                    lemma_push_warning(diagnostics@, diagnostic);
                    lemma_match_marks_push(diagnostics@, diagnostic);
                    lemma_noted_push(diagnostics@, diagnostic);
                    lemma_code_count_push(diagnostics@, diagnostic, DiagnosticCode::FuzzyMatch);
                    lemma_code_count_push(diagnostics@, diagnostic, DiagnosticCode::AmbiguousMatch);
                    lemma_code_count_push(diagnostics@, diagnostic, DiagnosticCode::UnmatchedSidecarLine);
                    lemma_code_count_push(diagnostics@, diagnostic, DiagnosticCode::TimeOverflow);
                    lemma_code_count_push(diagnostics@, diagnostic, DiagnosticCode::InvalidRange);
                    lemma_code_count_push(diagnostics@, diagnostic, DiagnosticCode::LaneConflict);
                    lemma_foreign_kept(diagnostics@, diagnostics@.push(diagnostic), diagnostic.code);
                }
                diagnostics.push(diagnostic);
                unmatched.push(sidecar_line);
            },
        }
        proof {
            let this = line_notes(before, target.lines@, sidecar_lines, strategy, zero, j as int);
            assert(lines_extended(lines_step, target.lines@)) by {
                assert forall|x: int| 0 <= x < lines_step.len() implies {
                    &&& (#[trigger] target.lines@[x]).id == lines_step[x].id
                    &&& target.lines@[x].range == lines_step[x].range
                    &&& lines_step[x].lanes@.len() <= target.lines@[x].lanes@.len()
                    &&& forall|a: int|
                        0 <= a < lines_step[x].lanes@.len() ==> #[trigger] target.lines@[x].lanes@[a]
                            == lines_step[x].lanes@[a]
                } by {
                    assert(lines_extended(before, lines_step));
                    assert(lines_extended(before, target.lines@));
                    assert(before[x].id == lines_step[x].id);
                }
            }
            assert forall|i: int| 0 <= i < before.len() implies zero(i) >= 0 && (#[trigger] lines_step[i]).lanes@.len()
                >= before[i].lanes@.len() + zero(i) + lanes_added(keys, sidecar_lines, strategy, i, j as int) by {
                assert(zero(i) == 0);
            }
            lemma_lines_notes_stable(before, lines_step, target.lines@, sidecar_lines, strategy, zero, j as int);
            lemma_found_in_bounds(keys, key_of(sidecar_lines[j as int]), strategy, j as int);
            assert(noted(step, diagnostics@, this));
            lemma_noted_trans(
                diagnostics_before,
                step,
                diagnostics@,
                lines_notes(before, target.lines@, sidecar_lines, strategy, zero, j as int),
                this,
            );
            lemma_warnings_added_trans(diagnostics_before, step, diagnostics@);
            assert(match_marks(diagnostics@) =~= match_marks(diagnostics_before) + lines_match_notes(
                keys,
                sidecar_lines,
                strategy,
                j + 1,
            ));
        }
        j += 1;
    }
    if unmatched.len() == 0 {
        None
    } else {
        Some(LyricTrack { language, kind, lines: unmatched })
    }
}

/// The first track at or after `from` whose lanes are original lyrics.
pub open spec fn first_original(tracks: Seq<LyricTrack>, from: int) -> Option<int>
    decreases tracks.len() - from,
{
    if from < 0 || from >= tracks.len() {
        None
    } else if tracks[from].kind is Original {
        Some(from)
    } else {
        first_original(tracks, from + 1)
    }
}

/// The track that sidecar lines join: the first original track, else the first track.
pub open spec fn target_track(tracks: Seq<LyricTrack>) -> int {
    match first_original(tracks, 0) {
        Some(i) => i,
        None => 0,
    }
}

proof fn lemma_first_original_bounds(tracks: Seq<LyricTrack>, from: int)
    requires
        0 <= from,
    ensures
        first_original(tracks, from) matches Some(i) ==> from <= i < tracks.len(),
    decreases tracks.len() - from,
{
    if from < tracks.len() && !(tracks[from].kind is Original) {
        lemma_first_original_bounds(tracks, from + 1);
    }
}

fn target_track_index(tracks: &Vec<LyricTrack>) -> (index: usize)
    requires
        tracks@.len() > 0,
    ensures
        index == target_track(tracks@),
        index < tracks@.len(),
{
    let mut i: usize = 0;
    while i < tracks.len()
        invariant
            i <= tracks@.len(),
            first_original(tracks@, 0) == first_original(tracks@, i as int),
        decreases tracks@.len() - i,
    {
        if tracks[i].kind.is_original() {
            proof {
                lemma_first_original_bounds(tracks@, 0);
            }
            return i;
        }
        i += 1;
    }
    0
}

/// The lines of the sidecar track `track` that join no primary line with keys `keys`.
pub open spec fn remnant_of(
    keys: Seq<(LyricTime, LineId)>,
    track: LyricTrack,
    strategy: MatchStrategy,
) -> Seq<LyricLine> {
    unmatched_lines(keys, track.lines@, strategy, track.lines@.len() as int)
}

/// How many of the first `m` sidecar tracks leave lines that join no primary line.
pub open spec fn remnant_count(
    keys: Seq<(LyricTime, LineId)>,
    tracks: Seq<LyricTrack>,
    strategy: MatchStrategy,
    m: int,
) -> int
    decreases m,
{
    if m <= 0 || m > tracks.len() {
        0
    } else {
        remnant_count(keys, tracks, strategy, m - 1) + if remnant_of(keys, tracks[m - 1], strategy).len()
            > 0 {
            1int
        } else {
            0int
        }
    }
}

proof fn lemma_remnant_count_grow(
    keys: Seq<(LyricTime, LineId)>,
    tracks: Seq<LyricTrack>,
    strategy: MatchStrategy,
    m: int,
    n: int,
)
    requires
        0 <= m <= n <= tracks.len(),
    ensures
        0 <= remnant_count(keys, tracks, strategy, m) <= remnant_count(keys, tracks, strategy, n),
    decreases n,
{
    if m < n {
        lemma_remnant_count_grow(keys, tracks, strategy, m, n - 1);
    } else if n > 0 {
        lemma_remnant_count_grow(keys, tracks, strategy, n - 1, n - 1);
    }
}

/// How many lanes the first `m` sidecar tracks add to line `i` of the target track.
pub open spec fn track_lanes_added(
    keys: Seq<(LyricTime, LineId)>,
    tracks: Seq<LyricTrack>,
    strategy: MatchStrategy,
    i: int,
    m: int,
) -> int
    decreases m,
{
    if m <= 0 || m > tracks.len() {
        0
    } else {
        track_lanes_added(keys, tracks, strategy, i, m - 1) + lanes_added(
            keys,
            tracks[m - 1].lines@,
            strategy,
            i,
            tracks[m - 1].lines@.len() as int,
        )
    }
}

proof fn lemma_track_lanes_added_grow(
    keys: Seq<(LyricTime, LineId)>,
    tracks: Seq<LyricTrack>,
    strategy: MatchStrategy,
    i: int,
    m: int,
    n: int,
)
    requires
        0 <= m <= n <= tracks.len(),
    ensures
        0 <= track_lanes_added(keys, tracks, strategy, i, m) <= track_lanes_added(keys, tracks, strategy, i, n),
    decreases n,
{
    if n > 0 {
        lemma_lanes_added_grow(keys, tracks[n - 1].lines@, strategy, i, 0, tracks[n - 1].lines@.len() as int);
        if m < n {
            lemma_track_lanes_added_grow(keys, tracks, strategy, i, m, n - 1);
        } else {
            lemma_track_lanes_added_grow(keys, tracks, strategy, i, n - 1, n - 1);
        }
    }
}

/// The lanes of line `j` of sidecar track `m` stand, as placed, on the primary line it
/// matched: after the line's own lanes, the lanes the earlier sidecar tracks added there, and
/// the lanes the earlier lines of track `m` added there. Under `Ordered` each segment is
/// moved by the distance between the two lines' starts; then it is clamped into the line.
pub open spec fn track_placed_at(
    before: Seq<LyricLine>,
    after: Seq<LyricLine>,
    tracks: Seq<LyricTrack>,
    strategy: MatchStrategy,
    m: int,
    j: int,
) -> bool {
    let keys = line_keys(before);
    let lines = tracks[m].lines@;
    match match_for(keys, key_of(lines[j]), strategy, j) {
        MatchResult::Found { index, .. } => forall|l: int|
            0 <= l < lines[j].lanes@.len() ==> lane_placed(
                #[trigger] lines[j].lanes@[l],
                after[index as int].lanes@[before[index as int].lanes@.len() + track_lanes_added(
                    keys,
                    tracks,
                    strategy,
                    index as int,
                    m,
                ) + lanes_added(keys, lines, strategy, index as int, j) + l],
                strategy,
                before[index as int].range,
                lines[j].range.start,
            ),
        _ => true,
    }
}

/// `after` is the track list `before` once the sidecar tracks `sidecar` have joined the
/// target track: the other tracks kept, the target's lines kept and extended by the lanes
/// the sidecar lines brought, each lane placed on its line, and, for each sidecar track
/// that left lines unmatched, a track of those lines appended in order.
pub open spec fn tracks_merged(
    strategy: MatchStrategy,
    before: Seq<LyricTrack>,
    sidecar: Seq<LyricTrack>,
    after: Seq<LyricTrack>,
) -> bool {
    let t = target_track(before);
    let keys = line_keys(before[t].lines@);
    &&& 0 <= t < before.len()
    &&& after.len() == before.len() + remnant_count(keys, sidecar, strategy, sidecar.len() as int)
    &&& forall|i: int| 0 <= i < before.len() && i != t ==> #[trigger] after[i] == before[i]
    &&& after[t].kind == before[t].kind
    &&& after[t].language == before[t].language
    &&& lines_extended(before[t].lines@, after[t].lines@)
    &&& forall|i: int|
        0 <= i < before[t].lines@.len() ==> (#[trigger] after[t].lines@[i]).lanes@.len()
            == before[t].lines@[i].lanes@.len() + track_lanes_added(
            keys,
            sidecar,
            strategy,
            i,
            sidecar.len() as int,
        )
    &&& forall|m: int, j: int|
        0 <= m < sidecar.len() && 0 <= j < sidecar[m].lines@.len() ==> #[trigger] track_placed_at(
            before[t].lines@,
            after[t].lines@,
            sidecar,
            strategy,
            m,
            j,
        )
    &&& forall|m: int|
        0 <= m < sidecar.len() && remnant_of(keys, sidecar[m], strategy).len() > 0 ==> {
            let remnant = #[trigger] after[before.len() + remnant_count(keys, sidecar, strategy, m)];
            &&& remnant.kind == sidecar[m].kind
            &&& remnant.language == sidecar[m].language
            &&& remnant.lines@ == remnant_of(keys, sidecar[m], strategy)
        }
}

/// How many lines of the first `m` sidecar tracks are reported with a warning of kind `code`.
pub open spec fn tracks_reported(
    keys: Seq<(LyricTime, LineId)>,
    tracks: Seq<LyricTrack>,
    strategy: MatchStrategy,
    code: DiagnosticCode,
    m: int,
) -> int
    decreases m,
{
    if m <= 0 || m > tracks.len() {
        0
    } else {
        tracks_reported(keys, tracks, strategy, code, m - 1) + reported_matches(
            keys,
            tracks[m - 1].lines@,
            strategy,
            code,
            tracks[m - 1].lines@.len() as int,
        )
    }
}

/// Each sidecar line that joined a primary line within a tolerance but not exactly, that
/// matched ambiguously, or that matched nothing is reported once, with the warning of its
/// kind, and no other warning of those kinds is given.
pub open spec fn matching_reported(
    strategy: MatchStrategy,
    before: Seq<LyricTrack>,
    sidecar: Seq<LyricTrack>,
    diagnostics: Seq<Diagnostic>,
) -> bool {
    let keys = line_keys(before[target_track(before)].lines@);
    &&& code_count(diagnostics, DiagnosticCode::FuzzyMatch) == tracks_reported(
        keys,
        sidecar,
        strategy,
        DiagnosticCode::FuzzyMatch,
        sidecar.len() as int,
    )
    &&& code_count(diagnostics, DiagnosticCode::AmbiguousMatch) == tracks_reported(
        keys,
        sidecar,
        strategy,
        DiagnosticCode::AmbiguousMatch,
        sidecar.len() as int,
    )
    &&& code_count(diagnostics, DiagnosticCode::UnmatchedSidecarLine) == tracks_reported(
        keys,
        sidecar,
        strategy,
        DiagnosticCode::UnmatchedSidecarLine,
        sidecar.len() as int,
    )
}

proof fn lemma_opening_counts(opening: Seq<Diagnostic>)
    requires
        opening.len() <= 1,
        opening.len() == 1 ==> opening[0].code == DiagnosticCode::InvalidRange,
    ensures
        match_counts(opening) == (0int, 0int, 0int),
        code_count(opening, DiagnosticCode::TimeOverflow) == 0,
        code_count(opening, DiagnosticCode::InvalidRange) == opening.len(),
        code_count(opening, DiagnosticCode::LaneConflict) == 0,
        foreign_count(opening) == 0,
{
    if opening.len() == 1 {
        let empty = Seq::<Diagnostic>::empty();
        assert(opening.drop_last() =~= empty);
        assert(opening.last() == opening[0]);
        assert(code_count(empty, DiagnosticCode::FuzzyMatch) == 0);
        assert(code_count(empty, DiagnosticCode::AmbiguousMatch) == 0);
        assert(code_count(empty, DiagnosticCode::UnmatchedSidecarLine) == 0);
        assert(code_count(empty, DiagnosticCode::TimeOverflow) == 0);
        assert(code_count(empty, DiagnosticCode::InvalidRange) == 0);
        assert(code_count(empty, DiagnosticCode::LaneConflict) == 0);
    }
}

/// Placement warnings depend only on the starts, ids and ranges of the primary lines.
proof fn lemma_track_placement_same(
    a: Seq<LyricLine>,
    b: Seq<LyricLine>,
    lines: Seq<LyricLine>,
    strategy: MatchStrategy,
    code: DiagnosticCode,
    n: int,
)
    requires
        lines_extended(a, b),
    ensures
        track_placement_warnings(a, lines, strategy, code, n) == track_placement_warnings(b, lines, strategy, code, n),
    decreases n,
{
    assert(line_keys(a) =~= line_keys(b)) by {
        assert forall|i: int| 0 <= i < a.len() implies #[trigger] line_keys(a)[i] == line_keys(b)[i] by {
            assert(b[i].id == a[i].id);
        }
    }
    if n > 0 && n <= lines.len() {
        lemma_track_placement_same(a, b, lines, strategy, code, n - 1);
        if a.len() <= usize::MAX {
            lemma_found_in_bounds(line_keys(a), key_of(lines[n - 1]), strategy, n - 1);
        }
        match match_for(line_keys(a), key_of(lines[n - 1]), strategy, n - 1) {
            MatchResult::Found { index, .. } => {
                if (index as int) < a.len() {
                    assert(b[index as int].range == a[index as int].range);
                }
            },
            _ => {},
        }
    }
}

/// How many warnings of kind `code` placing the lines of the first `m` sidecar tracks on
/// the primary lines `before` gives.
pub open spec fn tracks_placement_warnings(
    before: Seq<LyricLine>,
    tracks: Seq<LyricTrack>,
    strategy: MatchStrategy,
    code: DiagnosticCode,
    m: int,
) -> int
    decreases m,
{
    if m <= 0 || m > tracks.len() {
        0
    } else {
        tracks_placement_warnings(before, tracks, strategy, code, m - 1) + track_placement_warnings(
            before,
            tracks[m - 1].lines@,
            strategy,
            code,
            tracks[m - 1].lines@.len() as int,
        )
    }
}

/// Each time overflow and range repair from placing sidecar lines on the target track is
/// reported once, and a range warning comes first for a negative tolerance.
pub open spec fn placement_reported(
    strategy: MatchStrategy,
    before: Seq<LyricTrack>,
    sidecar: Seq<LyricTrack>,
    diagnostics: Seq<Diagnostic>,
) -> bool {
    let lines = before[target_track(before)].lines@;
    &&& code_count(diagnostics, DiagnosticCode::TimeOverflow) == tracks_placement_warnings(
        lines,
        sidecar,
        strategy,
        DiagnosticCode::TimeOverflow,
        sidecar.len() as int,
    )
    &&& code_count(diagnostics, DiagnosticCode::InvalidRange) == (if negative_tolerance(strategy) {
        1int
    } else {
        0int
    }) + tracks_placement_warnings(lines, sidecar, strategy, DiagnosticCode::InvalidRange, sidecar.len() as int)
}

/// The strategy asks for a timestamp tolerance below zero.
pub open spec fn negative_tolerance(strategy: MatchStrategy) -> bool {
    strategy matches MatchStrategy::TimestampTolerance { tolerance } && tolerance.0 < 0
}

/// `after`, with `diagnostics`, is what merging `sidecar` into `before` under `strategy`
/// gives.
pub open spec fn merge_outcome(
    strategy: MatchStrategy,
    before: LyricsDocument,
    sidecar: LyricsDocument,
    after: LyricsDocument,
    diagnostics: Seq<Diagnostic>,
) -> bool {
    &&& all_warnings(diagnostics)
    &&& forall|k: int| 0 <= k < diagnostics.len() ==> (#[trigger] diagnostics[k]).span is None
    &&& metadata_merged(before.metadata, sidecar.metadata, after.metadata)
    &&& after.duration == later_of(before.duration, sidecar.duration)
    &&& negative_tolerance(strategy) ==> diagnostics.len() > 0 && diagnostics[0].code
        == DiagnosticCode::InvalidRange
    &&& (strategy is KeepSeparate || before.tracks@.len() == 0) ==> notes_of(diagnostics) == opening_notes(strategy)
    &&& !(strategy is KeepSeparate) && before.tracks@.len() > 0 ==> notes_of(diagnostics) == opening_notes(strategy)
        + tracks_notes(
        before.tracks@[target_track(before.tracks@)].lines@,
        after.tracks@[target_track(before.tracks@)].lines@,
        sidecar.tracks@,
        strategy,
        sidecar.tracks@.len() as int,
    )
    &&& (strategy is KeepSeparate || before.tracks@.len() == 0) ==> {
        &&& after.tracks@ == before.tracks@ + sidecar.tracks@
        &&& diagnostics.len() == if negative_tolerance(strategy) {
            1int
        } else {
            0int
        }
    }
    &&& !(strategy is KeepSeparate) && before.tracks@.len() > 0 ==> tracks_merged(
        strategy,
        before.tracks@,
        sidecar.tracks@,
        after.tracks@,
    )
    &&& !(strategy is KeepSeparate) && before.tracks@.len() > 0 ==> matching_reported(
        strategy,
        before.tracks@,
        sidecar.tracks@,
        diagnostics,
    )
    &&& !(strategy is KeepSeparate) && before.tracks@.len() > 0 ==> match_marks(diagnostics) == tracks_match_notes(
        line_keys(before.tracks@[target_track(before.tracks@)].lines@),
        sidecar.tracks@,
        strategy,
        sidecar.tracks@.len() as int,
    )
    &&& !(strategy is KeepSeparate) && before.tracks@.len() > 0 ==> placement_reported(
        strategy,
        before.tracks@,
        sidecar.tracks@,
        diagnostics,
    )
    &&& !(strategy is KeepSeparate) && before.tracks@.len() > 0 ==> foreign_count(diagnostics) == 0
    &&& !(strategy is KeepSeparate) && before.tracks@.len() > 0 ==> code_count(diagnostics, DiagnosticCode::LaneConflict)
        == lines_conflicts(
        before.tracks@[target_track(before.tracks@)].lines@,
        after.tracks@[target_track(before.tracks@)].lines@,
        before.tracks@[target_track(before.tracks@)].lines@.len() as int,
    )
}

/// `result`, with `diagnostics`, is what merging each of `sidecars` in turn into `primary`
/// gives: the diagnostics of each merge, in order.
pub open spec fn assembled(
    strategy: MatchStrategy,
    primary: LyricsDocument,
    sidecars: Seq<LyricsDocument>,
    result: LyricsDocument,
    diagnostics: Seq<Diagnostic>,
) -> bool {
    exists|documents: Seq<LyricsDocument>, reports: Seq<Seq<Diagnostic>>|
        {
            &&& documents.len() == sidecars.len() + 1
            &&& reports.len() == sidecars.len()
            &&& documents[0] == primary
            &&& documents[sidecars.len() as int] == result
            &&& forall|k: int|
                0 <= k < sidecars.len() ==> merge_outcome(
                    strategy,
                    documents[k],
                    #[trigger] sidecars[k],
                    documents[k + 1],
                    reports[k],
                )
            &&& diagnostics == reports.flatten()
        }
}

/// Assembling no sidecars gives the primary document back, with no diagnostics.
pub proof fn lemma_assemble_nothing(
    strategy: MatchStrategy,
    primary: LyricsDocument,
    result: LyricsDocument,
    diagnostics: Seq<Diagnostic>,
)
    requires
        assembled(strategy, primary, Seq::empty(), result, diagnostics),
    ensures
        result == primary,
        diagnostics.len() == 0,
{
    let (documents, reports) = choose|documents: Seq<LyricsDocument>, reports: Seq<Seq<Diagnostic>>|
        {
            &&& documents.len() == 1
            &&& reports.len() == 0
            &&& documents[0] == primary
            &&& documents[0] == result
            &&& diagnostics == reports.flatten()
        };
    assert(reports =~= Seq::<Seq<Diagnostic>>::empty());
}

/// Assembling one sidecar is merging it: the two outcomes are the same relation.
pub proof fn lemma_assemble_one_is_merge(
    strategy: MatchStrategy,
    primary: LyricsDocument,
    sidecar: LyricsDocument,
    result: LyricsDocument,
    diagnostics: Seq<Diagnostic>,
)
    ensures
        assembled(strategy, primary, seq![sidecar], result, diagnostics) <==> merge_outcome(
            strategy,
            primary,
            sidecar,
            result,
            diagnostics,
        ),
{
    if merge_outcome(strategy, primary, sidecar, result, diagnostics) {
        let documents = seq![primary, result];
        let reports = seq![diagnostics];
        reports.lemma_flatten_one_element();
        assert(seq![sidecar][0] == sidecar);
        let sidecars = seq![sidecar];
        assert forall|k: int| 0 <= k < sidecars.len() implies merge_outcome(
            strategy,
            documents[k],
            #[trigger] sidecars[k],
            documents[k + 1],
            reports[k],
        ) by {
            assert(k == 0);
        }
        assert(documents.len() == sidecars.len() + 1);
        assert(documents[sidecars.len() as int] == result);
        assert(diagnostics == reports.flatten());
        assert(assembled(strategy, primary, sidecars, result, diagnostics));
    }
    if assembled(strategy, primary, seq![sidecar], result, diagnostics) {
        let (documents, reports) = choose|documents: Seq<LyricsDocument>, reports: Seq<Seq<Diagnostic>>|
            {
                &&& documents.len() == 2
                &&& reports.len() == 1
                &&& documents[0] == primary
                &&& documents[1] == result
                &&& forall|k: int|
                    0 <= k < 1 ==> merge_outcome(
                        strategy,
                        documents[k],
                        #[trigger] seq![sidecar][k],
                        documents[k + 1],
                        reports[k],
                    )
                &&& diagnostics == reports.flatten()
            };
        assert(seq![sidecar][0] == sidecar);
        assert(merge_outcome(strategy, documents[0], seq![sidecar][0], documents[1], reports[0]));
        reports.lemma_flatten_one_element();
    }
}

/// Assembling sidecars is merging them in turn: assembling one more sidecar is merging it
/// into what assembling the others gave, its diagnostics following theirs.
pub proof fn lemma_assemble_step(
    strategy: MatchStrategy,
    primary: LyricsDocument,
    sidecars: Seq<LyricsDocument>,
    sidecar: LyricsDocument,
    result: LyricsDocument,
    diagnostics: Seq<Diagnostic>,
)
    ensures
        assembled(strategy, primary, sidecars.push(sidecar), result, diagnostics) <==> exists|
            middle: LyricsDocument,
            earlier: Seq<Diagnostic>,
            later: Seq<Diagnostic>,
        |
            #![trigger assembled(strategy, primary, sidecars, middle, earlier), merge_outcome(strategy, middle, sidecar, result, later)]
            {
                &&& assembled(strategy, primary, sidecars, middle, earlier)
                &&& merge_outcome(strategy, middle, sidecar, result, later)
                &&& diagnostics == earlier + later
            },
{
    let all = sidecars.push(sidecar);
    let n = sidecars.len() as int;
    if assembled(strategy, primary, all, result, diagnostics) {
        let (documents, reports) = choose|documents: Seq<LyricsDocument>, reports: Seq<Seq<Diagnostic>>|
            {
                &&& documents.len() == all.len() + 1
                &&& reports.len() == all.len()
                &&& documents[0] == primary
                &&& documents[all.len() as int] == result
                &&& forall|k: int|
                    0 <= k < all.len() ==> merge_outcome(
                        strategy,
                        documents[k],
                        #[trigger] all[k],
                        documents[k + 1],
                        reports[k],
                    )
                &&& diagnostics == reports.flatten()
            };
        let documents0 = documents.subrange(0, n + 1);
        let reports0 = reports.subrange(0, n);
        let middle = documents[n];
        let earlier = reports0.flatten();
        let later = reports[n];
        assert(reports =~= reports0.push(later));
        reports0.lemma_flatten_push(later);
        assert forall|k: int| 0 <= k < sidecars.len() implies merge_outcome(
            strategy,
            documents0[k],
            #[trigger] sidecars[k],
            documents0[k + 1],
            reports0[k],
        ) by {
            assert(all[k] == sidecars[k]);
            assert(merge_outcome(strategy, documents[k], all[k], documents[k + 1], reports[k]));
        }
        assert(documents0[n] == middle);
        assert(documents0.len() == sidecars.len() + 1);
        assert(reports0.len() == sidecars.len());
        assert(documents0[0] == primary);
        assert(documents0[sidecars.len() as int] == middle);
        assert(earlier == reports0.flatten());
        assert(assembled(strategy, primary, sidecars, middle, earlier));
        assert(all[n] == sidecar);
        assert(merge_outcome(strategy, documents[n], all[n], documents[n + 1], reports[n]));
        assert(merge_outcome(strategy, middle, sidecar, result, later));
    }
    if exists|middle: LyricsDocument, earlier: Seq<Diagnostic>, later: Seq<Diagnostic>|
        #![trigger assembled(strategy, primary, sidecars, middle, earlier), merge_outcome(strategy, middle, sidecar, result, later)]
        {
            &&& assembled(strategy, primary, sidecars, middle, earlier)
            &&& merge_outcome(strategy, middle, sidecar, result, later)
            &&& diagnostics == earlier + later
        } {
        let (middle, earlier, later) = choose|middle: LyricsDocument, earlier: Seq<Diagnostic>, later: Seq<Diagnostic>|
            {
                &&& assembled(strategy, primary, sidecars, middle, earlier)
                &&& merge_outcome(strategy, middle, sidecar, result, later)
                &&& diagnostics == earlier + later
            };
        let (documents0, reports0) = choose|documents: Seq<LyricsDocument>, reports: Seq<Seq<Diagnostic>>|
            {
                &&& documents.len() == sidecars.len() + 1
                &&& reports.len() == sidecars.len()
                &&& documents[0] == primary
                &&& documents[sidecars.len() as int] == middle
                &&& forall|k: int|
                    0 <= k < sidecars.len() ==> merge_outcome(
                        strategy,
                        documents[k],
                        #[trigger] sidecars[k],
                        documents[k + 1],
                        reports[k],
                    )
                &&& earlier == reports.flatten()
            };
        let documents = documents0.push(result);
        let reports = reports0.push(later);
        reports0.lemma_flatten_push(later);
        assert forall|k: int| 0 <= k < all.len() implies merge_outcome(
            strategy,
            documents[k],
            #[trigger] all[k],
            documents[k + 1],
            reports[k],
        ) by {
            if k < n {
                assert(all[k] == sidecars[k]);
                assert(merge_outcome(strategy, documents0[k], sidecars[k], documents0[k + 1], reports0[k]));
            } else {
                assert(all[k] == sidecar);
            }
        }
        assert(documents[all.len() as int] == result);
        assert(documents.len() == all.len() + 1);
        assert(reports.len() == all.len());
        assert(documents[0] == primary);
        assert(diagnostics == reports.flatten());
        assert(assembled(strategy, primary, all, result, diagnostics));
    }
}

/// Keeping sidecars separate loses nothing and reports nothing: the sidecar's tracks follow
/// the primary's unchanged.
pub proof fn lemma_keep_separate_is_lossless_and_quiet(
    before: LyricsDocument,
    sidecar: LyricsDocument,
    after: LyricsDocument,
    diagnostics: Seq<Diagnostic>,
)
    requires
        merge_outcome(MatchStrategy::KeepSeparate, before, sidecar, after, diagnostics),
    ensures
        after.tracks@ == before.tracks@ + sidecar.tracks@,
        diagnostics.len() == 0,
        metadata_merged(before.metadata, sidecar.metadata, after.metadata),
{
}

/// Merging never loses a known length or duration: the merged document's duration, and the
/// length in its metadata, is known exactly when the primary's or the sidecar's is, is one
/// of the two, and is no earlier than either.
pub proof fn lemma_merge_keeps_the_longer_duration(
    strategy: MatchStrategy,
    before: LyricsDocument,
    sidecar: LyricsDocument,
    after: LyricsDocument,
    diagnostics: Seq<Diagnostic>,
)
    requires
        merge_outcome(strategy, before, sidecar, after, diagnostics),
    ensures
        after.duration is Some <==> (before.duration is Some || sidecar.duration is Some),
        before.duration matches Some(d) ==> (after.duration matches Some(m) && d.0 <= m.0),
        sidecar.duration matches Some(d) ==> (after.duration matches Some(m) && d.0 <= m.0),
        after.duration is Some ==> (after.duration == before.duration || after.duration == sidecar.duration),
        after.metadata.length is Some <==> (before.metadata.length is Some || sidecar.metadata.length is Some),
        before.metadata.length matches Some(d) ==> (after.metadata.length matches Some(m) && d.0 <= m.0),
        sidecar.metadata.length matches Some(d) ==> (after.metadata.length matches Some(m) && d.0 <= m.0),
        after.metadata.length is Some ==> (after.metadata.length == before.metadata.length
            || after.metadata.length == sidecar.metadata.length),
{
}

/// Merges sidecar documents into a primary document under one matching strategy.
#[derive(Clone, Copy, Debug, PartialEq, Eq, Structural)]
pub struct VariantAssembler {
    strategy: MatchStrategy,
}

impl VariantAssembler {
    /// The strategy the assembler matches with.
    pub closed spec fn matching(self) -> MatchStrategy {
        self.strategy
    }

    pub fn new(strategy: MatchStrategy) -> (assembler: VariantAssembler)
        ensures
            assembler.matching() == strategy,
    {
        VariantAssembler { strategy }
    }

    pub fn strategy(&self) -> (strategy: MatchStrategy)
        ensures
            strategy == self.matching(),
    {
        self.strategy
    }

    /// Merges `sidecar` into `primary` and reports the outcome.
    pub fn merge(&self, primary: LyricsDocument, sidecar: LyricsDocument) -> (report: AssemblyReport)
        ensures
            merge_outcome(self.matching(), primary, sidecar, report.document, report.diagnostics@),
    {
        let mut primary = primary;
        let diagnostics = self.merge_into(&mut primary, sidecar);
        AssemblyReport { document: primary, diagnostics }
    }

    /// Merges each of `sidecars`, in order, into `primary`.
    pub fn assemble(&self, primary: LyricsDocument, sidecars: Vec<LyricsDocument>) -> (report:
        AssemblyReport)
        ensures
            assembled(self.matching(), primary, sidecars@, report.document, report.diagnostics@),
            all_warnings(report.diagnostics@),
    {
        let ghost all = sidecars@;
        let ghost first = primary;
        let mut primary = primary;
        let mut diagnostics: Vec<Diagnostic> = Vec::new();
        let count = sidecars.len();
        let mut pending = reversed(sidecars);
        let ghost mut documents: Seq<LyricsDocument> = seq![primary];
        let ghost mut reports: Seq<Seq<Diagnostic>> = Seq::empty();
        let mut m: usize = 0;
        while m < count
            invariant
                m <= count,
                count == all.len(),
                pending@.len() == count - m,
                forall|k: int| 0 <= k < pending@.len() ==> #[trigger] pending@[k] == all[count - 1 - k],
                documents.len() == m + 1,
                reports.len() == m,
                documents[0] == first,
                documents[m as int] == primary,
                forall|k: int|
                    0 <= k < m ==> merge_outcome(
                        self.matching(),
                        documents[k],
                        #[trigger] all[k],
                        documents[k + 1],
                        reports[k],
                    ),
                diagnostics@ == reports.flatten(),
                all_warnings(diagnostics@),
            decreases count - m,
        {
            let sidecar = pending.pop().unwrap();
            let ghost before = primary;
            let mut merged = self.merge_into(&mut primary, sidecar);
            proof {
                reports.lemma_flatten_push(merged@);
                documents = documents.push(primary);
                reports = reports.push(merged@);
                assert(documents[m as int] == before);
            }
            let ghost joined = diagnostics@;
            diagnostics.append(&mut merged);
            proof {
                assert forall|k: int| 0 <= k < diagnostics@.len() implies (#[trigger] diagnostics@[k]).severity
                    == DiagnosticSeverity::Warning by {
                    if k >= joined.len() {
                        assert(diagnostics@[k] == reports[m as int][k - joined.len()]);
                    } else {
                        assert(diagnostics@[k] == joined[k]);
                    }
                }
            }
            m += 1;
        }
        proof {
            assert(documents[all.len() as int] == primary);
        }
        AssemblyReport { document: primary, diagnostics }
    }

    /// Merges `sidecar` into `primary` in place and returns the warnings raised.
    pub fn merge_into(&self, primary: &mut LyricsDocument, sidecar: LyricsDocument) -> (diagnostics:
        Vec<Diagnostic>)
        ensures
            merge_outcome(self.matching(), *old(primary), sidecar, *final(primary), diagnostics@),
    {
        let strategy = self.strategy;
        let mut diagnostics: Vec<Diagnostic> = Vec::new();
        match strategy {
            MatchStrategy::TimestampTolerance { tolerance } => if tolerance.0 < 0 {
                diagnostics.push(
                    warning(
                        DiagnosticCode::InvalidRange,
                        String::from_str("negative timestamp tolerance was treated as zero"),
                    ),
                );
            },
            _ => {},
        }
        let ghost opening = diagnostics@;
        proof {
            reveal_strlit("negative timestamp tolerance was treated as zero");
            assert(notes_of(opening) =~= opening_notes(strategy));
            assert(forall|k: int| 0 <= k < opening.len() ==> (#[trigger] opening[k]).span is None);
        }
        let ghost before = *primary;
        let LyricsDocument { metadata: sidecar_metadata, tracks: sidecar_tracks, duration: sidecar_duration } = sidecar;
        merge_metadata(&mut primary.metadata, &sidecar_metadata);
        primary.duration = later_time(primary.duration, sidecar_duration);
        let keep = match strategy {
            MatchStrategy::KeepSeparate => true,
            _ => false,
        };
        if keep || primary.tracks.len() == 0 {
            let mut extra = sidecar_tracks;
            primary.tracks.append(&mut extra);
            return diagnostics;
        }
        let ghost tracks_before = primary.tracks@;
        let ghost metadata_after = primary.metadata;
        let ghost duration_after = primary.duration;
        let t = target_track_index(&primary.tracks);
        let ghost keys = line_keys(tracks_before[t as int].lines@);
        let ghost target_before = tracks_before[t as int];
        let ghost all = sidecar_tracks@;
        let count = sidecar_tracks.len();
        let mut pending = reversed(sidecar_tracks);
        proof {
            lemma_no_warning(diagnostics@, DiagnosticCode::InvalidRange);
            assert(lines_extended(target_before.lines@, target_before.lines@));
            lemma_opening_counts(opening);
            lemma_noted_none(diagnostics@);
            assert(match_marks(Seq::<Diagnostic>::empty()) == Seq::<(DiagnosticCode, Seq<char>)>::empty());
            if diagnostics@.len() > 0 {
                assert(diagnostics@.drop_last() =~= Seq::<Diagnostic>::empty());
                assert(diagnostics@.last().code == DiagnosticCode::InvalidRange);
            }
            assert(match_marks(diagnostics@) =~= Seq::<(DiagnosticCode, Seq<char>)>::empty());
            lemma_lines_conflicts_none(target_before.lines@, target_before.lines@.len() as int);
        }
        let mut m: usize = 0;
        while m < count
            invariant
                m <= count,
                count == all.len(),
                pending@.len() == count - m,
                forall|k: int| 0 <= k < pending@.len() ==> #[trigger] pending@[k] == all[count - 1 - k],
                strategy == self.matching(),
                !(strategy is KeepSeparate),
                t == target_track(tracks_before),
                t < tracks_before.len(),
                target_before == tracks_before[t as int],
                keys == line_keys(target_before.lines@),
                primary.metadata == metadata_after,
                primary.duration == duration_after,
                primary.tracks@.len() == tracks_before.len() + remnant_count(keys, all, strategy, m as int),
                forall|i: int| 0 <= i < tracks_before.len() && i != t ==> #[trigger] primary.tracks@[i] == tracks_before[i],
                primary.tracks@[t as int].kind == target_before.kind,
                primary.tracks@[t as int].language == target_before.language,
                lines_extended(target_before.lines@, primary.tracks@[t as int].lines@),
                forall|i: int|
                    0 <= i < target_before.lines@.len() ==> (#[trigger] primary.tracks@[t as int].lines@[i]).lanes@.len()
                        == target_before.lines@[i].lanes@.len() + track_lanes_added(keys, all, strategy, i, m as int),
                forall|q: int, j: int|
                    0 <= q < m && 0 <= j < all[q].lines@.len() ==> #[trigger] track_placed_at(
                        target_before.lines@,
                        primary.tracks@[t as int].lines@,
                        all,
                        strategy,
                        q,
                        j,
                    ),
                forall|q: int|
                    0 <= q < m && remnant_of(keys, all[q], strategy).len() > 0 ==> {
                        let remnant = #[trigger] primary.tracks@[tracks_before.len() + remnant_count(keys, all, strategy, q)];
                        &&& remnant.kind == all[q].kind
                        &&& remnant.language == all[q].language
                        &&& remnant.lines@ == remnant_of(keys, all[q], strategy)
                    },
                warnings_added(opening, diagnostics@),
                match_marks(diagnostics@) == tracks_match_notes(keys, all, strategy, m as int),
                code_count(diagnostics@, DiagnosticCode::FuzzyMatch) == tracks_reported(
                    keys,
                    all,
                    strategy,
                    DiagnosticCode::FuzzyMatch,
                    m as int,
                ),
                code_count(diagnostics@, DiagnosticCode::AmbiguousMatch) == tracks_reported(
                    keys,
                    all,
                    strategy,
                    DiagnosticCode::AmbiguousMatch,
                    m as int,
                ),
                code_count(diagnostics@, DiagnosticCode::UnmatchedSidecarLine) == tracks_reported(
                    keys,
                    all,
                    strategy,
                    DiagnosticCode::UnmatchedSidecarLine,
                    m as int,
                ),
                code_count(diagnostics@, DiagnosticCode::TimeOverflow) == tracks_placement_warnings(
                    target_before.lines@,
                    all,
                    strategy,
                    DiagnosticCode::TimeOverflow,
                    m as int,
                ),
                code_count(diagnostics@, DiagnosticCode::InvalidRange) == opening.len() + tracks_placement_warnings(
                    target_before.lines@,
                    all,
                    strategy,
                    DiagnosticCode::InvalidRange,
                    m as int,
                ),
                opening.len() == if negative_tolerance(strategy) {
                    1int
                } else {
                    0int
                },
                code_count(diagnostics@, DiagnosticCode::LaneConflict) == lines_conflicts(
                    target_before.lines@,
                    primary.tracks@[t as int].lines@,
                    target_before.lines@.len() as int,
                ),
                foreign_count(diagnostics@) == 0,
                notes_of(opening) == opening_notes(strategy),
                forall|k: int| 0 <= k < opening.len() ==> (#[trigger] opening[k]).span is None,
                noted(opening, diagnostics@, tracks_notes(target_before.lines@, primary.tracks@[t as int].lines@, all, strategy, m as int)),
            decreases count - m,
        {
            let sidecar_track = pending.pop().unwrap();
            assert(sidecar_track == all[m as int]);
            let ghost step = diagnostics@;
            let ghost tracks_step = primary.tracks@;
            let ghost target_step = primary.tracks@[t as int];
            assert(line_keys(target_step.lines@) =~= keys);
            proof {
                lemma_remnant_count_grow(keys, all, strategy, 0, m as int);
            }
            let rest = merge_track(&mut primary.tracks[t], sidecar_track, strategy, &mut diagnostics);
            proof {
                assert(match_marks(diagnostics@) =~= tracks_match_notes(keys, all, strategy, m + 1));
                lemma_warnings_added_trans(opening, step, diagnostics@);
                lemma_track_placement_same(
                    target_before.lines@,
                    target_step.lines@,
                    all[m as int].lines@,
                    strategy,
                    DiagnosticCode::TimeOverflow,
                    all[m as int].lines@.len() as int,
                );
                lemma_track_placement_same(
                    target_before.lines@,
                    target_step.lines@,
                    all[m as int].lines@,
                    strategy,
                    DiagnosticCode::InvalidRange,
                    all[m as int].lines@.len() as int,
                );
                lemma_lines_extended_trans(target_before.lines@, target_step.lines@, primary.tracks@[t as int].lines@);
                lemma_lines_conflicts_split(
                    target_before.lines@,
                    target_step.lines@,
                    primary.tracks@[t as int].lines@,
                    target_before.lines@.len() as int,
                );
                lemma_remnant_count_grow(keys, all, strategy, 0, m as int);
                assert forall|i: int|
                    0 <= i < target_before.lines@.len() implies (#[trigger] primary.tracks@[t as int].lines@[i]).lanes@.len()
                        == target_before.lines@[i].lanes@.len() + track_lanes_added(keys, all, strategy, i, m + 1) by {
                    assert(target_step.lines@[i].lanes@.len() == target_before.lines@[i].lanes@.len()
                        + track_lanes_added(keys, all, strategy, i, m as int));
                }
            }
            let merged_count = primary.tracks[t].lines.len();
            proof {
                let after_lines = primary.tracks@[t as int].lines@;
                assert(keys.len() == merged_count);
                assert forall|q: int, j: int|
                    0 <= q < m + 1 && 0 <= j < all[q].lines@.len() implies #[trigger] track_placed_at(
                        target_before.lines@,
                        after_lines,
                        all,
                        strategy,
                        q,
                        j,
                    ) by {
                    let lines = all[q].lines@;
                    lemma_found_in_bounds(keys, key_of(lines[j]), strategy, j);
                    if q < m {
                        assert(track_placed_at(target_before.lines@, target_step.lines@, all, strategy, q, j));
                        match match_for(keys, key_of(lines[j]), strategy, j) {
                            MatchResult::Found { index, .. } => {
                                let f = index as int;
                                lemma_lanes_added_grow(keys, lines, strategy, f, j + 1, lines.len() as int);
                                lemma_lanes_added_grow(keys, lines, strategy, f, 0, j);
                                lemma_track_lanes_added_grow(keys, all, strategy, f, q + 1, m as int);
                                lemma_track_lanes_added_grow(keys, all, strategy, f, 0, q);
                                assert(target_step.lines@[f].lanes@.len() == target_before.lines@[f].lanes@.len()
                                    + track_lanes_added(keys, all, strategy, f, m as int));
                                assert forall|l: int| 0 <= l < lines[j].lanes@.len() implies lane_placed(
                                    #[trigger] lines[j].lanes@[l],
                                    after_lines[f].lanes@[target_before.lines@[f].lanes@.len() + track_lanes_added(
                                        keys,
                                        all,
                                        strategy,
                                        f,
                                        q,
                                    ) + lanes_added(keys, lines, strategy, f, j) + l],
                                    strategy,
                                    target_before.lines@[f].range,
                                    lines[j].range.start,
                                ) by {
                                    let p = target_before.lines@[f].lanes@.len() + track_lanes_added(keys, all, strategy, f, q)
                                        + lanes_added(keys, lines, strategy, f, j) + l;
                                    assert(p < target_step.lines@[f].lanes@.len());
                                    assert(after_lines[f].lanes@[p] == target_step.lines@[f].lanes@[p]);
                                }
                            },
                            _ => {},
                        }
                    } else {
                        assert(placed_at(target_step.lines@, after_lines, lines, strategy, j));
                        match match_for(keys, key_of(lines[j]), strategy, j) {
                            MatchResult::Found { index, .. } => {
                                let f = index as int;
                                assert(target_step.lines@[f].lanes@.len() == target_before.lines@[f].lanes@.len()
                                    + track_lanes_added(keys, all, strategy, f, m as int));
                                assert(target_step.lines@[f].range == target_before.lines@[f].range);
                            },
                            _ => {},
                        }
                    }
                }
            }
            proof {
                let new_lines = primary.tracks@[t as int].lines@;
                let prior = |i: int| track_lanes_added(line_keys(target_before.lines@), all, strategy, i, m as int);
                let lines = all[m as int].lines@;
                assert forall|i: int| 0 <= i < target_before.lines@.len() implies (#[trigger] target_step.lines@[i]).range
                    == target_before.lines@[i].range && target_step.lines@[i].id == target_before.lines@[i].id
                    && target_step.lines@[i].lanes@.len() == target_before.lines@[i].lanes@.len() + prior(i) by {}
                lemma_lines_notes_rebase(
                    target_before.lines@,
                    target_step.lines@,
                    new_lines,
                    lines,
                    strategy,
                    prior,
                    lines.len() as int,
                );
                lemma_tracks_notes_stable(target_before.lines@, target_step.lines@, new_lines, all, strategy, m as int);
                lemma_noted_trans(
                    opening,
                    step,
                    diagnostics@,
                    tracks_notes(target_before.lines@, new_lines, all, strategy, m as int),
                    lines_notes(target_before.lines@, new_lines, lines, strategy, prior, lines.len() as int),
                );
                assert(tracks_notes(target_before.lines@, new_lines, all, strategy, m + 1) == tracks_notes(
                    target_before.lines@,
                    new_lines,
                    all,
                    strategy,
                    m as int,
                ) + lines_notes(target_before.lines@, new_lines, lines, strategy, prior, lines.len() as int));
            }
            let ghost tracks_merged_step = primary.tracks@;
            match rest {
                Some(track) => {
                    primary.tracks.push(track);
                },
                None => {},
            }
            proof {
                assert forall|q: int|
                    0 <= q < m + 1 && remnant_of(keys, all[q], strategy).len() > 0 implies {
                        let remnant = #[trigger] primary.tracks@[tracks_before.len() + remnant_count(keys, all, strategy, q)];
                        &&& remnant.kind == all[q].kind
                        &&& remnant.language == all[q].language
                        &&& remnant.lines@ == remnant_of(keys, all[q], strategy)
                    } by {
                    if q < m {
                        lemma_remnant_count_grow(keys, all, strategy, q + 1, m as int);
                        lemma_remnant_count_grow(keys, all, strategy, q, m as int);
                        let x = tracks_before.len() + remnant_count(keys, all, strategy, q);
                        assert(primary.tracks@[x] == tracks_step[x]);
                    }
                }
                assert forall|i: int| 0 <= i < tracks_before.len() && i != t implies #[trigger] primary.tracks@[i]
                    == tracks_before[i] by {
                    assert(primary.tracks@[i] == tracks_step[i]);
                }
            }
            m += 1;
        }
        proof {
            assert(all.len() == sidecar.tracks@.len());
            let opened = opening.len() as int;
            assert forall|k: int| 0 <= k < diagnostics@.len() implies (#[trigger] diagnostics@[k]).severity
                == DiagnosticSeverity::Warning by {
                if k < opened {
                    assert(diagnostics@[k] == diagnostics@.subrange(0, opened)[k]);
                }
            }
            if opened > 0 {
                assert(diagnostics@[0] == diagnostics@.subrange(0, opened)[0]);
            }
            assert(notes_of(diagnostics@) =~= notes_of(opening) + notes_of(diagnostics@.subrange(opened, diagnostics@.len() as int)));
            assert forall|k: int| 0 <= k < diagnostics@.len() implies (#[trigger] diagnostics@[k]).span is None by {
                if k < opened {
                    assert(diagnostics@[k] == diagnostics@.subrange(0, opened)[k]);
                }
            }
        }
        diagnostics
    }
}

} // verus!
