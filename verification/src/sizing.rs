//! Integer sizing decisions of the lyrics view and the animated backdrop: width and size
//! buckets that absorb per-pixel resize churn, texture byte counts against their budget, and
//! the earlier of two pending wakeup times.

use vstd::prelude::*;

use crate::time::LyricTime;

verus! {

/// Layout widths are rounded to a multiple of this many pixels.
pub const LAYOUT_WIDTH_BUCKET: i32 = 8;

/// Backdrop sizes are rounded up to a multiple of this many pixels.
pub const SIZE_BUCKET: i32 = 64;

/// Phase frames pre-rendered for one backdrop scene.
pub const PHASE_FRAME_COUNT: usize = 10;

/// Bytes that the pre-rendered phase frames of all cached scenes may take: 8 MiB.
pub const PHASE_TEXTURE_BUDGET_BYTES: usize = 8388608;

/// Backdrop scenes kept at once.
pub const MAX_CACHED_SCENES: usize = 2;

/// Bytes in one texture pixel.
pub const BACKDROP_BYTES_PER_PIXEL: usize = 4;

/// A jump of the playback anchor larger than this, in microseconds, counts as a seek.
pub const LARGE_SEEK_US: i64 = 750000;

/// How long, in microseconds, a manual scroll holds the view after the last interaction.
pub const MANUAL_SCROLL_HOLD_US: i64 = 3000000;

/// The layout width for an allocated width: the nearest multiple of 8 pixels (halves round
/// up), at least 8; nothing for an empty allocation.
pub open spec fn width_bucket_of(width: i32) -> int {
    if width <= 0 {
        0
    } else {
        let raised: int = if width + 4 > i32::MAX { i32::MAX as int } else { width + 4 };
        let buckets: int = raised / 8;
        if buckets < 1 { 8 } else { buckets * 8 }
    }
}

/// The layout width, in whole pixels, for an allocated `width`.
pub fn layout_width_bucket(width: i32) -> (bucket: i32)
    ensures
        bucket == width_bucket_of(width),
{
    if width <= 0 {
        return 0;
    }
    let raised: i32 = if width > i32::MAX - 4 { i32::MAX } else { width + 4 };
    let buckets: i32 = raised / LAYOUT_WIDTH_BUCKET;
    if buckets < 1 { LAYOUT_WIDTH_BUCKET } else { buckets * LAYOUT_WIDTH_BUCKET }
}

/// `value` rounded up to a multiple of 64; nothing for a value that is not positive.
pub open spec fn size_bucket_of(value: i32) -> int {
    if value <= 0 { 0 } else { ((value + 63) / 64) * 64 }
}

/// `value` rounded up to a multiple of 64 pixels.
pub fn bucket(value: i32) -> (rounded: i32)
    requires
        value <= i32::MAX - 63,
    ensures
        rounded == size_bucket_of(value),
        value > 0 ==> value <= rounded < value + 64 && rounded % 64 == 0,
{
    if value <= 0 {
        return 0;
    }
    let raised = value + (SIZE_BUCKET - 1);
    let buckets = raised / SIZE_BUCKET;
    proof {
        assert(buckets * 64 <= raised && raised < buckets * 64 + 64) by (nonlinear_arith)
            requires
                buckets == raised / 64,
                raised >= 0,
        ;
        assert((buckets * 64) % 64 == 0) by (nonlinear_arith);
    }
    buckets * SIZE_BUCKET
}

/// A backdrop size with both sides rounded up to a multiple of 64 pixels.
pub fn bucketed_size(width: i32, height: i32) -> (size: (i32, i32))
    requires
        width <= i32::MAX - 63,
        height <= i32::MAX - 63,
    ensures
        size.0 == size_bucket_of(width),
        size.1 == size_bucket_of(height),
{
    (bucket(width), bucket(height))
}

/// The byte budget of one cached scene's phase frames.
pub fn phase_scene_texture_budget() -> (budget: usize)
    ensures
        budget == PHASE_TEXTURE_BUDGET_BYTES / MAX_CACHED_SCENES,
        budget * MAX_CACHED_SCENES == PHASE_TEXTURE_BUDGET_BYTES,
{
    PHASE_TEXTURE_BUDGET_BYTES / MAX_CACHED_SCENES
}

/// The bytes of `frame_count` textures of `size`: `None` for a negative side, or when a
/// product on the way overflows.
pub open spec fn texture_bytes_of(size: (i32, i32), frame_count: usize) -> Option<int> {
    let pixels = size.0 * size.1;
    if size.0 < 0 || size.1 < 0 || pixels > usize::MAX || pixels * frame_count > usize::MAX
        || pixels * frame_count * BACKDROP_BYTES_PER_PIXEL > usize::MAX {
        None
    } else {
        Some(pixels * frame_count * BACKDROP_BYTES_PER_PIXEL)
    }
}

/// The bytes of `frame_count` textures of `size`.
pub fn texture_byte_size(size: (i32, i32), frame_count: usize) -> (bytes: Option<usize>)
    ensures
        bytes matches Some(count) ==> texture_bytes_of(size, frame_count) == Some(count as int),
        bytes is None ==> texture_bytes_of(size, frame_count) is None,
{
    if size.0 < 0 || size.1 < 0 {
        return None;
    }
    let width = size.0 as usize;
    let height = size.1 as usize;
    let pixels = match width.checked_mul(height) {
        Some(pixels) => pixels,
        None => return None,
    };
    let all_frames = match pixels.checked_mul(frame_count) {
        Some(all_frames) => all_frames,
        None => return None,
    };
    all_frames.checked_mul(BACKDROP_BYTES_PER_PIXEL)
}

/// The earlier of two optional times; one that is missing gives way to the other.
pub fn earlier_time(left: Option<LyricTime>, right: Option<LyricTime>) -> (earlier: Option<LyricTime>)
    ensures
        earlier == match (left, right) {
            (Some(l), Some(r)) => Some(if r.0 < l.0 { r } else { l }),
            (Some(l), None) => Some(l),
            (None, Some(r)) => Some(r),
            (None, None) => None,
        },
{
    match (left, right) {
        (Some(l), Some(r)) => Some(if r.0 < l.0 { r } else { l }),
        (Some(l), None) => Some(l),
        (None, Some(r)) => Some(r),
        (None, None) => None,
    }
}

} // verus!
