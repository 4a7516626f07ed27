//! Wakeup bookkeeping of the render loop: what a pending wakeup is keyed by, and how long
//! to sleep until a frame-clock deadline.

use std::time::Duration;

use vstd::prelude::*;

use crate::time::LyricTime;

verus! {

/// What a scheduled wakeup is waiting for; a second request with an equal key keeps the
/// pending wakeup instead of replacing it.
#[derive(Clone, Copy, Debug, PartialEq, Eq, Structural)]
pub enum WakeupKey {
    Media { target: LyricTime, serial: u64 },
    ManualScroll { deadline_us: i64 },
}

/// The `Duration` of `micros` microseconds, as `Duration::from_micros` builds it.
pub uninterp spec fn duration_of_micros(micros: u64) -> Duration;

/// Calls `Duration::from_micros`, which builds the duration of `micros` microseconds; its
/// result depends on `micros` alone.
#[verifier::external_body]
fn duration_from_micros(micros: u64) -> (duration: Duration)
    ensures
        duration == duration_of_micros(micros),
{
    Duration::from_micros(micros)
}

/// The microseconds from `frame_time_us` until `deadline_us`, none once the deadline has
/// passed.
pub open spec fn micros_until(frame_time_us: i64, deadline_us: i64) -> u64 {
    if deadline_us > frame_time_us { (deadline_us - frame_time_us) as u64 } else { 0 }
}

/// How long to wait from the frame at `frame_time_us` until `deadline_us`; a deadline in
/// the past gives no wait. Media playback plays no part in it.
pub fn frame_delay(frame_time_us: i64, deadline_us: i64) -> (delay: Duration)
    ensures
        delay == duration_of_micros(micros_until(frame_time_us, deadline_us)),
{
    duration_from_micros(frame_delay_micros(frame_time_us, deadline_us))
}

/// The microseconds from `frame_time_us` until `deadline_us`, none once the deadline has
/// passed.
pub fn frame_delay_micros(frame_time_us: i64, deadline_us: i64) -> (micros: u64)
    ensures
        micros == micros_until(frame_time_us, deadline_us),
        micros == if deadline_us > frame_time_us { deadline_us - frame_time_us } else { 0 },
{
    if deadline_us > frame_time_us {
        let difference: i128 = deadline_us as i128 - frame_time_us as i128;
        difference as u64
    } else {
        0
    }
}

} // verus!
