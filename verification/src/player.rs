//! Seek-bar arithmetic of the player page: the whole seconds a duration spans, seek
//! positions kept on the bar, and `m:ss` labels.

use vstd::prelude::*;

use crate::time::{decimal_text, padded_text, push_decimal_text, push_padded};

verus! {

/// The whole seconds that `microseconds` spans, rounded up; a negative duration spans none.
pub open spec fn duration_seconds_of(microseconds: i64) -> int {
    let micros: int = if microseconds < 0 { 0 } else { microseconds as int };
    let raised: int = if micros + 999999 > i64::MAX { i64::MAX as int } else { micros + 999999 };
    raised / 1000000
}

/// The whole seconds that `microseconds` spans, rounded up.
pub fn micros_to_duration_seconds(microseconds: i64) -> (seconds: i64)
    ensures
        seconds == duration_seconds_of(microseconds),
{
    let micros: i64 = if microseconds < 0 { 0 } else { microseconds };
    let raised: i64 = if micros > i64::MAX - 999999 { i64::MAX } else { micros + 999999 };
    raised / 1000000
}

/// A seek position in seconds kept on the bar: not before the start, and not past the end
/// when the duration is known (positive).
pub fn clamp_seconds(seconds: i64, duration_seconds: i64) -> (clamped: i64)
    ensures
        clamped == if seconds < 0 {
            0
        } else if duration_seconds > 0 && seconds > duration_seconds {
            duration_seconds as int
        } else {
            seconds as int
        },
{
    if seconds < 0 {
        0
    } else if duration_seconds > 0 && seconds > duration_seconds {
        duration_seconds
    } else {
        seconds
    }
}

/// The `m:ss` label of `seconds`: whole minutes, a colon, and the seconds past the minute in
/// two digits; a negative time reads as `0:00`.
pub open spec fn seconds_label(seconds: i64) -> Seq<char> {
    let total: nat = if seconds < 0 { 0 } else { seconds as nat };
    decimal_text(total / 60) + seq![':'] + padded_text(total % 60, 2)
}

/// The `m:ss` label of `seconds`.
pub fn format_seconds(seconds: i64) -> (label: String)
    ensures
        label@ == seconds_label(seconds),
{
    let total: u64 = if seconds < 0 { 0 } else { seconds as u64 };
    let mut label = String::new();
    push_decimal_text(&mut label, total / 60);
    label.append(":");
    push_padded(&mut label, total % 60, 2);
    proof {
        reveal_strlit(":");
        assert(label@ =~= seconds_label(seconds));
    }
    label
}

} // verus!
