//! The timing of the staggered line motion that follows a scroll: when it is over, and how
//! long each line has been moving.

use vstd::prelude::*;

use crate::time::{saturate_i64, saturating_add_i64, saturating_mul_i64, saturating_sub_i64};

verus! {

/// `value` as an `i64`, or `i64::MAX` when it does not fit.
pub open spec fn count_as_i64(value: int) -> int {
    if value > i64::MAX { i64::MAX as int } else { value }
}

fn usize_as_i64(value: usize) -> (converted: i64)
    ensures
        converted == count_as_i64(value as int),
{
    if value as u128 > i64::MAX as u128 {
        i64::MAX
    } else {
        value as i64
    }
}

/// The timing of one leg of line motion: it starts at `started_us` and lasts `duration_us`
/// for the focus line; each line further away starts `stagger_us` later, up to
/// `max_stagger_lines` lines away.
#[derive(Clone, Copy, Debug, PartialEq, Eq, Structural)]
pub struct MotionTiming {
    pub started_us: i64,
    pub duration_us: i64,
    pub stagger_us: i64,
    pub max_stagger_lines: usize,
    pub focus_line: Option<usize>,
}

/// How many lines `index` lies from the focus line, at most `max_lines`; no distance when
/// there is no focus line.
pub open spec fn stagger_distance(focus_line: Option<usize>, max_lines: usize, index: usize) -> int {
    let distance: int = match focus_line {
        Some(focus) => if index >= focus { index - focus } else { focus - index },
        None => 0,
    };
    if distance > max_lines { max_lines as int } else { distance }
}

impl MotionTiming {
    /// A leg of motion; a negative duration or stagger counts as none.
    pub fn new(
        started_us: i64,
        duration_us: i64,
        stagger_us: i64,
        max_stagger_lines: usize,
        focus_line: Option<usize>,
    ) -> (timing: MotionTiming)
        ensures
            timing.started_us == started_us,
            timing.duration_us == if duration_us < 0 { 0 } else { duration_us },
            timing.stagger_us == if stagger_us < 0 { 0 } else { stagger_us },
            timing.max_stagger_lines == max_stagger_lines,
            timing.focus_line == focus_line,
    {
        MotionTiming {
            started_us,
            duration_us: if duration_us < 0 { 0 } else { duration_us },
            stagger_us: if stagger_us < 0 { 0 } else { stagger_us },
            max_stagger_lines,
            focus_line,
        }
    }

    /// The whole length of the leg: the focus line's duration plus the largest stagger.
    pub open spec fn total_duration(self) -> int {
        saturate_i64(
            self.duration_us + saturate_i64(
                self.stagger_us * count_as_i64(self.max_stagger_lines as int),
            ),
        )
    }

    /// The whole length of the leg, saturated.
    pub fn total_duration_us(self) -> (total: i64)
        ensures
            total == self.total_duration(),
    {
        let lines = usize_as_i64(self.max_stagger_lines);
        saturating_add_i64(self.duration_us, saturating_mul_i64(self.stagger_us, lines))
    }

    /// Whether every line has finished moving at `now_us`.
    pub fn finished(self, now_us: i64) -> (done: bool)
        ensures
            done == (saturate_i64(now_us - self.started_us) >= self.total_duration()),
    {
        saturating_sub_i64(now_us, self.started_us) >= self.total_duration_us()
    }

    /// How long the line at `index` has been moving at `now_us`: the time since the leg
    /// started, less its stagger delay, saturated (negative while it still waits).
    pub fn line_elapsed_us(self, index: usize, now_us: i64) -> (elapsed: i64)
        ensures
            elapsed == saturate_i64(
                saturate_i64(now_us - self.started_us) - saturate_i64(
                    self.stagger_us * count_as_i64(
                        stagger_distance(self.focus_line, self.max_stagger_lines, index),
                    ),
                ),
            ),
    {
        let distance: usize = match self.focus_line {
            Some(focus) => if index >= focus { index - focus } else { focus - index },
            None => 0,
        };
        let distance = if distance > self.max_stagger_lines { self.max_stagger_lines } else { distance };
        let delay = saturating_mul_i64(self.stagger_us, usize_as_i64(distance));
        saturating_sub_i64(saturating_sub_i64(now_us, self.started_us), delay)
    }
}

} // verus!
