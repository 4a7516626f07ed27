//! The parts of the lyric style that the layout and the transitions decide on.

use vstd::prelude::*;

verus! {

pub const DEFAULT_TRANSITION_DURATION_US: i64 = 800_000;

/// The two kinds of lanes that are styled and shown apart.
#[derive(Clone, Copy, Debug, PartialEq, Eq, Hash, Structural)]
pub enum LaneSlot {
    Original,
    Other,
}

impl LaneSlot {
    /// Every slot, the original first.
    pub fn all() -> (slots: [LaneSlot; 2])
        ensures
            slots@ == seq![LaneSlot::Original, LaneSlot::Other],
    {
        let slots = [LaneSlot::Original, LaneSlot::Other];
        assert(slots@ =~= seq![LaneSlot::Original, LaneSlot::Other]);
        slots
    }
}

#[derive(Clone, Copy, Debug, Default, PartialEq, Eq, Structural)]
pub enum TransitionEasing {
    Linear,
    EaseIn,
    EaseOut,
    #[default]
    EaseInOut,
}

#[derive(Clone, Copy, Debug, PartialEq, Eq, Structural)]
pub struct TransitionStyle {
    pub duration_us: i64,
    pub easing: TransitionEasing,
}

/// How far a transition of `duration_us` has run after `elapsed_us`, as a fraction
/// `(done, length)`: nothing before it starts, all of it once it has lasted its duration
/// (or at once when the duration is not positive), else the elapsed time over the duration.
pub open spec fn transition_fraction(duration_us: i64, elapsed_us: i64) -> (int, int) {
    if elapsed_us <= 0 {
        (0, 1)
    } else if duration_us <= 0 || elapsed_us >= duration_us {
        (1, 1)
    } else {
        (elapsed_us as int, duration_us as int)
    }
}

impl TransitionStyle {
    pub fn new(duration_us: i64, easing: TransitionEasing) -> (style: TransitionStyle)
        ensures
            style.duration_us == duration_us,
            style.easing == easing,
    {
        TransitionStyle { duration_us, easing }
    }

    /// The fraction of the transition that has run after `elapsed_us`, before easing.
    pub fn linear_fraction(self, elapsed_us: i64) -> (fraction: (u64, u64))
        ensures
            (fraction.0 as int, fraction.1 as int) == transition_fraction(self.duration_us, elapsed_us),
            fraction.0 <= fraction.1,
            fraction.1 > 0,
    {
        if elapsed_us <= 0 {
            (0, 1)
        } else if self.duration_us <= 0 || elapsed_us >= self.duration_us {
            (1, 1)
        } else {
            (elapsed_us as u64, self.duration_us as u64)
        }
    }
}

impl Default for TransitionStyle {
    fn default() -> (style: TransitionStyle)
        ensures
            style.duration_us == DEFAULT_TRANSITION_DURATION_US,
            style.easing == TransitionEasing::EaseOut,
    {
        TransitionStyle::new(DEFAULT_TRANSITION_DURATION_US, TransitionEasing::EaseOut)
    }
}

/// How many lines to lay out beyond the visible ones.
#[derive(Clone, Copy, Debug, PartialEq, Eq, Structural)]
pub struct Overscan {
    pub before: usize,
    pub after: usize,
}

impl Overscan {
    pub fn new(before: usize, after: usize) -> (overscan: Overscan)
        ensures
            overscan.before == before,
            overscan.after == after,
    {
        Overscan { before, after }
    }

    /// The lines before and after together, saturating at the largest `usize`.
    pub fn total(self) -> (total: usize)
        ensures
            total == if self.before + self.after <= usize::MAX {
                (self.before + self.after) as usize
            } else {
                usize::MAX
            },
    {
        self.before.saturating_add(self.after)
    }
}

impl Default for Overscan {
    fn default() -> (overscan: Overscan)
        ensures
            overscan.before == 4,
            overscan.after == 6,
    {
        Overscan::new(4, 6)
    }
}

} // verus!
