//! The render-state reducer: from the widget's state and one event to the next state and
//! the work the widget must schedule.

use vstd::prelude::*;

use crate::time::LyricTime;

verus! {

/// Whether media time advances from a playback anchor.
#[derive(Clone, Copy, Debug, Default, PartialEq, Eq, Structural)]
pub enum PlaybackState {
    #[default]
    Paused,
    Playing,
}

impl PlaybackState {
    pub fn is_playing(self) -> (playing: bool)
        ensures
            playing == (self is Playing),
    {
        match self {
            PlaybackState::Playing => true,
            PlaybackState::Paused => false,
        }
    }
}

/// The media position that a playback anchor gives at one frame time, and whether the
/// anchor advances (it plays at a finite, non-zero rate).
#[derive(Clone, Copy, Debug, PartialEq, Eq, Structural)]
pub struct ClockSample {
    pub position: LyricTime,
    pub advancing: bool,
}

/// The animation bits that run while playback is paused: line transition, scroll settle,
/// user gesture and interaction.
pub const UI_ANIMATION_BITS: u8 = 0xa6;

/// Independent reasons for which continuous frame updates may be required, one bit each.
#[derive(Clone, Copy, Debug, Default, PartialEq, Eq, Structural)]
pub struct AnimationReasons(pub u8);

impl AnimationReasons {
    pub fn none() -> (reasons: AnimationReasons)
        ensures
            reasons.0 == 0,
    {
        AnimationReasons(0)
    }

    pub fn word_progress() -> (reasons: AnimationReasons)
        ensures
            reasons.0 == 1,
    {
        AnimationReasons(1)
    }

    pub fn line_transition() -> (reasons: AnimationReasons)
        ensures
            reasons.0 == 2,
    {
        AnimationReasons(2)
    }

    pub fn scroll_settle() -> (reasons: AnimationReasons)
        ensures
            reasons.0 == 4,
    {
        AnimationReasons(4)
    }

    pub fn cover_crossfade() -> (reasons: AnimationReasons)
        ensures
            reasons.0 == 8,
    {
        AnimationReasons(8)
    }

    pub fn background_motion() -> (reasons: AnimationReasons)
        ensures
            reasons.0 == 16,
    {
        AnimationReasons(16)
    }

    pub fn user_gesture() -> (reasons: AnimationReasons)
        ensures
            reasons.0 == 32,
    {
        AnimationReasons(32)
    }

    pub fn gap_pulse() -> (reasons: AnimationReasons)
        ensures
            reasons.0 == 64,
    {
        AnimationReasons(64)
    }

    pub fn interaction() -> (reasons: AnimationReasons)
        ensures
            reasons.0 == 128,
    {
        AnimationReasons(128)
    }

    pub fn all() -> (reasons: AnimationReasons)
        ensures
            reasons.0 == 0xff,
    {
        AnimationReasons(0xff)
    }

    pub fn from_bits_truncate(bits: u8) -> (reasons: AnimationReasons)
        ensures
            reasons.0 == bits,
    {
        assert(bits & 0xff == bits) by (bit_vector);
        AnimationReasons(bits & 0xff)
    }

    pub fn bits(self) -> (bits: u8)
        ensures
            bits == self.0,
    {
        self.0
    }

    pub fn is_empty(self) -> (empty: bool)
        ensures
            empty == (self.0 == 0),
    {
        self.0 == 0
    }

    pub fn contains(self, other: AnimationReasons) -> (contained: bool)
        ensures
            contained == (self.0 & other.0 == other.0),
    {
        self.0 & other.0 == other.0
    }

    pub fn intersects(self, other: AnimationReasons) -> (shared: bool)
        ensures
            shared == (self.0 & other.0 != 0),
    {
        self.0 & other.0 != 0
    }

    pub fn insert(&mut self, other: AnimationReasons)
        ensures
            final(self).0 == old(self).0 | other.0,
    {
        self.0 = self.0 | other.0;
    }

    pub fn remove(&mut self, other: AnimationReasons)
        ensures
            final(self).0 == old(self).0 & !other.0,
    {
        self.0 = self.0 & !other.0;
    }
}

impl core::ops::BitOr for AnimationReasons {
    type Output = AnimationReasons;

    fn bitor(self, rhs: AnimationReasons) -> (union: AnimationReasons)
        ensures
            union.0 == self.0 | rhs.0,
    {
        AnimationReasons(self.0 | rhs.0)
    }
}

impl vstd::std_specs::ops::BitOrSpecImpl for AnimationReasons {
    open spec fn obeys_bitor_spec() -> bool {
        true
    }

    open spec fn bitor_req(self, rhs: AnimationReasons) -> bool {
        true
    }

    open spec fn bitor_spec(self, rhs: AnimationReasons) -> AnimationReasons {
        AnimationReasons(self.0 | rhs.0)
    }
}

impl core::ops::BitAnd for AnimationReasons {
    type Output = AnimationReasons;

    fn bitand(self, rhs: AnimationReasons) -> (common: AnimationReasons)
        ensures
            common.0 == self.0 & rhs.0,
    {
        AnimationReasons(self.0 & rhs.0)
    }
}

impl vstd::std_specs::ops::BitAndSpecImpl for AnimationReasons {
    open spec fn obeys_bitand_spec() -> bool {
        true
    }

    open spec fn bitand_req(self, rhs: AnimationReasons) -> bool {
        true
    }

    open spec fn bitand_spec(self, rhs: AnimationReasons) -> AnimationReasons {
        AnimationReasons(self.0 & rhs.0)
    }
}

impl core::ops::Not for AnimationReasons {
    type Output = AnimationReasons;

    fn not(self) -> (complement: AnimationReasons)
        ensures
            complement.0 == !self.0,
    {
        AnimationReasons(!self.0)
    }
}

impl vstd::std_specs::ops::NotSpecImpl for AnimationReasons {
    open spec fn obeys_not_spec() -> bool {
        true
    }

    open spec fn not_req(self) -> bool {
        true
    }

    open spec fn not_spec(self) -> AnimationReasons {
        AnimationReasons(!self.0)
    }
}

#[derive(Clone, Copy, Debug, Default, PartialEq, Eq, Structural)]
pub enum RenderState {
    #[default]
    Detached,
    Empty,
    Preparing { generation: u64 },
    Static { position: LyricTime },
    Waiting { next_event: LyricTime },
    Animating { reasons: AnimationReasons },
    Seeking { generation: u64, target: LyricTime },
    ManualScroll { return_deadline_us: i64, advancing: bool, animating: bool },
}

impl RenderState {
    /// Whether the state wants a frame tick each frame.
    pub open spec fn ticks(self) -> bool {
        match self {
            RenderState::Animating { .. } => true,
            RenderState::ManualScroll { advancing, animating, .. } => advancing || animating,
            _ => false,
        }
    }

    /// Whether a document is attached: neither detached nor empty.
    pub open spec fn holds_document(self) -> bool {
        !(self is Detached || self is Empty)
    }

    /// Whether a prepared scene can be shown.
    pub open spec fn ready(self) -> bool {
        self is Static || self is Waiting || self is Animating || self is ManualScroll
    }

    /// The scheduler sources that the state wants.
    pub open spec fn intents(self) -> SourceIntents {
        match self {
            RenderState::Waiting { next_event } => SourceIntents {
                frame_tick: false,
                wakeup: Some(Wakeup::MediaTime(next_event)),
            },
            RenderState::Animating { .. } => SourceIntents { frame_tick: true, wakeup: None },
            RenderState::ManualScroll { return_deadline_us, advancing, animating } => SourceIntents {
                frame_tick: advancing || animating,
                wakeup: Some(Wakeup::FrameTime(return_deadline_us)),
            },
            _ => SourceIntents { frame_tick: false, wakeup: None },
        }
    }

    pub fn needs_frame_tick(&self) -> (tick: bool)
        ensures
            tick == self.ticks(),
    {
        match self {
            RenderState::Animating { .. } => true,
            RenderState::ManualScroll { advancing, animating, .. } => *advancing || *animating,
            _ => false,
        }
    }

    pub fn has_document(&self) -> (attached: bool)
        ensures
            attached == self.holds_document(),
    {
        match self {
            RenderState::Detached | RenderState::Empty => false,
            _ => true,
        }
    }

    pub fn has_ready_scene(&self) -> (ready: bool)
        ensures
            ready == self.ready(),
    {
        match self {
            RenderState::Static { .. }
            | RenderState::Waiting { .. }
            | RenderState::Animating { .. }
            | RenderState::ManualScroll { .. } => true,
            _ => false,
        }
    }

    pub fn source_intents(&self) -> (intents: SourceIntents)
        ensures
            intents == self.intents(),
    {
        match self {
            RenderState::Waiting { next_event } => SourceIntents {
                frame_tick: false,
                wakeup: Some(Wakeup::MediaTime(*next_event)),
            },
            RenderState::Animating { .. } => SourceIntents { frame_tick: true, wakeup: None },
            RenderState::ManualScroll { return_deadline_us, advancing, animating } => SourceIntents {
                frame_tick: *advancing || *animating,
                wakeup: Some(Wakeup::FrameTime(*return_deadline_us)),
            },
            _ => SourceIntents::none(),
        }
    }
}

/// Timeline information needed to choose a render state at one absolute time.
#[derive(Clone, Copy, Debug, PartialEq, Eq, Structural)]
pub struct FrameStatus {
    pub position: LyricTime,
    pub next_event: Option<LyricTime>,
    pub animations: AnimationReasons,
}

/// The state that a prepared scene takes at `frame` under `playback`: paused playback
/// animates only the UI reasons; playing animates every reason, else waits for the next
/// timeline event, else is static.
pub open spec fn state_for(frame: FrameStatus, playback: PlaybackState) -> RenderState {
    if !(playback is Playing) {
        let ui = frame.animations.0 & UI_ANIMATION_BITS;
        if ui != 0 {
            RenderState::Animating { reasons: AnimationReasons(ui) }
        } else {
            RenderState::Static { position: frame.position }
        }
    } else if frame.animations.0 != 0 {
        RenderState::Animating { reasons: frame.animations }
    } else {
        match frame.next_event {
            Some(next_event) => RenderState::Waiting { next_event },
            None => RenderState::Static { position: frame.position },
        }
    }
}

/// The playback state of a clock sample.
pub open spec fn playback_of(advancing: bool) -> PlaybackState {
    if advancing {
        PlaybackState::Playing
    } else {
        PlaybackState::Paused
    }
}

impl FrameStatus {
    pub fn new(position: LyricTime, next_event: Option<LyricTime>, animations: AnimationReasons) -> (frame: FrameStatus)
        ensures
            frame == (FrameStatus { position, next_event, animations }),
    {
        FrameStatus { position, next_event, animations }
    }

    /// The frame at a clock sample.
    pub fn from_sample(sample: ClockSample, next_event: Option<LyricTime>, animations: AnimationReasons) -> (frame: FrameStatus)
        ensures
            frame == (FrameStatus { position: sample.position, next_event, animations }),
    {
        FrameStatus { position: sample.position, next_event, animations }
    }

    pub fn render_state(self, playback: PlaybackState) -> (state: RenderState)
        ensures
            state == state_for(self, playback),
    {
        if !playback.is_playing() {
            let ui_animations = self.animations.0 & UI_ANIMATION_BITS;
            if ui_animations != 0 {
                return RenderState::Animating { reasons: AnimationReasons(ui_animations) };
            }
            return RenderState::Static { position: self.position };
        }
        if !self.animations.is_empty() {
            return RenderState::Animating { reasons: self.animations };
        }
        match self.next_event {
            Some(next_event) => RenderState::Waiting { next_event },
            None => RenderState::Static { position: self.position },
        }
    }

    /// The state at a clock sample: playing when the anchor advances.
    pub fn render_state_for_sample(self, sample: ClockSample) -> (state: RenderState)
        ensures
            state == state_for(self, playback_of(sample.advancing)),
    {
        let playback = if sample.advancing {
            PlaybackState::Playing
        } else {
            PlaybackState::Paused
        };
        self.render_state(playback)
    }
}

#[derive(Clone, Copy, Debug, PartialEq, Eq, Structural)]
pub enum Wakeup {
    MediaTime(LyricTime),
    FrameTime(i64),
}

/// Desired scheduler state after a reduction.
#[derive(Clone, Copy, Debug, Default, PartialEq, Eq, Structural)]
pub struct SourceIntents {
    pub frame_tick: bool,
    pub wakeup: Option<Wakeup>,
}

/// The change that moves the scheduler from `current` to `desired`.
pub open spec fn changes_between(desired: SourceIntents, current: SourceIntents) -> SourceChanges {
    SourceChanges {
        frame_tick: if !current.frame_tick && desired.frame_tick {
            FrameTickChange::Start
        } else if current.frame_tick && !desired.frame_tick {
            FrameTickChange::Stop
        } else {
            FrameTickChange::Keep
        },
        wakeup: if current.wakeup == desired.wakeup {
            WakeupChange::Keep
        } else {
            match desired.wakeup {
                Some(wakeup) => WakeupChange::Schedule(wakeup),
                None => WakeupChange::Cancel,
            }
        },
    }
}

impl SourceIntents {
    pub fn none() -> (intents: SourceIntents)
        ensures
            intents == (SourceIntents { frame_tick: false, wakeup: None }),
    {
        SourceIntents { frame_tick: false, wakeup: None }
    }

    pub fn changes_from(self, current: SourceIntents) -> (changes: SourceChanges)
        ensures
            changes == changes_between(self, current),
    {
        let frame_tick = if !current.frame_tick && self.frame_tick {
            FrameTickChange::Start
        } else if current.frame_tick && !self.frame_tick {
            FrameTickChange::Stop
        } else {
            FrameTickChange::Keep
        };
        let wakeup = if same_wakeup(current.wakeup, self.wakeup) {
            WakeupChange::Keep
        } else {
            match self.wakeup {
                Some(wakeup) => WakeupChange::Schedule(wakeup),
                None => WakeupChange::Cancel,
            }
        };
        SourceChanges { frame_tick, wakeup }
    }
}

fn same_wakeup(left: Option<Wakeup>, right: Option<Wakeup>) -> (same: bool)
    ensures
        same == (left == right),
{
    match (left, right) {
        (None, None) => true,
        (Some(Wakeup::FrameTime(l)), Some(Wakeup::FrameTime(r))) => l == r,
        (Some(Wakeup::MediaTime(l)), Some(Wakeup::MediaTime(r))) => l == r,
        _ => false,
    }
}

#[derive(Clone, Copy, Debug, Default, PartialEq, Eq, Structural)]
pub struct SourceChanges {
    pub frame_tick: FrameTickChange,
    pub wakeup: WakeupChange,
}

#[derive(Clone, Copy, Debug, Default, PartialEq, Eq, Structural)]
pub enum FrameTickChange {
    #[default]
    Keep,
    Start,
    Stop,
}

#[derive(Clone, Copy, Debug, Default, PartialEq, Eq, Structural)]
pub enum WakeupChange {
    #[default]
    Keep,
    Schedule(Wakeup),
    Cancel,
}

/// Which parts of the widget must be recomputed, one bit each.
#[derive(Clone, Copy, Debug, Default, PartialEq, Eq, Structural)]
pub struct DirtyFlags(pub u8);

pub const DIRTY_POSITION: u8 = 1;
pub const DIRTY_TIMELINE: u8 = 2;
pub const DIRTY_LAYOUT: u8 = 4;
pub const DIRTY_TEXT_VISUALS: u8 = 8;
pub const DIRTY_STATIC_SCENE: u8 = 16;
pub const DIRTY_COVER: u8 = 32;
pub const DIRTY_BACKGROUND: u8 = 64;
pub const DIRTY_VIEWPORT: u8 = 128;

impl DirtyFlags {
    pub fn none() -> (flags: DirtyFlags)
        ensures
            flags.0 == 0,
    {
        DirtyFlags(0)
    }

    pub fn position() -> (flags: DirtyFlags)
        ensures
            flags.0 == DIRTY_POSITION,
    {
        DirtyFlags(DIRTY_POSITION)
    }

    pub fn timeline() -> (flags: DirtyFlags)
        ensures
            flags.0 == DIRTY_TIMELINE,
    {
        DirtyFlags(DIRTY_TIMELINE)
    }

    pub fn layout() -> (flags: DirtyFlags)
        ensures
            flags.0 == DIRTY_LAYOUT,
    {
        DirtyFlags(DIRTY_LAYOUT)
    }

    pub fn text_visuals() -> (flags: DirtyFlags)
        ensures
            flags.0 == DIRTY_TEXT_VISUALS,
    {
        DirtyFlags(DIRTY_TEXT_VISUALS)
    }

    pub fn static_scene() -> (flags: DirtyFlags)
        ensures
            flags.0 == DIRTY_STATIC_SCENE,
    {
        DirtyFlags(DIRTY_STATIC_SCENE)
    }

    pub fn cover() -> (flags: DirtyFlags)
        ensures
            flags.0 == DIRTY_COVER,
    {
        DirtyFlags(DIRTY_COVER)
    }

    pub fn background() -> (flags: DirtyFlags)
        ensures
            flags.0 == DIRTY_BACKGROUND,
    {
        DirtyFlags(DIRTY_BACKGROUND)
    }

    pub fn viewport() -> (flags: DirtyFlags)
        ensures
            flags.0 == DIRTY_VIEWPORT,
    {
        DirtyFlags(DIRTY_VIEWPORT)
    }

    pub fn all() -> (flags: DirtyFlags)
        ensures
            flags.0 == 0xff,
    {
        DirtyFlags(0xff)
    }

    pub fn bits(self) -> (bits: u8)
        ensures
            bits == self.0,
    {
        self.0
    }

    pub fn is_empty(self) -> (empty: bool)
        ensures
            empty == (self.0 == 0),
    {
        self.0 == 0
    }

    pub fn contains(self, other: DirtyFlags) -> (contained: bool)
        ensures
            contained == (self.0 & other.0 == other.0),
    {
        self.0 & other.0 == other.0
    }

    pub fn insert(&mut self, other: DirtyFlags)
        ensures
            final(self).0 == old(self).0 | other.0,
    {
        self.0 = self.0 | other.0;
    }
}

impl core::ops::BitOr for DirtyFlags {
    type Output = DirtyFlags;

    fn bitor(self, rhs: DirtyFlags) -> (union: DirtyFlags)
        ensures
            union.0 == self.0 | rhs.0,
    {
        DirtyFlags(self.0 | rhs.0)
    }
}

impl vstd::std_specs::ops::BitOrSpecImpl for DirtyFlags {
    open spec fn obeys_bitor_spec() -> bool {
        true
    }

    open spec fn bitor_req(self, rhs: DirtyFlags) -> bool {
        true
    }

    open spec fn bitor_spec(self, rhs: DirtyFlags) -> DirtyFlags {
        DirtyFlags(self.0 | rhs.0)
    }
}

impl core::ops::BitAnd for DirtyFlags {
    type Output = DirtyFlags;

    fn bitand(self, rhs: DirtyFlags) -> (common: DirtyFlags)
        ensures
            common.0 == self.0 & rhs.0,
    {
        DirtyFlags(self.0 & rhs.0)
    }
}

impl vstd::std_specs::ops::BitAndSpecImpl for DirtyFlags {
    open spec fn obeys_bitand_spec() -> bool {
        true
    }

    open spec fn bitand_req(self, rhs: DirtyFlags) -> bool {
        true
    }

    open spec fn bitand_spec(self, rhs: DirtyFlags) -> DirtyFlags {
        DirtyFlags(self.0 & rhs.0)
    }
}

#[derive(Clone, Copy, Debug, Default, PartialEq, Eq, Structural)]
pub enum BatchPlan {
    #[default]
    Idle,
    Prepare { generation: u64 },
    Rebuild { generation: u64 },
    DeferRebuild { generation: u64 },
    Cancel,
}

#[derive(Clone, Copy, Debug, Default, PartialEq, Eq, Structural)]
pub struct RenderEffects {
    pub sources: SourceIntents,
    pub dirty: DirtyFlags,
    pub batch: BatchPlan,
    pub queue_draw: bool,
}

#[derive(Clone, Copy, Debug, PartialEq, Eq, Structural)]
pub struct Reduction {
    pub state: RenderState,
    pub effects: RenderEffects,
}

/// An input to the reducer. Events that sample the playback clock carry the sampled
/// position and whether the anchor advances.
#[derive(Clone, Copy, Debug, PartialEq, Eq, Structural)]
pub enum RenderEvent {
    Mapped { document_generation: Option<u64> },
    Unmapped,
    Disposed,
    DocumentChanged { generation: Option<u64> },
    Prepared { generation: u64, playback: PlaybackState, frame: FrameStatus },
    AnchorChanged { sample: ClockSample, next_event: Option<LyricTime>, animations: AnimationReasons },
    Play { frame: FrameStatus },
    Pause { position: LyricTime },
    Seek { generation: u64, target: LyricTime },
    SeekCommitted { generation: u64 },
    AllocationChanged { generation: u64, valid: bool, relayout: bool },
    ScaleChanged { generation: u64 },
    StyleChanged { generation: u64 },
    ThemeChanged { generation: u64 },
    CoverChanged { generation: u64 },
    Wakeup { sample: ClockSample, next_event: Option<LyricTime>, animations: AnimationReasons },
    Tick { sample: ClockSample, next_event: Option<LyricTime>, animations: AnimationReasons },
    AnimationsChanged { playback: PlaybackState, frame: FrameStatus },
    UserScroll { return_deadline_us: i64, advancing: bool },
    ManualScrollTimeout { frame_time_us: i64, playback: PlaybackState, frame: FrameStatus },
}

/// A reduction to `state` whose sources are those `state` wants.
pub open spec fn completed(state: RenderState, dirty: u8, batch: BatchPlan, queue_draw: bool) -> Reduction {
    Reduction {
        state,
        effects: RenderEffects { sources: state.intents(), dirty: DirtyFlags(dirty), batch, queue_draw },
    }
}

/// The reduction that keeps `state` and asks for nothing.
pub open spec fn kept(state: RenderState) -> Reduction {
    completed(state, 0, BatchPlan::Idle, false)
}

pub open spec fn mapped_reduction(state: RenderState, generation: Option<u64>) -> Reduction {
    if !(state is Detached) {
        kept(state)
    } else {
        match generation {
            Some(g) => completed(RenderState::Preparing { generation: g }, 0xff, BatchPlan::Prepare { generation: g }, true),
            None => completed(RenderState::Empty, 0, BatchPlan::Idle, true),
        }
    }
}

pub open spec fn detached_reduction(state: RenderState) -> Reduction {
    if state is Detached {
        kept(state)
    } else {
        completed(RenderState::Detached, 0, BatchPlan::Cancel, false)
    }
}

pub open spec fn document_changed_reduction(state: RenderState, generation: Option<u64>) -> Reduction {
    if state is Detached {
        completed(state, 0xff, BatchPlan::Idle, false)
    } else {
        match generation {
            None => completed(RenderState::Empty, 0xff, BatchPlan::Cancel, !(state is Empty)),
            Some(g) => if state == (RenderState::Preparing { generation: g }) {
                completed(state, 0xff, BatchPlan::Idle, false)
            } else {
                completed(RenderState::Preparing { generation: g }, 0xff, BatchPlan::Prepare { generation: g }, true)
            },
        }
    }
}

pub open spec fn prepared_reduction(state: RenderState, generation: u64, playback: PlaybackState, frame: FrameStatus) -> Reduction {
    if state == (RenderState::Preparing { generation }) {
        completed(state_for(frame, playback), DIRTY_STATIC_SCENE | DIRTY_POSITION, BatchPlan::Idle, true)
    } else {
        kept(state)
    }
}

/// A move to `next`, when allowed and different.
pub open spec fn frame_change_reduction(state: RenderState, next: RenderState, allowed: bool) -> Reduction {
    if !allowed || state == next {
        kept(state)
    } else {
        completed(next, DIRTY_POSITION, BatchPlan::Idle, true)
    }
}

pub open spec fn play_reduction(state: RenderState, frame: FrameStatus) -> Reduction {
    match state {
        RenderState::ManualScroll { return_deadline_us, animating, .. } => completed(
            RenderState::ManualScroll { return_deadline_us, advancing: true, animating },
            DIRTY_POSITION,
            BatchPlan::Idle,
            true,
        ),
        _ => frame_change_reduction(state, state_for(frame, PlaybackState::Playing), state.ready()),
    }
}

pub open spec fn pause_reduction(state: RenderState, position: LyricTime) -> Reduction {
    match state {
        RenderState::ManualScroll { return_deadline_us, animating, .. } => completed(
            RenderState::ManualScroll { return_deadline_us, advancing: false, animating },
            DIRTY_POSITION,
            BatchPlan::Idle,
            true,
        ),
        _ => frame_change_reduction(state, RenderState::Static { position }, state.ready()),
    }
}

/// Whether any UI animation reason is set.
pub open spec fn ui_animating(reasons: AnimationReasons) -> bool {
    reasons.0 & UI_ANIMATION_BITS != 0
}

pub open spec fn animations_changed_reduction(state: RenderState, playback: PlaybackState, frame: FrameStatus) -> Reduction {
    match state {
        RenderState::ManualScroll { return_deadline_us, .. } => completed(
            RenderState::ManualScroll {
                return_deadline_us,
                advancing: playback is Playing,
                animating: ui_animating(frame.animations),
            },
            0,
            BatchPlan::Idle,
            false,
        ),
        _ => frame_change_reduction(state, state_for(frame, playback), state.ready()),
    }
}

pub open spec fn seek_reduction(state: RenderState, generation: u64, target: LyricTime) -> Reduction {
    let next = RenderState::Seeking { generation, target };
    if !state.holds_document() || state == next {
        kept(state)
    } else {
        completed(next, DIRTY_TIMELINE | DIRTY_POSITION, BatchPlan::Idle, true)
    }
}

pub open spec fn seek_committed_reduction(state: RenderState, generation: u64) -> Reduction {
    match state {
        RenderState::Seeking { generation: current, .. } => if current == generation {
            completed(
                RenderState::Preparing { generation },
                DIRTY_TIMELINE | DIRTY_STATIC_SCENE,
                BatchPlan::Prepare { generation },
                false,
            )
        } else {
            kept(state)
        },
        _ => kept(state),
    }
}

pub open spec fn invalidation_reduction(state: RenderState, generation: u64, dirty: u8, valid_allocation: Option<bool>) -> Reduction {
    let batch = if state.holds_document() {
        if valid_allocation == Some(false) {
            BatchPlan::DeferRebuild { generation }
        } else {
            BatchPlan::Rebuild { generation }
        }
    } else {
        BatchPlan::Idle
    };
    let draw = valid_allocation != Some(false) && !(state is Detached);
    completed(state, dirty, batch, draw)
}

pub open spec fn allocation_reduction(state: RenderState, generation: u64, valid: bool, relayout: bool) -> Reduction {
    if relayout {
        invalidation_reduction(state, generation, DIRTY_LAYOUT | DIRTY_TEXT_VISUALS | DIRTY_STATIC_SCENE, Some(valid))
    } else {
        completed(state, DIRTY_VIEWPORT, BatchPlan::Idle, valid && !(state is Detached))
    }
}

pub open spec fn clock_sample_reduction(state: RenderState, sample: ClockSample, frame: FrameStatus, allowed: bool, preserve_manual_scroll: bool) -> Reduction {
    if !allowed {
        kept(state)
    } else {
        let next = match state {
            RenderState::ManualScroll { return_deadline_us, .. } => if preserve_manual_scroll {
                RenderState::ManualScroll {
                    return_deadline_us,
                    advancing: sample.advancing,
                    animating: ui_animating(frame.animations),
                }
            } else {
                state_for(frame, playback_of(sample.advancing))
            },
            _ => state_for(frame, playback_of(sample.advancing)),
        };
        completed(next, DIRTY_POSITION, BatchPlan::Idle, true)
    }
}

pub open spec fn user_scroll_reduction(state: RenderState, return_deadline_us: i64, advancing: bool) -> Reduction {
    if !state.ready() {
        kept(state)
    } else {
        let animating = match state {
            RenderState::Animating { reasons } => ui_animating(reasons),
            RenderState::ManualScroll { animating, .. } => animating,
            _ => false,
        };
        let next = RenderState::ManualScroll { return_deadline_us, advancing, animating };
        completed(next, 0, BatchPlan::Idle, state != next)
    }
}

pub open spec fn manual_scroll_timeout_reduction(state: RenderState, frame_time_us: i64, playback: PlaybackState, frame: FrameStatus) -> Reduction {
    match state {
        RenderState::ManualScroll { return_deadline_us, .. } => if frame_time_us < return_deadline_us {
            kept(state)
        } else {
            completed(state_for(frame, playback), DIRTY_POSITION, BatchPlan::Idle, true)
        },
        _ => kept(state),
    }
}

/// The reducer's transition: the reduction that `event` causes in `state`.
pub open spec fn reduction_for(state: RenderState, event: RenderEvent) -> Reduction {
    match event {
        RenderEvent::Mapped { document_generation } => mapped_reduction(state, document_generation),
        RenderEvent::Unmapped | RenderEvent::Disposed => detached_reduction(state),
        RenderEvent::DocumentChanged { generation } => document_changed_reduction(state, generation),
        RenderEvent::Prepared { generation, playback, frame } => prepared_reduction(state, generation, playback, frame),
        RenderEvent::AnchorChanged { sample, next_event, animations } => clock_sample_reduction(
            state,
            sample,
            FrameStatus { position: sample.position, next_event, animations },
            state.ready(),
            true,
        ),
        RenderEvent::Play { frame } => play_reduction(state, frame),
        RenderEvent::Pause { position } => pause_reduction(state, position),
        RenderEvent::Seek { generation, target } => seek_reduction(state, generation, target),
        RenderEvent::SeekCommitted { generation } => seek_committed_reduction(state, generation),
        RenderEvent::AllocationChanged { generation, valid, relayout } => allocation_reduction(state, generation, valid, relayout),
        RenderEvent::ScaleChanged { generation } | RenderEvent::StyleChanged { generation } => invalidation_reduction(
            state,
            generation,
            DIRTY_LAYOUT | DIRTY_TEXT_VISUALS | DIRTY_STATIC_SCENE,
            None,
        ),
        RenderEvent::ThemeChanged { generation } => invalidation_reduction(
            state,
            generation,
            DIRTY_TEXT_VISUALS | DIRTY_STATIC_SCENE | DIRTY_BACKGROUND,
            None,
        ),
        RenderEvent::CoverChanged { generation } => invalidation_reduction(state, generation, DIRTY_COVER | DIRTY_BACKGROUND, None),
        RenderEvent::Wakeup { sample, next_event, animations } => clock_sample_reduction(
            state,
            sample,
            FrameStatus { position: sample.position, next_event, animations },
            state is Waiting,
            false,
        ),
        RenderEvent::Tick { sample, next_event, animations } => clock_sample_reduction(
            state,
            sample,
            FrameStatus { position: sample.position, next_event, animations },
            state.ticks(),
            true,
        ),
        RenderEvent::AnimationsChanged { playback, frame } => animations_changed_reduction(state, playback, frame),
        RenderEvent::UserScroll { return_deadline_us, advancing } => user_scroll_reduction(state, return_deadline_us, advancing),
        RenderEvent::ManualScrollTimeout { frame_time_us, playback, frame } => manual_scroll_timeout_reduction(
            state,
            frame_time_us,
            playback,
            frame,
        ),
    }
}

pub fn reduce(state: RenderState, event: RenderEvent) -> (reduction: Reduction)
    ensures
        reduction == reduction_for(state, event),
{
    match event {
        RenderEvent::Mapped { document_generation } => reduce_mapped(state, document_generation),
        RenderEvent::Unmapped | RenderEvent::Disposed => reduce_detached(state),
        RenderEvent::DocumentChanged { generation } => reduce_document_changed(state, generation),
        RenderEvent::Prepared { generation, playback, frame } => reduce_prepared(state, generation, playback, frame),
        RenderEvent::AnchorChanged { sample, next_event, animations } => {
            let frame = FrameStatus::from_sample(sample, next_event, animations);
            let allowed = state.has_ready_scene();
            reduce_clock_sample(state, sample, frame, allowed, true)
        },
        RenderEvent::Play { frame } => reduce_play(state, frame),
        RenderEvent::Pause { position } => reduce_pause(state, position),
        RenderEvent::Seek { generation, target } => reduce_seek(state, generation, target),
        RenderEvent::SeekCommitted { generation } => reduce_seek_committed(state, generation),
        RenderEvent::AllocationChanged { generation, valid, relayout } => reduce_allocation(state, generation, valid, relayout),
        RenderEvent::ScaleChanged { generation } | RenderEvent::StyleChanged { generation } => reduce_invalidation(
            state,
            generation,
            DIRTY_LAYOUT | DIRTY_TEXT_VISUALS | DIRTY_STATIC_SCENE,
            None,
        ),
        RenderEvent::ThemeChanged { generation } => reduce_invalidation(
            state,
            generation,
            DIRTY_TEXT_VISUALS | DIRTY_STATIC_SCENE | DIRTY_BACKGROUND,
            None,
        ),
        RenderEvent::CoverChanged { generation } => reduce_invalidation(state, generation, DIRTY_COVER | DIRTY_BACKGROUND, None),
        RenderEvent::Wakeup { sample, next_event, animations } => {
            let frame = FrameStatus::from_sample(sample, next_event, animations);
            let allowed = match state {
                RenderState::Waiting { .. } => true,
                _ => false,
            };
            reduce_clock_sample(state, sample, frame, allowed, false)
        },
        RenderEvent::Tick { sample, next_event, animations } => {
            let frame = FrameStatus::from_sample(sample, next_event, animations);
            let allowed = state.needs_frame_tick();
            reduce_clock_sample(state, sample, frame, allowed, true)
        },
        RenderEvent::AnimationsChanged { playback, frame } => reduce_animations_changed(state, playback, frame),
        RenderEvent::UserScroll { return_deadline_us, advancing } => reduce_user_scroll(state, return_deadline_us, advancing),
        RenderEvent::ManualScrollTimeout { frame_time_us, playback, frame } => reduce_manual_scroll_timeout(
            state,
            frame_time_us,
            playback,
            frame,
        ),
    }
}

fn reduce_mapped(state: RenderState, generation: Option<u64>) -> (reduction: Reduction)
    ensures
        reduction == mapped_reduction(state, generation),
{
    match state {
        RenderState::Detached => {},
        _ => return unchanged(state),
    }
    match generation {
        Some(generation) => complete(
            RenderState::Preparing { generation },
            DirtyFlags::all(),
            BatchPlan::Prepare { generation },
            true,
        ),
        None => complete(RenderState::Empty, DirtyFlags::none(), BatchPlan::Idle, true),
    }
}

fn reduce_detached(state: RenderState) -> (reduction: Reduction)
    ensures
        reduction == detached_reduction(state),
{
    match state {
        RenderState::Detached => unchanged(state),
        _ => complete(RenderState::Detached, DirtyFlags::none(), BatchPlan::Cancel, false),
    }
}

fn reduce_document_changed(state: RenderState, generation: Option<u64>) -> (reduction: Reduction)
    ensures
        reduction == document_changed_reduction(state, generation),
{
    match (state, generation) {
        (RenderState::Detached, _) => complete(state, DirtyFlags::all(), BatchPlan::Idle, false),
        (_, None) => {
            let was_empty = match state {
                RenderState::Empty => true,
                _ => false,
            };
            complete(RenderState::Empty, DirtyFlags::all(), BatchPlan::Cancel, !was_empty)
        },
        (RenderState::Preparing { generation: old }, Some(generation)) if old == generation => {
            complete(state, DirtyFlags::all(), BatchPlan::Idle, false)
        },
        (_, Some(generation)) => complete(
            RenderState::Preparing { generation },
            DirtyFlags::all(),
            BatchPlan::Prepare { generation },
            true,
        ),
    }
}

fn reduce_prepared(state: RenderState, generation: u64, playback: PlaybackState, frame: FrameStatus) -> (reduction: Reduction)
    ensures
        reduction == prepared_reduction(state, generation, playback, frame),
{
    let current_generation = match state {
        RenderState::Preparing { generation } => generation,
        _ => return unchanged(state),
    };
    if current_generation != generation {
        return unchanged(state);
    }
    complete(
        frame.render_state(playback),
        DirtyFlags(DIRTY_STATIC_SCENE | DIRTY_POSITION),
        BatchPlan::Idle,
        true,
    )
}

fn reduce_play(state: RenderState, frame: FrameStatus) -> (reduction: Reduction)
    ensures
        reduction == play_reduction(state, frame),
{
    if let RenderState::ManualScroll { return_deadline_us, animating, .. } = state {
        return complete(
            RenderState::ManualScroll { return_deadline_us, advancing: true, animating },
            DirtyFlags::position(),
            BatchPlan::Idle,
            true,
        );
    }
    let next = frame.render_state(PlaybackState::Playing);
    reduce_frame_change(state, next, state.has_ready_scene())
}

fn reduce_pause(state: RenderState, position: LyricTime) -> (reduction: Reduction)
    ensures
        reduction == pause_reduction(state, position),
{
    if let RenderState::ManualScroll { return_deadline_us, animating, .. } = state {
        return complete(
            RenderState::ManualScroll { return_deadline_us, advancing: false, animating },
            DirtyFlags::position(),
            BatchPlan::Idle,
            true,
        );
    }
    reduce_frame_change(state, RenderState::Static { position }, state.has_ready_scene())
}

fn reduce_animations_changed(state: RenderState, playback: PlaybackState, frame: FrameStatus) -> (reduction: Reduction)
    ensures
        reduction == animations_changed_reduction(state, playback, frame),
{
    if let RenderState::ManualScroll { return_deadline_us, .. } = state {
        let next = RenderState::ManualScroll {
            return_deadline_us,
            advancing: playback.is_playing(),
            animating: has_ui_animation(frame.animations),
        };
        return complete(next, DirtyFlags::none(), BatchPlan::Idle, false);
    }
    reduce_frame_change(state, frame.render_state(playback), state.has_ready_scene())
}

fn reduce_frame_change(state: RenderState, next: RenderState, allowed: bool) -> (reduction: Reduction)
    ensures
        reduction == frame_change_reduction(state, next, allowed),
{
    if !allowed || state == next {
        return unchanged(state);
    }
    complete(next, DirtyFlags::position(), BatchPlan::Idle, true)
}

fn reduce_seek(state: RenderState, generation: u64, target: LyricTime) -> (reduction: Reduction)
    ensures
        reduction == seek_reduction(state, generation, target),
{
    if !state.has_document() {
        return unchanged(state);
    }
    let next = RenderState::Seeking { generation, target };
    if state == next {
        unchanged(state)
    } else {
        complete(next, DirtyFlags(DIRTY_TIMELINE | DIRTY_POSITION), BatchPlan::Idle, true)
    }
}

fn reduce_seek_committed(state: RenderState, generation: u64) -> (reduction: Reduction)
    ensures
        reduction == seek_committed_reduction(state, generation),
{
    let current_generation = match state {
        RenderState::Seeking { generation, .. } => generation,
        _ => return unchanged(state),
    };
    if current_generation != generation {
        return unchanged(state);
    }
    complete(
        RenderState::Preparing { generation },
        DirtyFlags(DIRTY_TIMELINE | DIRTY_STATIC_SCENE),
        BatchPlan::Prepare { generation },
        false,
    )
}

fn reduce_allocation(state: RenderState, generation: u64, valid: bool, relayout: bool) -> (reduction: Reduction)
    ensures
        reduction == allocation_reduction(state, generation, valid, relayout),
{
    if relayout {
        return reduce_invalidation(
            state,
            generation,
            DIRTY_LAYOUT | DIRTY_TEXT_VISUALS | DIRTY_STATIC_SCENE,
            Some(valid),
        );
    }
    let detached = match state {
        RenderState::Detached => true,
        _ => false,
    };
    complete(state, DirtyFlags::viewport(), BatchPlan::Idle, valid && !detached)
}

fn reduce_invalidation(state: RenderState, generation: u64, dirty: u8, valid_allocation: Option<bool>) -> (reduction: Reduction)
    ensures
        reduction == invalidation_reduction(state, generation, dirty, valid_allocation),
{
    let batch = if state.has_document() {
        match valid_allocation {
            Some(false) => BatchPlan::DeferRebuild { generation },
            _ => BatchPlan::Rebuild { generation },
        }
    } else {
        BatchPlan::Idle
    };
    let allocation_ok = match valid_allocation {
        Some(valid) => valid,
        None => true,
    };
    let detached = match state {
        RenderState::Detached => true,
        _ => false,
    };
    complete(state, DirtyFlags(dirty), batch, allocation_ok && !detached)
}

fn reduce_clock_sample(state: RenderState, sample: ClockSample, frame: FrameStatus, allowed: bool, preserve_manual_scroll: bool) -> (reduction: Reduction)
    ensures
        reduction == clock_sample_reduction(state, sample, frame, allowed, preserve_manual_scroll),
{
    if !allowed {
        return unchanged(state);
    }
    let next = match state {
        RenderState::ManualScroll { return_deadline_us, .. } if preserve_manual_scroll => {
            RenderState::ManualScroll {
                return_deadline_us,
                advancing: sample.advancing,
                animating: has_ui_animation(frame.animations),
            }
        },
        _ => frame.render_state_for_sample(sample),
    };
    complete(next, DirtyFlags::position(), BatchPlan::Idle, true)
}

fn has_ui_animation(reasons: AnimationReasons) -> (animating: bool)
    ensures
        animating == ui_animating(reasons),
{
    reasons.0 & UI_ANIMATION_BITS != 0
}

fn reduce_user_scroll(state: RenderState, return_deadline_us: i64, advancing: bool) -> (reduction: Reduction)
    ensures
        reduction == user_scroll_reduction(state, return_deadline_us, advancing),
{
    if !state.has_ready_scene() {
        return unchanged(state);
    }
    let animating = match state {
        RenderState::Animating { reasons } => has_ui_animation(reasons),
        RenderState::ManualScroll { animating, .. } => animating,
        _ => false,
    };
    let next = RenderState::ManualScroll { return_deadline_us, advancing, animating };
    complete(next, DirtyFlags::none(), BatchPlan::Idle, state != next)
}

fn reduce_manual_scroll_timeout(state: RenderState, frame_time_us: i64, playback: PlaybackState, frame: FrameStatus) -> (reduction: Reduction)
    ensures
        reduction == manual_scroll_timeout_reduction(state, frame_time_us, playback, frame),
{
    let deadline = match state {
        RenderState::ManualScroll { return_deadline_us, .. } => return_deadline_us,
        _ => return unchanged(state),
    };
    if frame_time_us < deadline {
        return unchanged(state);
    }
    complete(frame.render_state(playback), DirtyFlags::position(), BatchPlan::Idle, true)
}

fn unchanged(state: RenderState) -> (reduction: Reduction)
    ensures
        reduction == kept(state),
{
    complete(state, DirtyFlags::none(), BatchPlan::Idle, false)
}

fn complete(state: RenderState, dirty: DirtyFlags, batch: BatchPlan, queue_draw: bool) -> (reduction: Reduction)
    ensures
        reduction == completed(state, dirty.0, batch, queue_draw),
{
    Reduction {
        state,
        effects: RenderEffects { sources: state.source_intents(), dirty, batch, queue_draw },
    }
}

/// The scheduler sources after `changes` are applied to `current`.
pub open spec fn applied(current: SourceIntents, changes: SourceChanges) -> SourceIntents {
    SourceIntents {
        frame_tick: match changes.frame_tick {
            FrameTickChange::Keep => current.frame_tick,
            FrameTickChange::Start => true,
            FrameTickChange::Stop => false,
        },
        wakeup: match changes.wakeup {
            WakeupChange::Keep => current.wakeup,
            WakeupChange::Schedule(wakeup) => Some(wakeup),
            WakeupChange::Cancel => None,
        },
    }
}

/// Applying the changes from `current` to `desired` puts the desired sources in place.
pub proof fn lemma_changes_reach_desired(desired: SourceIntents, current: SourceIntents)
    ensures
        applied(current, changes_between(desired, current)) == desired,
{
}

/// Reconciliation is idempotent: once the desired sources are in place, reconciling with
/// the same desired sources again starts, stops, schedules and cancels nothing.
pub proof fn lemma_reconciliation_is_idempotent(desired: SourceIntents, current: SourceIntents)
    ensures
        changes_between(desired, applied(current, changes_between(desired, current))) == (SourceChanges {
            frame_tick: FrameTickChange::Keep,
            wakeup: WakeupChange::Keep,
        }),
{
}

/// A state needs a frame tick exactly when the sources it wants include the frame tick.
pub proof fn lemma_ticks_match_sources(state: RenderState)
    ensures
        state.ticks() == state.intents().frame_tick,
{
}

/// Every reduction asks for exactly the sources of the state it reduces to.
pub proof fn lemma_reduction_requests_its_sources(state: RenderState, event: RenderEvent)
    ensures
        reduction_for(state, event).effects.sources == reduction_for(state, event).state.intents(),
{
}

/// Paused playback animates only for interface reasons: the reasons it animates for are
/// among the interface reasons, and there is at least one.
pub proof fn lemma_paused_playback_animates_only_for_the_interface(frame: FrameStatus)
    ensures
        state_for(frame, PlaybackState::Paused) matches RenderState::Animating { reasons } ==> (reasons.0
            & !UI_ANIMATION_BITS == 0 && ui_animating(reasons)),
{
    let bits = frame.animations.0;
    assert((bits & 0xa6u8) & !0xa6u8 == 0 && ((bits & 0xa6u8) != 0 ==> (bits & 0xa6u8) & 0xa6u8 != 0)) by (bit_vector);
}

/// A preparation result for another generation than the one being prepared changes
/// nothing and asks for nothing.
pub proof fn lemma_stale_preparation_is_ignored(state: RenderState, generation: u64, playback: PlaybackState, frame: FrameStatus)
    requires
        state != (RenderState::Preparing { generation }),
    ensures
        reduction_for(state, RenderEvent::Prepared { generation, playback, frame }) == kept(state),
        reduction_for(state, RenderEvent::Prepared { generation, playback, frame }).effects.dirty.0 == 0,
        !reduction_for(state, RenderEvent::Prepared { generation, playback, frame }).effects.queue_draw,
{
}

/// A seek commit for another generation than the pending seek changes nothing.
pub proof fn lemma_stale_seek_commit_is_ignored(state: RenderState, generation: u64)
    requires
        !(state matches RenderState::Seeking { generation: pending, .. } && pending == generation),
    ensures
        reduction_for(state, RenderEvent::SeekCommitted { generation }) == kept(state),
{
}

/// Unmapping or disposing detaches, stops every scheduler source, and cancels the batch
/// work of an attached state.
pub proof fn lemma_detaching_stops_everything(state: RenderState, event: RenderEvent)
    requires
        event is Unmapped || event is Disposed,
    ensures
        reduction_for(state, event).state is Detached,
        reduction_for(state, event).effects.sources == (SourceIntents { frame_tick: false, wakeup: None }),
        !(state is Detached) ==> reduction_for(state, event).effects.batch is Cancel,
{
}

/// Pausing stops media-driven work: no media-time wakeup stays scheduled, and frame ticks
/// continue only for the interface animation of a manual scroll.
pub proof fn lemma_pause_stops_media_sources(state: RenderState, position: LyricTime)
    ensures
        !(reduction_for(state, RenderEvent::Pause { position }).state.intents().wakeup matches Some(
            Wakeup::MediaTime(_),
        )),
        reduction_for(state, RenderEvent::Pause { position }).state.ticks() ==> (state matches RenderState::ManualScroll {
            animating,
            ..
        } && animating),
{
}

/// Pressing play on a shown scene resumes playback from the frame: the scene animates for
/// every reason the frame animates for, else waits for the frame's next timeline event and
/// asks for a media-time wakeup at it, else rests at the frame's position. A change of
/// state moves the position and queues a draw; no change asks for nothing.
pub proof fn lemma_play_resumes_playback(state: RenderState, frame: FrameStatus)
    requires
        state.ready(),
        !(state is ManualScroll),
    ensures
        frame.animations.0 != 0 ==> reduction_for(state, RenderEvent::Play { frame }).state
            == (RenderState::Animating { reasons: frame.animations }),
        frame.animations.0 == 0 && frame.next_event is Some ==> reduction_for(
            state,
            RenderEvent::Play { frame },
        ).state == (RenderState::Waiting { next_event: frame.next_event.unwrap() })
            && reduction_for(state, RenderEvent::Play { frame }).effects.sources.wakeup == Some(
            Wakeup::MediaTime(frame.next_event.unwrap()),
        ),
        frame.animations.0 == 0 && frame.next_event is None ==> reduction_for(
            state,
            RenderEvent::Play { frame },
        ).state == (RenderState::Static { position: frame.position }),
        reduction_for(state, RenderEvent::Play { frame }).state != state ==> reduction_for(
            state,
            RenderEvent::Play { frame },
        ).effects.dirty.0 == DIRTY_POSITION && reduction_for(state, RenderEvent::Play { frame }).effects.queue_draw,
        reduction_for(state, RenderEvent::Play { frame }).state == state ==> reduction_for(
            state,
            RenderEvent::Play { frame },
        ).effects.dirty.0 == 0 && !reduction_for(state, RenderEvent::Play { frame }).effects.queue_draw,
{
}

/// Play and pause of the same frame on a shown scene part ways whenever playback has
/// something to do: when the frame has a next timeline event or animates for any reason,
/// pausing rests at the frame's position while playing does not.
pub proof fn lemma_play_and_pause_differ_when_playback_matters(state: RenderState, frame: FrameStatus)
    requires
        state.ready(),
        !(state is ManualScroll),
        frame.next_event is Some || frame.animations.0 != 0,
    ensures
        reduction_for(state, RenderEvent::Pause { position: frame.position }).state
            == (RenderState::Static { position: frame.position }),
        reduction_for(state, RenderEvent::Play { frame }).state != reduction_for(
            state,
            RenderEvent::Pause { position: frame.position },
        ).state,
{
}

/// Pressing play during a manual scroll keeps the scroll and its return deadline and
/// interface animation, marks the playback as advancing so frames tick, moves the position
/// and queues a draw.
pub proof fn lemma_play_during_manual_scroll_advances(
    return_deadline_us: i64,
    advancing: bool,
    animating: bool,
    frame: FrameStatus,
)
    ensures
        reduction_for(
            RenderState::ManualScroll { return_deadline_us, advancing, animating },
            RenderEvent::Play { frame },
        ).state == (RenderState::ManualScroll { return_deadline_us, advancing: true, animating }),
        reduction_for(
            RenderState::ManualScroll { return_deadline_us, advancing, animating },
            RenderEvent::Play { frame },
        ).effects.sources == (SourceIntents {
            frame_tick: true,
            wakeup: Some(Wakeup::FrameTime(return_deadline_us)),
        }),
        reduction_for(
            RenderState::ManualScroll { return_deadline_us, advancing, animating },
            RenderEvent::Play { frame },
        ).effects.dirty.0 == DIRTY_POSITION,
        reduction_for(
            RenderState::ManualScroll { return_deadline_us, advancing, animating },
            RenderEvent::Play { frame },
        ).effects.queue_draw,
{
}

} // verus!
