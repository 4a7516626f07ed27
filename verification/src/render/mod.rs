//! Render decisions: the render-state reducer, lane layout order and visibility, and the
//! style values they read.

pub mod batch;
pub mod cache;
pub mod highlight;
pub mod layout;
pub mod motion;
pub mod scheduler;
pub mod state;
pub mod style;
pub mod view;
pub mod visual;

pub use batch::{BatchKey, PixelExtent, TextureBudget};
pub use cache::CacheStamp;
pub use highlight::{cluster_ranges, ranges_overlap, segment_mask, SegmentMask};
pub use scheduler::{frame_delay, frame_delay_micros, WakeupKey};
pub use motion::MotionTiming;
pub use layout::{gap_before_range, slot_for_kind, LaneVisibility, LineHit};
pub use state::{
    AnimationReasons, BatchPlan, ClockSample, DirtyFlags, FrameStatus, FrameTickChange,
    PlaybackState, Reduction, RenderEffects, RenderEvent, RenderState, SourceChanges,
    SourceIntents, Wakeup, WakeupChange, reduce,
};
pub use visual::{gap_window, highlight_status, GapWindow, LaneHighlightStatus, MIN_GAP_DURATION_US};
pub use view::{anchor_event, frame_focus, is_large_seek, scroll_resumption, seek_request, FocusDecision};
pub use style::{LaneSlot, Overscan, TransitionEasing, TransitionStyle};
