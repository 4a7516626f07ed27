//! Lyric and danmaku timing logic: an LRC parser, a lyric document model, variant
//! assembly, a timeline index and the render-state reducer.

pub mod assemble;
pub mod dandanapi;
pub mod danmaku;
pub mod diagnostics;
pub mod model;
pub mod palette;
pub mod player;
pub mod parser;
pub mod render;
pub mod sizing;
pub mod text;
pub mod time;
pub mod timeline;

pub use assemble::{
    AssemblyReport, MatchStrategy, MergeStrategy, SidecarMatchStrategy, VariantAssembler,
    VariantMatchStrategy,
};
pub use diagnostics::{Diagnostic, DiagnosticCode, DiagnosticSeverity, SourcePosition, SourceSpan};
pub use model::{
    LaneKind, LineId, LyricLane, LyricLine, LyricTrack, LyricsDocument, LyricsMetadata,
    MetadataTag, TimedSegment,
};
pub use parser::{parse_lrc, ParseMode, ParseOptions, ParseReport};
pub use render::{
    reduce, AnimationReasons, BatchPlan, ClockSample, DirtyFlags, FrameStatus, FrameTickChange,
    PlaybackState, Reduction, RenderEffects, RenderEvent, RenderState, SourceChanges,
    SourceIntents, Wakeup, WakeupChange,
};
pub use time::{LyricTime, TimeRange};
pub use timeline::{ActiveLine, SegmentProgress, Timeline, TimelineFrame, TimelineLine};
