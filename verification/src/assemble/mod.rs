//! Assembly of lyric variants into one document.

pub mod variants;

pub use variants::{
    AssemblyReport, MatchStrategy, MergeStrategy, SidecarMatchStrategy, VariantAssembler,
    VariantMatchStrategy,
};
