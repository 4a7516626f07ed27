pub mod grammar;
pub mod lrc;
pub mod timestamp;

use vstd::prelude::*;

use crate::diagnostics::{Diagnostic, DiagnosticSeverity};
use crate::model::{LaneKind, LyricsDocument};
use crate::time::LyricTime;

pub use lrc::parse_lrc;

verus! {

#[derive(Clone, Copy, Debug, Default, PartialEq, Eq, Structural)]
pub enum ParseMode {
    Strict,
    #[default]
    Lenient,
}

#[derive(Clone, Debug, PartialEq, Eq)]
pub struct ParseOptions {
    pub mode: ParseMode,
    pub lane_kind: LaneKind,
    pub language: Option<String>,
    pub media_duration: Option<LyricTime>,
    pub fallback_duration: Option<LyricTime>,
}

impl Default for ParseOptions {
    fn default() -> (options: ParseOptions)
        ensures
            options.mode == ParseMode::Lenient,
            options.lane_kind == LaneKind::Original,
            options.language is None,
            options.media_duration is None,
            options.fallback_duration == Some(LyricTime(5_000_000)),
    {
        ParseOptions {
            mode: ParseMode::Lenient,
            lane_kind: LaneKind::Original,
            language: None,
            media_duration: None,
            fallback_duration: Some(LyricTime(5_000_000)),
        }
    }
}

impl ParseOptions {
    /// The default options with strict parsing.
    pub fn strict() -> (options: ParseOptions)
        ensures
            options.mode == ParseMode::Strict,
            options.lane_kind == LaneKind::Original,
            options.language is None,
            options.media_duration is None,
            options.fallback_duration == Some(LyricTime(5_000_000)),
    {
        ParseOptions { mode: ParseMode::Strict, ..ParseOptions::default() }
    }

    /// The default options: lenient parsing.
    pub fn lenient() -> (options: ParseOptions)
        ensures
            options.mode == ParseMode::Lenient,
            options.lane_kind == LaneKind::Original,
            options.language is None,
            options.media_duration is None,
            options.fallback_duration == Some(LyricTime(5_000_000)),
    {
        ParseOptions::default()
    }
}

/// Whether some diagnostic is an error.
pub open spec fn any_error(diagnostics: Seq<Diagnostic>) -> bool {
    exists|i: int|
        0 <= i < diagnostics.len() && (#[trigger] diagnostics[i]).severity == DiagnosticSeverity::Error
}

/// Whether `diagnostics` holds an error.
pub fn contains_error(diagnostics: &Vec<Diagnostic>) -> (error: bool)
    ensures
        error == any_error(diagnostics@),
{
    let mut i: usize = 0;
    while i < diagnostics.len()
        invariant
            i <= diagnostics@.len(),
            forall|k: int|
                0 <= k < i ==> (#[trigger] diagnostics@[k]).severity != DiagnosticSeverity::Error,
        decreases diagnostics.len() - i,
    {
        match diagnostics[i].severity {
            DiagnosticSeverity::Error => return true,
            DiagnosticSeverity::Warning => {},
        }
        i += 1;
    }
    false
}

#[derive(Clone, Debug)]
pub struct ParseReport {
    pub document: Option<LyricsDocument>,
    pub diagnostics: Vec<Diagnostic>,
}

impl ParseReport {
    pub fn has_errors(&self) -> (errors: bool)
        ensures
            errors == any_error(self.diagnostics@),
    {
        contains_error(&self.diagnostics)
    }

    /// The document, when there is one and no diagnostic is an error; else the diagnostics.
    pub fn into_result(self) -> (result: Result<LyricsDocument, Vec<Diagnostic>>)
        ensures
            any_error(self.diagnostics@) ==> result == Err::<LyricsDocument, Vec<Diagnostic>>(
                self.diagnostics,
            ),
            !any_error(self.diagnostics@) ==> match self.document {
                Some(document) => result == Ok::<LyricsDocument, Vec<Diagnostic>>(document),
                None => result == Err::<LyricsDocument, Vec<Diagnostic>>(self.diagnostics),
            },
    {
        if self.has_errors() {
            Err(self.diagnostics)
        } else {
            match self.document {
                Some(document) => Ok(document),
                None => Err(self.diagnostics),
            }
        }
    }
}

} // verus!
