use vstd::prelude::*;
use vstd::string::StringExecFns;

use crate::time::{decimal_text, push_decimal_text};

verus! {

#[derive(Clone, Copy, Debug, PartialEq, Eq, Hash, Structural)]
pub enum DiagnosticSeverity {
    Warning,
    Error,
}

#[derive(Clone, Copy, Debug, PartialEq, Eq, Hash, Structural)]
pub enum DiagnosticCode {
    MalformedTag,
    MissingTimestamp,
    InvalidTimestamp,
    InvalidOffset,
    InvalidMetadata,
    UnknownMetadata,
    OutOfOrderTimestamp,
    InvalidRange,
    TimeOverflow,
    AmbiguousMatch,
    FuzzyMatch,
    LaneConflict,
    UnmatchedSidecarLine,
}

impl DiagnosticCode {
    /// The variant's name, as written in diagnostic text.
    pub open spec fn name_text(self) -> Seq<char> {
        match self {
            DiagnosticCode::MalformedTag => "MalformedTag"@,
            DiagnosticCode::MissingTimestamp => "MissingTimestamp"@,
            DiagnosticCode::InvalidTimestamp => "InvalidTimestamp"@,
            DiagnosticCode::InvalidOffset => "InvalidOffset"@,
            DiagnosticCode::InvalidMetadata => "InvalidMetadata"@,
            DiagnosticCode::UnknownMetadata => "UnknownMetadata"@,
            DiagnosticCode::OutOfOrderTimestamp => "OutOfOrderTimestamp"@,
            DiagnosticCode::InvalidRange => "InvalidRange"@,
            DiagnosticCode::TimeOverflow => "TimeOverflow"@,
            DiagnosticCode::AmbiguousMatch => "AmbiguousMatch"@,
            DiagnosticCode::FuzzyMatch => "FuzzyMatch"@,
            DiagnosticCode::LaneConflict => "LaneConflict"@,
            DiagnosticCode::UnmatchedSidecarLine => "UnmatchedSidecarLine"@,
        }
    }

    /// The variant's name.
    pub fn name(self) -> (name: &'static str)
        ensures
            name@ == self.name_text(),
    {
        match self {
            DiagnosticCode::MalformedTag => "MalformedTag",
            DiagnosticCode::MissingTimestamp => "MissingTimestamp",
            DiagnosticCode::InvalidTimestamp => "InvalidTimestamp",
            DiagnosticCode::InvalidOffset => "InvalidOffset",
            DiagnosticCode::InvalidMetadata => "InvalidMetadata",
            DiagnosticCode::UnknownMetadata => "UnknownMetadata",
            DiagnosticCode::OutOfOrderTimestamp => "OutOfOrderTimestamp",
            DiagnosticCode::InvalidRange => "InvalidRange",
            DiagnosticCode::TimeOverflow => "TimeOverflow",
            DiagnosticCode::AmbiguousMatch => "AmbiguousMatch",
            DiagnosticCode::FuzzyMatch => "FuzzyMatch",
            DiagnosticCode::LaneConflict => "LaneConflict",
            DiagnosticCode::UnmatchedSidecarLine => "UnmatchedSidecarLine",
        }
    }
}

/// A position in the source text: 1-based line and column (in characters) and a byte offset.
#[derive(Clone, Copy, Debug, PartialEq, Eq, Hash, Structural)]
pub struct SourcePosition {
    pub line: usize,
    pub column: usize,
    pub byte_offset: usize,
}

impl SourcePosition {
    pub fn new(line: usize, column: usize, byte_offset: usize) -> (position: SourcePosition)
        ensures
            position == (SourcePosition { line, column, byte_offset }),
    {
        SourcePosition { line, column, byte_offset }
    }
}

#[derive(Clone, Copy, Debug, PartialEq, Eq, Hash, Structural)]
pub struct SourceSpan {
    pub start: SourcePosition,
    pub end: SourcePosition,
}

impl SourceSpan {
    pub fn new(start: SourcePosition, end: SourcePosition) -> (span: SourceSpan)
        ensures
            span == (SourceSpan { start, end }),
    {
        SourceSpan { start, end }
    }

    /// A span of `byte_len` bytes on one line, whose characters are all one byte wide.
    pub fn at(line: usize, column: usize, byte_offset: usize, byte_len: usize) -> (span: SourceSpan)
        requires
            column + byte_len <= usize::MAX,
            byte_offset + byte_len <= usize::MAX,
        ensures
            span.start == (SourcePosition { line, column, byte_offset }),
            span.end == (SourcePosition {
                line,
                column: (column + byte_len) as usize,
                byte_offset: (byte_offset + byte_len) as usize,
            }),
    {
        SourceSpan {
            start: SourcePosition::new(line, column, byte_offset),
            end: SourcePosition::new(line, column + byte_len, byte_offset + byte_len),
        }
    }
}

#[derive(Clone, Debug, PartialEq, Eq)]
pub struct Diagnostic {
    pub severity: DiagnosticSeverity,
    pub code: DiagnosticCode,
    pub message: String,
    pub span: Option<SourceSpan>,
}

impl Diagnostic {
    pub fn warning(code: DiagnosticCode, message: &str) -> (diagnostic: Diagnostic)
        ensures
            diagnostic.severity == DiagnosticSeverity::Warning,
            diagnostic.code == code,
            diagnostic.message@ == message@,
            diagnostic.span.is_none(),
    {
        Diagnostic {
            severity: DiagnosticSeverity::Warning,
            code,
            message: String::from_str(message),
            span: None,
        }
    }

    pub fn error(code: DiagnosticCode, message: &str) -> (diagnostic: Diagnostic)
        ensures
            diagnostic.severity == DiagnosticSeverity::Error,
            diagnostic.code == code,
            diagnostic.message@ == message@,
            diagnostic.span.is_none(),
    {
        Diagnostic {
            severity: DiagnosticSeverity::Error,
            code,
            message: String::from_str(message),
            span: None,
        }
    }

    pub fn with_span(self, span: SourceSpan) -> (diagnostic: Diagnostic)
        ensures
            diagnostic.severity == self.severity,
            diagnostic.code == self.code,
            diagnostic.message == self.message,
            diagnostic.span == Some(span),
    {
        let mut diagnostic = self;
        diagnostic.span = Some(span);
        diagnostic
    }

    /// The text of the diagnostic: `line:column: Code: message` when it has a span,
    /// else `Code: message`.
    pub open spec fn text(self) -> Seq<char> {
        let tail = self.code.name_text() + ": "@ + self.message@;
        match self.span {
            Some(span) => decimal_text(span.start.line as nat) + ":"@ + decimal_text(
                span.start.column as nat,
            ) + ": "@ + tail,
            None => tail,
        }
    }

    /// The diagnostic written out, as in `2:4: MalformedTag: bad tag`.
    pub fn describe(&self) -> (text: String)
        ensures
            text@ == self.text(),
    {
        let mut text = String::new();
        proof {
            reveal_strlit(":");
            reveal_strlit(": ");
        }
        if let Some(span) = self.span {
            push_decimal_text(&mut text, span.start.line as u64);
            text.append(":");
            push_decimal_text(&mut text, span.start.column as u64);
            text.append(": ");
        }
        text.append(self.code.name());
        text.append(": ");
        text.append(self.message.as_str());
        proof {
            assert(text@ =~= self.text());
        }
        text
    }
}

} // verus!
