//! Protocol-level value types used by the analyzers: positions, ranges and
//! diagnostics, held as plain values.

use vstd::prelude::*;

verus! {

/// A zero-based line/character position in a document.
#[derive(Debug, Clone, Copy, PartialEq, Eq, Structural)]
pub struct Position {
    pub line: u32,
    pub character: u32,
}

/// A range between two positions; `end` is exclusive in the protocol but
/// the analyzers treat both ends as inclusive when locating a cursor.
#[derive(Debug, Clone, Copy, PartialEq, Eq, Structural)]
pub struct Range {
    pub start: Position,
    pub end: Position,
}

impl Position {
    pub fn new(line: u32, character: u32) -> (p: Position)
        ensures
            p.line == line,
            p.character == character,
    {
        Position { line, character }
    }
}

impl Range {
    /// The empty range at the start of a document.
    pub fn zero() -> (r: Range)
        ensures
            r.start.line == 0 && r.start.character == 0,
            r.end.line == 0 && r.end.character == 0,
    {
        Range { start: Position { line: 0, character: 0 }, end: Position { line: 0, character: 0 } }
    }
}

/// Whether `p` lies inside `r`, both ends included.
pub open spec fn spec_position_in_range(p: Position, r: Range) -> bool {
    &&& r.start.line <= p.line <= r.end.line
    &&& (p.line == r.start.line ==> r.start.character <= p.character)
    &&& (p.line == r.end.line ==> p.character <= r.end.character)
}

/// Checks whether a position lies inside a range (both ends included).
pub fn position_in_range(position: Position, range: Range) -> (b: bool)
    ensures
        b == spec_position_in_range(position, range),
{
    if position.line < range.start.line || position.line > range.end.line {
        return false;
    }
    if position.line == range.start.line && position.character < range.start.character {
        return false;
    }
    if position.line == range.end.line && position.character > range.end.character {
        return false;
    }
    true
}


/// How serious a diagnostic is.
#[derive(Debug, Clone, Copy, PartialEq, Eq, Structural)]
pub enum DiagnosticSeverity {
    Error,
    Warning,
    Information,
    Hint,
}

/// A range in a document named by its URI.
#[derive(Debug)]
pub struct Location {
    pub uri: String,
    pub range: Range,
}

/// A location and message that explain a diagnostic.
#[derive(Debug)]
pub struct DiagnosticRelatedInformation {
    pub location: Location,
    pub message: String,
}

/// A problem reported on a range of a document.
#[derive(Debug)]
pub struct Diagnostic {
    pub range: Range,
    pub severity: Option<DiagnosticSeverity>,
    pub code: Option<String>,
    pub message: String,
    pub source: Option<String>,
    pub related_information: Option<Vec<DiagnosticRelatedInformation>>,
}

/// The mathematical content of a [`Diagnostic`]: of its related
/// information, only whether it has any.
pub struct DiagnosticV {
    pub range: Range,
    pub severity: Option<DiagnosticSeverity>,
    pub code: Option<Seq<char>>,
    pub message: Seq<char>,
    pub source: Option<Seq<char>>,
    pub has_related_information: bool,
}

impl View for Diagnostic {
    type V = DiagnosticV;

    open spec fn view(&self) -> DiagnosticV {
        DiagnosticV {
            range: self.range,
            severity: self.severity,
            code: match self.code {
                Some(c) => Some(c@),
                None => None,
            },
            message: self.message@,
            source: match self.source {
                Some(c) => Some(c@),
                None => None,
            },
            has_related_information: self.related_information is Some,
        }
    }
}

/// The source that this server gives its diagnostics.
pub open spec fn server_source() -> Seq<char> {
    "summer-lsp"@
}

/// The view of a diagnostic of this server with the given parts and no
/// related information.
pub open spec fn server_diagnostic(range: Range, severity: DiagnosticSeverity, code: Seq<char>, message: Seq<char>) -> DiagnosticV {
    DiagnosticV {
        range,
        severity: Some(severity),
        code: Some(code),
        message,
        source: Some(server_source()),
        has_related_information: false,
    }
}

impl Diagnostic {
    /// A diagnostic of this server, with a code and no related information.
    pub fn server(range: Range, severity: DiagnosticSeverity, code: &str, message: String) -> (d: Diagnostic)
        ensures
            d@ == server_diagnostic(range, severity, code@, message@),
            d.related_information is None,
    {
        Diagnostic {
            range,
            severity: Some(severity),
            code: Some(String::from_str(code)),
            message,
            source: Some(String::from_str("summer-lsp")),
            related_information: None,
        }
    }
}

/// The views of a sequence of diagnostics.
pub open spec fn diagnostics_view(ds: Seq<Diagnostic>) -> Seq<DiagnosticV> {
    Seq::new(ds.len(), |i: int| ds[i]@)
}


/// A position as the custom requests report it.
#[derive(Debug, Clone, Copy, PartialEq, Eq, Structural)]
pub struct PositionResponse {
    pub line: u32,
    pub character: u32,
}

/// A range as the custom requests report it.
#[derive(Debug, Clone, Copy, PartialEq, Eq, Structural)]
pub struct RangeResponse {
    pub start: PositionResponse,
    pub end: PositionResponse,
}

/// A location as the custom requests report it.
#[derive(Debug)]
pub struct LocationResponse {
    pub uri: String,
    pub range: RangeResponse,
}

/// The response form of a range.
pub open spec fn range_response(r: Range) -> RangeResponse {
    RangeResponse {
        start: PositionResponse { line: r.start.line, character: r.start.character },
        end: PositionResponse { line: r.end.line, character: r.end.character },
    }
}

impl LocationResponse {
    /// The location of `range` in the document `uri`.
    pub fn from_range(uri: &String, range: Range) -> (r: LocationResponse)
        ensures
            r.uri@ == uri@,
            r.range == range_response(range),
    {
        LocationResponse {
            uri: uri.clone(),
            range: RangeResponse {
                start: PositionResponse { line: range.start.line, character: range.start.character },
                end: PositionResponse { line: range.end.line, character: range.end.character },
            },
        }
    }
}

} // verus!
