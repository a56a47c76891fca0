//! The error taxonomy shared by the four codecs. Every parse failure carries
//! enough context (field label, offending text) to diagnose the input
//! without re-reading it.

use vstd::prelude::*;
use crate::text::str_of;
use crate::text::append_str;

verus! {

/// A parse failure, with the context needed to diagnose it.
#[derive(Debug, Clone, PartialEq, Eq)]
pub enum FormatError {
    /// The line sequence ended where a header line was expected.
    MissingHeaderLine { key: String },
    /// A header line carried a different label than the expected one.
    HeaderKeyMismatch { expected: String, found: String },
    /// A header value was present but not readable as the expected number.
    InvalidNumericField { field: String, text: String },
    /// A grid line had the wrong token arity or an ill-shaped token.
    MalformedGridLine { line: String },
    /// A required section marker or the grid body never appeared.
    MissingMapSection { marker: String },
    /// The header was well-formed but no grid data followed it.
    EmptyGrid,
}

/// The mathematical shadow of `FormatError`.
pub enum ErrorV {
    MissingHeaderLine { key: Seq<char> },
    HeaderKeyMismatch { expected: Seq<char>, found: Seq<char> },
    InvalidNumericField { field: Seq<char>, text: Seq<char> },
    MalformedGridLine { line: Seq<char> },
    MissingMapSection { marker: Seq<char> },
    EmptyGrid,
}

impl View for FormatError {
    type V = ErrorV;

    open spec fn view(&self) -> ErrorV {
        match self {
            FormatError::MissingHeaderLine { key } => ErrorV::MissingHeaderLine { key: key@ },
            FormatError::HeaderKeyMismatch { expected, found } => ErrorV::HeaderKeyMismatch {
                expected: expected@,
                found: found@,
            },
            FormatError::InvalidNumericField { field, text } => ErrorV::InvalidNumericField {
                field: field@,
                text: text@,
            },
            FormatError::MalformedGridLine { line } => ErrorV::MalformedGridLine { line: line@ },
            FormatError::MissingMapSection { marker } => ErrorV::MissingMapSection {
                marker: marker@,
            },
            FormatError::EmptyGrid => ErrorV::EmptyGrid,
        }
    }
}

/// The diagnostic text of an error.
pub open spec fn message_spec(e: ErrorV) -> Seq<char> {
    match e {
        ErrorV::MissingHeaderLine { key } => "missing header line for `"@ + key + "`"@,
        ErrorV::HeaderKeyMismatch { expected, found } => "expected `"@ + expected
            + "`, found `"@ + found + "`"@,
        ErrorV::InvalidNumericField { field, text } => "invalid numeric value for `"@ + field
            + "`: `"@ + text + "`"@,
        ErrorV::MalformedGridLine { line } => "malformed grid line `"@ + line + "`"@,
        ErrorV::MissingMapSection { marker } => "missing map section `"@ + marker + "`"@,
        ErrorV::EmptyGrid => "no grid data after the header"@,
    }
}

impl FormatError {
    /// A readable description of the failure, for the caller to surface.
    pub fn message(&self) -> (s: String)
        ensures
            s@ == message_spec(self@),
    {
        let mut out: Vec<char> = Vec::new();
        match self {
            FormatError::MissingHeaderLine { key } => {
                append_str(&mut out, "missing header line for `");
                append_str(&mut out, key.as_str());
                append_str(&mut out, "`");
            },
            FormatError::HeaderKeyMismatch { expected, found } => {
                append_str(&mut out, "expected `");
                append_str(&mut out, expected.as_str());
                append_str(&mut out, "`, found `");
                append_str(&mut out, found.as_str());
                append_str(&mut out, "`");
            },
            FormatError::InvalidNumericField { field, text } => {
                append_str(&mut out, "invalid numeric value for `");
                append_str(&mut out, field.as_str());
                append_str(&mut out, "`: `");
                append_str(&mut out, text.as_str());
                append_str(&mut out, "`");
            },
            FormatError::MalformedGridLine { line } => {
                append_str(&mut out, "malformed grid line `");
                append_str(&mut out, line.as_str());
                append_str(&mut out, "`");
            },
            FormatError::MissingMapSection { marker } => {
                append_str(&mut out, "missing map section `");
                append_str(&mut out, marker.as_str());
                append_str(&mut out, "`");
            },
            FormatError::EmptyGrid => {
                append_str(&mut out, "no grid data after the header");
            },
        }
        str_of(&out)
    }
}

} // verus!
