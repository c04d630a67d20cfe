//! The parse-error taxonomy: one kind per failure cause, each carrying the
//! offending literal where one exists.

use vstd::prelude::*;

verus! {

/// The sub-field of the timestamp that failed to decode.
#[derive(Debug, Clone, Copy, PartialEq, Eq, Structural)]
pub enum TimestampField {
    Hour,
    Minute,
    Second,
    SubSecond,
}

/// The positional field of a log line.
#[derive(Debug, Clone, Copy, PartialEq, Eq, Structural)]
pub enum Token {
    Timestamp { field: Option<TimestampField> },
    PID,
    Thread,
    Level,
    Category,
    File,
    LineNumber,
    Function,
    Message,
    Object,
}

/// Why a line failed to parse.
#[derive(Debug)]
pub enum ParsingError {
    InvalidDebugLevel { name: String },
    InvalidTimestamp { ts: String, field: TimestampField },
    MissingToken { t: Token },
    InvalidPID { pid: String },
    MissingLocation,
    InvalidLineNumber { line: String },
}

/// Mathematical image of a [`ParsingError`]: the same taxonomy with the
/// offending literals as character sequences.
pub enum ParsingErrorView {
    InvalidDebugLevel { name: Seq<char> },
    InvalidTimestamp { ts: Seq<char>, field: TimestampField },
    MissingToken { t: Token },
    InvalidPID { pid: Seq<char> },
    MissingLocation,
    InvalidLineNumber { line: Seq<char> },
}

impl View for ParsingError {
    type V = ParsingErrorView;

    open spec fn view(&self) -> ParsingErrorView {
        match self {
            ParsingError::InvalidDebugLevel { name } => ParsingErrorView::InvalidDebugLevel {
                name: name@,
            },
            ParsingError::InvalidTimestamp { ts, field } => ParsingErrorView::InvalidTimestamp {
                ts: ts@,
                field: *field,
            },
            ParsingError::MissingToken { t } => ParsingErrorView::MissingToken { t: *t },
            ParsingError::InvalidPID { pid } => ParsingErrorView::InvalidPID { pid: pid@ },
            ParsingError::MissingLocation => ParsingErrorView::MissingLocation,
            ParsingError::InvalidLineNumber { line } => ParsingErrorView::InvalidLineNumber {
                line: line@,
            },
        }
    }
}

impl PartialEq for ParsingError {
    fn eq(&self, other: &Self) -> (r: bool) {
        match (self, other) {
            (
                ParsingError::InvalidDebugLevel { name: a },
                ParsingError::InvalidDebugLevel { name: b },
            ) => *a == *b,
            (
                ParsingError::InvalidTimestamp { ts: a, field: fa },
                ParsingError::InvalidTimestamp { ts: b, field: fb },
            ) => *a == *b && *fa == *fb,
            (ParsingError::MissingToken { t: a }, ParsingError::MissingToken { t: b }) => *a == *b,
            (ParsingError::InvalidPID { pid: a }, ParsingError::InvalidPID { pid: b }) => *a == *b,
            (ParsingError::MissingLocation, ParsingError::MissingLocation) => true,
            (
                ParsingError::InvalidLineNumber { line: a },
                ParsingError::InvalidLineNumber { line: b },
            ) => *a == *b,
            _ => false,
        }
    }
}

impl vstd::std_specs::cmp::PartialEqSpecImpl for ParsingError {
    open spec fn obeys_eq_spec() -> bool {
        true
    }

    open spec fn eq_spec(&self, other: &Self) -> bool {
        self@ == other@
    }
}

impl Eq for ParsingError {

}

} // verus!
