//! Why a report could not be made. Every failure is final: nothing is
//! reported from the part of a log that could be read.

use vstd::prelude::*;

verus! {

/// One of the two timestamps of an entry.
#[derive(Clone, Copy, Debug, PartialEq, Eq, Structural)]
pub enum TimeField {
    Start,
    End,
}

/// Why a report could not be made. Rows are counted from 0.
#[derive(Clone, Debug)]
pub enum ReportError {
    /// The text is not well-formed CSV; `message` says why.
    Csv { message: String },
    /// Row `row` has fewer than four fields.
    MissingFields { row: usize },
    /// Field `field` of row `row` holds `value`, which is no RFC 3339
    /// timestamp.
    BadTimestamp { row: usize, field: TimeField, value: String },
    /// The entry of row `row` ends before it starts.
    EndBeforeStart { row: usize },
    /// The zone is unknown, or the local date of an end of the entry of row
    /// `row` is not known.
    NoLocalDate { row: usize },
    /// The entry of row `row` crosses a midnight at which it cannot be cut.
    NoMidnight { row: usize },
}

/// What a `ReportError` holds.
pub ghost enum Failure {
    Csv { message: Seq<char> },
    MissingFields { row: usize },
    BadTimestamp { row: usize, field: TimeField, value: Seq<char> },
    EndBeforeStart { row: usize },
    NoLocalDate { row: usize },
    NoMidnight { row: usize },
}

impl View for ReportError {
    type V = Failure;

    open spec fn view(&self) -> Failure {
        match self {
            ReportError::Csv { message } => Failure::Csv { message: message@ },
            ReportError::MissingFields { row } => Failure::MissingFields { row: *row },
            ReportError::BadTimestamp { row, field, value } => Failure::BadTimestamp {
                row: *row,
                field: *field,
                value: value@,
            },
            ReportError::EndBeforeStart { row } => Failure::EndBeforeStart { row: *row },
            ReportError::NoLocalDate { row } => Failure::NoLocalDate { row: *row },
            ReportError::NoMidnight { row } => Failure::NoMidnight { row: *row },
        }
    }
}

} // verus!
