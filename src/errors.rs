//! The recoverable error that a malformed field produces.

use vstd::prelude::*;

verus! {

/// The field whose text could not be read as its declared type.
#[derive(Clone, Copy, Debug, PartialEq, Eq, Structural)]
pub enum Field {
    Year,
    Month,
    /// The value of the given day slot (1..=31).
    Value(i32),
    Latitude,
    Longitude,
    Elevation,
}

/// A field of one line that is not a number: the record's identifier, the
/// field, and the field's trimmed text.
#[derive(Clone, Debug)]
pub struct MalformedField {
    pub station: Vec<char>,
    pub field: Field,
    pub text: Vec<char>,
}

pub struct MalformedFieldView {
    pub station: Seq<char>,
    pub field: Field,
    pub text: Seq<char>,
}

impl View for MalformedField {
    type V = MalformedFieldView;

    open spec fn view(&self) -> MalformedFieldView {
        MalformedFieldView { station: self.station@, field: self.field, text: self.text@ }
    }
}

/// A malformed field together with the 1-based number of its line.
#[derive(Clone, Debug)]
pub struct LineError {
    pub line_no: usize,
    pub error: MalformedField,
}

pub struct LineErrorView {
    pub line_no: int,
    pub error: MalformedFieldView,
}

impl View for LineError {
    type V = LineErrorView;

    open spec fn view(&self) -> LineErrorView {
        LineErrorView { line_no: self.line_no as int, error: self.error@ }
    }
}

} // verus!
