//! The ways in which a conversion fails.

use vstd::prelude::*;

verus! {

/// Why a conversion stopped. Every failure ends the run.
#[derive(Clone, Copy, Debug, PartialEq, Eq)]
pub enum ConvertError {
    /// A JSON document in the input is malformed, at this line and column.
    Parse { line: usize, column: usize },
    /// A value that should be a record is not one: a document that is no
    /// object at its top level, or a record that has no flat form.
    InvalidRecordShape,
    /// A row could not be written.
    Io,
    /// The columns were to be detected, and the input holds no record.
    EmptyStream,
}

impl ConvertError {
    /// A short description of the failure.
    pub fn message(&self) -> (r: String)
        ensures
            r@ == match *self {
                ConvertError::Parse { .. } => "malformed JSON document"@,
                ConvertError::InvalidRecordShape => "record is not a JSON object"@,
                ConvertError::Io => "could not write CSV row"@,
                ConvertError::EmptyStream => "no record to detect the columns from"@,
            },
    {
        match self {
            ConvertError::Parse { .. } => String::from_str("malformed JSON document"),
            ConvertError::InvalidRecordShape => String::from_str("record is not a JSON object"),
            ConvertError::Io => String::from_str("could not write CSV row"),
            ConvertError::EmptyStream => String::from_str("no record to detect the columns from"),
        }
    }
}

} // verus!
