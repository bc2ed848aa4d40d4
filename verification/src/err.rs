//! The compiler's error type. Compilation is fail-fast: the first term that
//! cannot be interpreted aborts the whole compilation, and the error names
//! the offending parameter key and term.
use vstd::prelude::*;

verus! {

/// Mathematical image of a `CompassError`.
pub enum ErrModel {
    FieldNotFound,
    InvalidNumber { param: Seq<char>, term: Seq<char> },
    InvalidBool { param: Seq<char>, term: Seq<char> },
    UnsafeText { param: Seq<char>, term: Seq<char> },
}

/// An error produced while compiling a request.
#[derive(Debug)]
pub enum CompassError {
    /// The request named a field the schema cannot resolve (reserved for a
    /// strict mode; the compiler skips unknown names silently).
    FieldNotFound,
    /// A term had to parse as an integer and did not.
    InvalidNumber { param: String, term: String },
    /// A term had to parse as a boolean and did not.
    InvalidBool { param: String, term: String },
    /// A term or dotted name would be spliced into the query text but holds
    /// a quote, a backslash or a control character.
    UnsafeText { param: String, term: String },
}

impl View for CompassError {
    type V = ErrModel;

    open spec fn view(&self) -> ErrModel {
        match self {
            CompassError::FieldNotFound => ErrModel::FieldNotFound,
            CompassError::InvalidNumber { param, term } => ErrModel::InvalidNumber {
                param: param@,
                term: term@,
            },
            CompassError::InvalidBool { param, term } => ErrModel::InvalidBool {
                param: param@,
                term: term@,
            },
            CompassError::UnsafeText { param, term } => ErrModel::UnsafeText {
                param: param@,
                term: term@,
            },
        }
    }
}

impl CompassError {
    /// The HTTP status and body an error surfaces as: the request's fault
    /// is a 400 with a short fixed message.
    pub fn status_and_message(&self) -> (r: (u16, String))
        ensures
            r.0 == 400,
            r.1@ == match self@ {
                ErrModel::FieldNotFound => "field not found in schema"@,
                ErrModel::InvalidNumber { .. } => "couldn't parse number parameter"@,
                ErrModel::InvalidBool { .. } => "couldn't parse boolean parameter"@,
                ErrModel::UnsafeText { .. } => "parameter holds unsafe characters"@,
            },
    {
        match self {
            CompassError::FieldNotFound => (400, "field not found in schema".to_owned()),
            CompassError::InvalidNumber { .. } => (
                400,
                "couldn't parse number parameter".to_owned(),
            ),
            CompassError::InvalidBool { .. } => (
                400,
                "couldn't parse boolean parameter".to_owned(),
            ),
            CompassError::UnsafeText { .. } => (
                400,
                "parameter holds unsafe characters".to_owned(),
            ),
        }
    }
}

} // verus!
