//! Error types of the library.

use crate::layout::AppField;
use vstd::prelude::*;

verus! {

/// An input that does not have the required shape.
#[derive(Clone, Copy, Debug, PartialEq, Eq, Structural)]
pub enum ValidationError {
    /// A field value does not fit in its declared bit width.
    FieldOutOfRange(AppField),
    /// The bytes are not a hex string of even length.
    InvalidHex,
    /// The hex-decoded bytes are not UTF-8 text.
    InvalidUtf8,
    /// The delimited text ends before the segment with this index.
    MissingSegment(usize),
    /// The delimited text goes on past its last segment, to a segment with this index.
    UnexpectedSegment(usize),
    /// A date is not an RFC 3339 timestamp.
    InvalidDate,
}

/// A key that the fee schedule does not hold.
#[derive(Clone, Copy, Debug, PartialEq, Eq, Structural)]
pub enum LookupError {
    /// The permit registry has no base terms for the permit.
    PermitNotFound,
    /// The permit has no base fee rate.
    UnknownPermit,
    /// The duration is not one of the priced license terms.
    UnsupportedDuration,
}

/// Errors of the persistence layer.
#[derive(Clone, Debug)]
pub enum CustomError {
    /// A database-related error, with its message.
    DatabaseError(String),
}

impl CustomError {
    /// The human-readable message: `Database error: <message>`.
    pub fn message(&self) -> (r: String)
        ensures
            match self {
                CustomError::DatabaseError(m) => r@ == "Database error: "@ + m@,
            },
    {
        match self {
            CustomError::DatabaseError(m) => {
                let mut r = String::new();
                proof {
                    reveal_strlit("Database error: ");
                }
                r.append("Database error: ");
                r.append(m.as_str());
                r
            },
        }
    }
}

} // verus!
