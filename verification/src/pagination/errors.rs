//! Pagination errors.

use vstd::prelude::*;

use crate::decimal::decimal_string;
use crate::text::joined;

verus! {

/// Errors of paginated queries.
#[derive(Debug, Clone, PartialEq, Eq)]
pub enum PaginationError {
    /// The cursor is malformed or corrupted.
    CursorInvalid(String),
    /// The cursor was made for another subject.
    CursorScopeMismatch { expected: String, actual: String },
    /// The requested page size is outside the allowed range.
    InvalidPageSize(usize),
}

impl PaginationError {
    /// The message of this error.
    pub open spec fn message(self) -> Seq<char> {
        match self {
            PaginationError::CursorInvalid(msg) => "invalid cursor: "@ + msg@,
            PaginationError::CursorScopeMismatch { expected, actual } =>
                "cursor scope mismatch: expected subject '"@ + expected@ + "', got '"@ + actual@
                + "'"@,
            PaginationError::InvalidPageSize(size) => "invalid page size "@
                + crate::decimal::digits(size as nat) + ": must be between 1 and 100"@,
        }
    }

    /// The message of this error, for people to read.
    pub fn to_string(&self) -> (text: String)
        ensures
            text@ == self.message(),
    {
        match self {
            PaginationError::CursorInvalid(msg) => joined("invalid cursor: ", msg.as_str()),
            PaginationError::CursorScopeMismatch { expected, actual } => {
                let mut text = "cursor scope mismatch: expected subject '".to_owned();
                text.append(expected.as_str());
                text.append("', got '");
                text.append(actual.as_str());
                text.append("'");
                text
            },
            PaginationError::InvalidPageSize(size) => {
                let mut text = "invalid page size ".to_owned();
                text.append(decimal_string(*size as u64).as_str());
                text.append(": must be between 1 and 100");
                text
            },
        }
    }
}

} // verus!
