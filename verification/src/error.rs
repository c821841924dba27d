//! The failures that cursor operations report.

use vstd::prelude::*;
use vstd::std_specs::convert::FromSpecImpl;

verus! {

/// `std::io::Error`, which the library carries through without looking inside.
#[verifier::external_type_specification]
#[verifier::external_body]
pub struct ExIoError(std::io::Error);

/// Why a cursor operation failed.
#[derive(Debug)]
pub enum ParseFailure {
    /// A decode needed more bytes than remain between the offset and the end
    /// of the buffer.
    InsufficientData,
    /// The target of a relative jump lies outside the range of offsets.
    InvalidOffset,
    /// An I/O failure that a caller wrapped with
    /// [`BinaryCursorError::from_io_error`].
    Io(std::io::Error),
}

/// Error type for binary cursor operations.
#[derive(Debug)]
pub enum BinaryCursorError {
    /// A parsing operation failed.
    ParseError(ParseFailure),
}

impl BinaryCursorError {
    /// The error of a decode that found too few bytes.
    pub open spec fn insufficient_data() -> Self {
        BinaryCursorError::ParseError(ParseFailure::InsufficientData)
    }

    /// The error of a relative jump whose target cannot be represented.
    pub open spec fn invalid_offset() -> Self {
        BinaryCursorError::ParseError(ParseFailure::InvalidOffset)
    }

    /// Wraps an I/O error, unchanged, as a parse error.
    pub fn from_io_error(error: std::io::Error) -> (wrapped: Self)
        ensures
            wrapped == BinaryCursorError::ParseError(ParseFailure::Io(error)),
    {
        BinaryCursorError::ParseError(ParseFailure::Io(error))
    }
}

impl From<std::io::Error> for BinaryCursorError {
    fn from(error: std::io::Error) -> (wrapped: Self) {
        BinaryCursorError::from_io_error(error)
    }
}

impl FromSpecImpl<std::io::Error> for BinaryCursorError {
    open spec fn obeys_from_spec() -> bool {
        true
    }

    open spec fn from_spec(error: std::io::Error) -> Self {
        BinaryCursorError::ParseError(ParseFailure::Io(error))
    }
}

} // verus!
