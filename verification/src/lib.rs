//! A byte-oriented cursor for reading binary data in place.
//!
//! A [`binary_cursor::BinaryCursor`] walks a byte buffer without consuming or
//! copying it: every decode is bounds-checked, advances the offset by exactly
//! the width it read, and reports a short buffer through its result.  A stack
//! of saved offsets, and the [`binary_cursor::BinaryCursorJump`] handle built
//! on it, allow excursions to other offsets that leave the sequential position
//! as it was.
//!
//! All multi-byte numbers are little-endian.

pub mod binary_cursor;
pub mod error;
pub mod jump;
pub mod little_endian;
pub mod source;
