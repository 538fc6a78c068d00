//! Structured errors for decoding and encoding.
//!
//! Every error carries enough context (byte offset, property path, type tag)
//! for the caller to act; none is used for internal control flow.

use vstd::prelude::*;

verus! {

/// Why a decode or encode operation failed.
#[derive(Debug, Clone, PartialEq, Eq)]
pub enum Error {
    /// A read would have run past the end of the buffer; carries the
    /// position at which the read was attempted.
    Eof(usize),
    /// A string length field was the unrepresentable sentinel `i32::MIN` or
    /// fell outside the sanity bound `[-131072, 131072]`; carries the field.
    InvalidString(i32),
    /// A UTF-16 string contained an invalid surrogate sequence; carries the
    /// position just after the string's code units.
    InvalidUtf16(usize),
    /// A struct nested in a container carried no type information and the
    /// hint map had no entry for its path; carries the attempted type tag,
    /// the dotted property path, and the byte offset.
    MissingHint(String, String, usize),
    /// A property with an unrecognized type tag appeared with no
    /// self-describing header and no suggested length, so its byte span is
    /// unknowable; carries the tag and the byte offset.
    MissingLength(String, usize),
    /// An encode-time invariant was violated (container element variant not
    /// matching the declared inner type, missing struct-identity metadata,
    /// an oversized string or count); carries a description.
    InvalidValue(String),
}

} // verus!
