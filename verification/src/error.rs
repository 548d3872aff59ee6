//! The error kinds reported by validation and parsing.

use vstd::prelude::*;

verus! {

/// Why a value was rejected.
///
/// All validation happens eagerly when a value object is constructed, so no
/// invalid `Swhid`, `Timestamp` or snapshot ever exists.  Encoders never fail
/// on well-formed input.
#[derive(Debug, Clone, Copy, PartialEq, Eq, Structural)]
pub enum SwhidError {
    /// Malformed text: wrong identifier shape, malformed offset token,
    /// out-of-range timestamp field, or bytes that were required to be UTF-8.
    InvalidFormat,
    /// The identifier's first field is not the fixed namespace `swh`.
    InvalidNamespace,
    /// The identifier's second field does not parse as the fixed version `1`.
    InvalidVersion,
    /// The identifier's third field is not one of the five known type tags.
    InvalidObjectType,
    /// The identifier's hex field does not have exactly 40 characters;
    /// carries the length that was found.
    InvalidHashLength(usize),
    /// The identifier's hex field holds a character that is not lowercase hex.
    InvalidHash,
    /// An input outside the domain: an oversized payload, or a target of the
    /// wrong byte length for its kind.
    InvalidInput,
}

} // verus!
