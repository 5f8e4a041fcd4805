//! The ways reading or editing a PNG byte stream can fail.

use vstd::prelude::*;

verus! {

/// Everything that can go wrong while parsing or editing a PNG structure.
///
/// Parse-time variants abort the whole parse: corrupted input is reported,
/// never repaired or truncated.
#[derive(Debug, Clone, Copy, PartialEq, Eq, Structural)]
pub enum PngError {
    /// A chunk type byte is not an ASCII letter.
    InvalidEncoding,
    /// A chunk type string is not exactly four bytes long.
    InvalidLength,
    /// The buffer ended before the 4-byte length field.
    TruncatedLength,
    /// The buffer ended before the 4-byte type field.
    TruncatedType,
    /// The buffer ended before the payload announced by the length field.
    TruncatedData,
    /// The buffer ended before the 4-byte checksum field.
    TruncatedCrc,
    /// The stored checksum disagrees with the one recomputed over type and payload.
    ChecksumMismatch,
    /// The buffer does not begin with the 8-byte PNG signature.
    BadSignature,
    /// No chunk of the requested type exists in the container.
    ChunkNotFound,
    /// A payload read as text is not valid UTF-8.
    NotUtf8,
}

} // verus!
