//! A container format for chunk-based binary files.
//!
//! A file is a fixed eight-byte preamble followed by chunks laid out
//! back to back. Each chunk carries a big-endian payload length, a
//! four-byte ASCII-alphabetic type code, the payload itself, and a
//! CRC-32 checksum over the type code and payload.

use vstd::prelude::*;

pub mod checksum;
pub mod chunk;
pub mod chunk_type;
pub mod codec;
pub mod container;
pub mod text;

verus! {

/// The ways parsing or editing a container can fail.
#[derive(Debug, Clone, Copy, PartialEq, Eq, Structural)]
pub enum FormatError {
    /// A type code was not four ASCII-alphabetic bytes.
    InvalidTypeCode,
    /// Fewer bytes were available than a field requires.
    TruncatedInput,
    /// The stored checksum disagrees with the recomputed CRC.
    ChecksumMismatch,
    /// The magic preamble was absent or incorrect.
    BadPreamble,
    /// No chunk with the requested type code was found.
    ChunkNotFound,
}

} // verus!
