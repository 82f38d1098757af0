//! A library for working with PNG files at the chunk level: parsing the
//! chunked container format, validating each chunk's CRC-32 checksum, and
//! inserting, locating, removing and serializing chunks, so that arbitrary
//! auxiliary data can be embedded in or extracted from a valid PNG file.

pub mod binary;
pub mod chunk;
pub mod chunk_type;
pub mod commands;
pub mod crc32;
pub mod png;
pub mod render;
pub mod text;

use vstd::prelude::*;

verus! {

/// An error of this library. Every fallible operation reports exactly one of
/// these; the contracts say which one comes on which input.
#[derive(Debug, Clone, Copy, PartialEq, Eq, Structural)]
pub enum PngError {
    /// A chunk type tag is not four ASCII letters with the third uppercase.
    InvalidTag,
    /// A buffer does not start with the fixed eight-byte PNG signature.
    BadSignature,
    /// A buffer ends before the chunk it declares is complete.
    Truncated,
    /// A stored chunk checksum differs from the one recomputed over the
    /// chunk's type tag and payload.
    ChecksumMismatch,
    /// A payload was asked for as text but is not valid UTF-8.
    NotUtf8,
    /// No chunk of the requested type exists in the container.
    NotFound,
}

} // verus!
