//! The 32-bit cyclic redundancy checksum that protects every chunk.

use vstd::prelude::*;

verus! {

/// The CRC-32 checksum (ISO-HDLC polynomial) of a byte sequence. The
/// checksum is a function of the bytes alone; what it computes is left to
/// the outside implementation, so nothing here claims which value it is.
pub uninterp spec fn crc32_of(bytes: Seq<u8>) -> u32;

/// Relies on `crc::Crc::checksum` with the `CRC_32_ISO_HDLC` algorithm:
/// the checksum depends on the input bytes alone.
#[verifier::external_body]
pub(crate) fn crc32(bytes: &[u8]) -> (r: u32)
    ensures
        r == crc32_of(bytes@),
{
    crc::Crc::<u32>::new(&crc::CRC_32_ISO_HDLC).checksum(bytes)
}

} // verus!
