//! The CRC-32/ISO-HDLC checksum that guards every PNG chunk.

use vstd::prelude::*;

verus! {

/// The CRC-32/ISO-HDLC checksum of a byte sequence, as the crc crate
/// computes it. The algorithm itself is not restated here; contracts speak
/// of the checksum only through this name.
pub uninterp spec fn crc32_of(bytes: Seq<u8>) -> u32;

/// Relies on crc's `Crc::<u32>::checksum` with the `CRC_32_ISO_HDLC`
/// algorithm from crc-catalog: the checksum is a pure function of the input
/// bytes alone.
#[verifier::external_body]
pub(crate) fn crc32_checksum(bytes: &[u8]) -> (r: u32)
    ensures
        r == crc32_of(bytes@),
{
    crc::Crc::<u32>::new(&crc::CRC_32_ISO_HDLC).checksum(bytes)
}

} // verus!
