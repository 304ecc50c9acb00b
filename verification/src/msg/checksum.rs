//! The 16-bit checksum that guards headers and frames.

use vstd::prelude::*;

verus! {

/// The CRC-16/ARC checksum of a byte string: polynomial 0x8005, initial
/// value zero, input and output reflected, no final xor.
///
/// The value is computed by the `crc` crate; nothing is proved here about
/// how it depends on the bytes, only that equal byte strings have equal
/// checksums.
pub uninterp spec fn crc16_arc(data: Seq<u8>) -> u16;

/// Calls `crc::Crc::<u16>::checksum` with the catalogue entry
/// `CRC_16_ARC`. Trusted: the result is the CRC-16/ARC checksum of `data`,
/// a function of the bytes alone.
#[verifier::external_body]
pub(crate) fn checksum(data: &[u8]) -> (sum: u16)
    ensures
        sum == crc16_arc(data@),
{
    crc::Crc::<u16>::new(&crc::CRC_16_ARC).checksum(data)
}

} // verus!
