//! The CRC-32 checksum, computed by the `crc` crate and named for the
//! contracts by an uninterpreted spec function.

use vstd::prelude::*;

verus! {

/// The CRC-32 (ISO-HDLC) checksum of a byte sequence. The algorithm is
/// the `crc` crate's business; contracts only need the result to be a
/// function of the bytes alone.
pub uninterp spec fn crc32_of(data: Seq<u8>) -> u32;

/// Relies on crc::Crc with the CRC_32_ISO_HDLC algorithm: the checksum
/// depends on the input bytes alone.
#[verifier::external_body]
pub(crate) fn crc32(data: &[u8]) -> (r: u32)
    ensures
        r == crc32_of(data@),
{
    let c = crc::Crc::<u32>::new(&crc::CRC_32_ISO_HDLC);
    let mut digest = c.digest();
    digest.update(data);
    digest.finalize()
}

} // verus!
