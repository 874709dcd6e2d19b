//! CRC-16/XMODEM over byte slices, relied on from the `crc` crate.

use vstd::prelude::*;

verus! {

/// The CRC-16/XMODEM checksum (polynomial 0x1021, initial value 0, no
/// reflection) of a byte sequence. The value is a pure function of the bytes
/// alone; it is computed by the `crc` crate and left uninterpreted here.
pub uninterp spec fn crc16_xmodem(data: Seq<u8>) -> u16;

/// Relies on `crc::Crc::<u16>::checksum` with the `CRC_16_XMODEM` algorithm:
/// the checksum depends on the input bytes alone.
#[verifier::external_body]
pub(crate) fn crc16(data: &[u8]) -> (r: u16)
    ensures
        r == crc16_xmodem(data@),
{
    crc::Crc::<u16>::new(&crc::CRC_16_XMODEM).checksum(data)
}

} // verus!
