//! Checksums and authentication codes computed by outside crates.

use crate::iridium_sbd::crc16_ccitt_of;
use hmac::{Hmac, Mac};
use sha2::Sha256;
use vstd::prelude::*;

verus! {

/// `crc::Crc::<u16>::checksum` with `CRC_16_IBM_3740`: polynomial 0x1021, initial
/// value 0xFFFF, not reflected, no final inversion.
#[verifier::external_body]
pub(crate) fn crc16_ibm_3740(data: &[u8]) -> (r: u16)
    ensures
        r == crc16_ccitt_of(data@),
{
    crc::Crc::<u16>::new(&crc::CRC_16_IBM_3740).checksum(data)
}

/// Bits of CRC-32 (polynomial 0xEDB88320, least significant bit first).
pub open spec fn crc32_shift(crc: u32, bits: nat) -> u32
    decreases bits,
{
    if bits == 0 {
        crc
    } else {
        let c = crc32_shift(crc, (bits - 1) as nat);
        if c & 1 != 0 {
            (c >> 1) ^ 0xEDB8_8320
        } else {
            c >> 1
        }
    }
}

/// CRC-32 of `data`, continued from the register value `start`.
pub open spec fn crc32_from(start: u32, data: Seq<u8>) -> u32
    decreases data.len(),
{
    if data.len() == 0 {
        start
    } else {
        crc32_shift(crc32_from(start, data.drop_last()) ^ (data.last() as u32), 8)
    }
}

/// CRC-32 as in IEEE 802.3: initial value 0xFFFFFFFF, inverted at the end.
pub open spec fn crc32_of(data: Seq<u8>) -> u32 {
    !crc32_from(0xFFFF_FFFF, data)
}

/// `crc32fast::hash`: CRC-32 as in IEEE 802.3.
#[verifier::external_body]
pub(crate) fn crc32_ieee(data: &[u8]) -> (r: u32)
    ensures
        r == crc32_of(data@),
{
    crc32fast::hash(data)
}

/// HMAC with SHA-256 of a message under a key.
pub uninterp spec fn hmac_sha256_of(key: Seq<u8>, data: Seq<u8>) -> Seq<u8>;

/// `hmac::Hmac<sha2::Sha256>`, fed with the message and finalized: 32 bytes that
/// depend on key and message alone. Keys of every length are taken.
#[verifier::external_body]
pub(crate) fn hmac_sha256(key: &[u8], data: &[u8]) -> (r: Vec<u8>)
    ensures
        r@ == hmac_sha256_of(key@, data@),
        r@.len() == 32,
{
    let mut mac = Hmac::<Sha256>::new_from_slice(key).expect("any key length");
    mac.update(data);
    mac.finalize().into_bytes().to_vec()
}

} // verus!
