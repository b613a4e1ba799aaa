//! The CRC-32 of a payload, as the crc32fast crate computes it.
use vstd::prelude::*;

verus! {

/// The CRC-32 of `bytes`.
pub uninterp spec fn crc32_of(bytes: Seq<u8>) -> u32;

/// Relies on crc32fast::hash: the CRC-32 of the bytes, a function of the bytes alone.
#[verifier::external_body]
fn crc32(bytes: &[u8]) -> (r: u32)
    ensures
        r == crc32_of(bytes@),
{
    crc32fast::hash(bytes)
}

/// The checksum that travels with a payload.
pub fn checksum(payload: &[u8]) -> (r: u32)
    ensures
        r == crc32_of(payload@),
{
    crc32(payload)
}

} // verus!
