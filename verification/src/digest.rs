//! Checksums.
use vstd::prelude::*;

verus! {

/// What `crc32c::crc32c` gives for a byte string.
pub uninterp spec fn crc32c_of(data: Seq<u8>) -> u32;

/// `crc32c::crc32c`: the CRC-32C (Castagnoli) of `data`, a function of its
/// bytes alone.
#[verifier::external_body]
pub(crate) fn crc32c_sum(data: &[u8]) -> (sum: u32)
    ensures
        sum == crc32c_of(data@),
{
    crc32c::crc32c(data)
}

/// What `crc32fast::hash` gives for a byte string.
pub uninterp spec fn crc32_of(data: Seq<u8>) -> u32;

/// `crc32fast::hash`: the CRC-32 (IEEE) of `data`, a function of its bytes
/// alone.
#[verifier::external_body]
pub(crate) fn crc32_sum(data: &[u8]) -> (sum: u32)
    ensures
        sum == crc32_of(data@),
{
    crc32fast::hash(data)
}

} // verus!
