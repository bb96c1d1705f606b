//! The CRC-32 checksum, computed by the `crc32fast` crate.

use vstd::prelude::*;

verus! {

/// The CRC-32 (IEEE) checksum of `data`.
pub uninterp spec fn crc32(data: Seq<u8>) -> u32;

/// Calls `crc32fast::hash`.
///
/// Trusted: the result depends on the bytes alone, which [`crc32`] names, and
/// the checksum of no bytes at all is zero.
#[verifier::external_body]
pub(crate) fn checksum(data: &[u8]) -> (sum: u32)
    ensures
        sum == crc32(data@),
        data@.len() == 0 ==> sum == 0,
{
    crc32fast::hash(data)
}

} // verus!
