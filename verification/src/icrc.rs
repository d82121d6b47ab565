//! The iSCSI CRC32 (CRC-32C) check code.
use vstd::prelude::*;

verus! {

/// The iSCSI CRC32 (CRC-32C, Castagnoli polynomial, initial value and final
/// xor all ones) of `data`.
pub uninterp spec fn iscsi_crc32_spec(data: Seq<u8>) -> u32;

/// Computes the iSCSI CRC32 of `data` with `crc32c::crc32c`; the result is
/// a function of the bytes alone.
#[verifier::external_body]
pub(crate) fn iscsi_crc32(data: &[u8]) -> (r: u32)
    ensures
        r == iscsi_crc32_spec(data@),
{
    crc32c::crc32c(data)
}

} // verus!
