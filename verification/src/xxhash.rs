//! The xxhash64 check code.
use vstd::prelude::*;

verus! {

/// XXH64 of `data` with seed 0.
pub uninterp spec fn xxh64_spec(data: Seq<u8>) -> u64;

/// Computes XXH64 of `data` with seed 0 by `xxhash_rust::xxh64::xxh64`;
/// the result is a function of the bytes alone.
#[verifier::external_body]
pub(crate) fn xxh64(data: &[u8]) -> (r: u64)
    ensures
        r == xxh64_spec(data@),
{
    xxhash_rust::xxh64::xxh64(data, 0)
}

} // verus!
