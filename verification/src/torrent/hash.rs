//! SHA-1, as the `sha1` crate computes it.

use vstd::prelude::*;
use sha1::Digest;

verus! {

/// The SHA-1 digest of `data`. It is a function of the bytes alone.
pub uninterp spec fn sha1_digest(data: Seq<u8>) -> Seq<u8>;

/// Calls `sha1::Sha1::digest` (through the `Digest` trait) and hands the
/// 20-byte output back as an array. Claimed: the result is the digest of
/// exactly these bytes (the name `sha1_digest`); nothing is said of its value.
#[verifier::external_body]
pub(crate) fn sha1(data: &[u8]) -> (r: [u8; 20])
    ensures
        r@ == sha1_digest(data@),
{
    sha1::Sha1::digest(data).into()
}

} // verus!
