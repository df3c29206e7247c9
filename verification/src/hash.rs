//! SHA-1, by which the pieces and the torrent itself are identified.

use vstd::prelude::*;
use sha1::{Digest, Sha1};

verus! {

/// The SHA-1 digest of a byte sequence.
pub uninterp spec fn sha1(data: Seq<u8>) -> Seq<u8>;

/// The SHA-1 digest of `data`.
///
/// Trusted: the body calls `Sha1::digest` of the crate `sha1`, which hashes
/// the whole input in one go. The contract names its result and states its
/// length, 20 bytes, which is the output size that the crate declares for
/// SHA-1.
#[verifier::external_body]
pub(crate) fn sha1_digest(data: &[u8]) -> (digest: Vec<u8>)
    ensures
        digest@ == sha1(data@),
        digest@.len() == 20,
{
    Sha1::digest(data).to_vec()
}

} // verus!
