//! The SHA-1 digest, computed by the `sha1` crate.

use vstd::prelude::*;

verus! {

/// The SHA-1 digest of `data`, as the `sha1` crate computes it.
pub uninterp spec fn sha1_hash(data: Seq<u8>) -> Seq<u8>;

/// The digest of `data`: `sha1::Sha1::from`, then `digest` and `bytes` of the
/// hash object. The contract only names the twenty bytes that come back; the
/// three calls read nothing but `data`, and none of them can fail.
#[verifier::external_body]
pub(crate) fn sha1_digest(data: &[u8]) -> (digest: [u8; 20])
    ensures
        digest@ == sha1_hash(data@),
{
    sha1::Sha1::from(data).digest().bytes()
}

} // verus!
