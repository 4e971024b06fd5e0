//! The content digest the chain links blocks with.

use vstd::prelude::*;

use sha2::Digest;

verus! {

/// The digest that sha2's SHA-256 implementation computes over a byte
/// sequence. SHA-256 is a deterministic function of its input alone, so the
/// result can be given a name; spelling the algorithm out here would state
/// nothing that could be checked against the outside crate.
pub uninterp spec fn spec_sha256(data: Seq<u8>) -> Seq<u8>;

/// Relies on sha2::Sha256 through digest::Digest::digest: the digest is a
/// pure function of the input bytes alone, and is always 32 bytes long
/// (sha2 declares Sha256 with output size U32).
#[verifier::external_body]
pub fn sha256_digest(data: &[u8]) -> (r: Vec<u8>)
    ensures
        r@ == spec_sha256(data@),
        r@.len() == 32,
{
    sha2::Sha256::digest(data).to_vec()
}

} // verus!
