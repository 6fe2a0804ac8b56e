//! SHA-256 digests.

use crate::number::hex;
use sha2::Digest;
use vstd::prelude::*;

verus! {

/// What `sha2::Sha256` makes of some bytes.
pub uninterp spec fn sha256_of(bytes: Seq<u8>) -> Seq<u8>;

/// `sha2::Sha256::digest` computes the SHA-256 digest of some bytes. The contract
/// names the digest and claims its length.
#[verifier::external_body]
fn sha256(bytes: &[u8]) -> (digest: Vec<u8>)
    ensures
        digest@ == sha256_of(bytes@),
        digest@.len() == 32,
{
    sha2::Sha256::digest(bytes).to_vec()
}

/// The digest of a file that holds `bytes`, in hexadecimal.
pub fn sha256_file(bytes: &[u8]) -> (digest: String)
    ensures
        digest@ == crate::number::hex_of(sha256_of(bytes@)),
        digest@.len() == 64,
{
    hex(&sha256(bytes))
}

} // verus!
