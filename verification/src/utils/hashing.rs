//! SHA-256 and double SHA-256.

use sha2::{Digest, Sha256};
use vstd::prelude::*;

verus! {

/// The SHA-256 digest of a byte string, as computed by the `sha2` crate.
pub uninterp spec fn sha256_digest(data: Seq<u8>) -> Seq<u8>;

/// SHA-256 applied twice.
pub open spec fn spec_double_sha256(data: Seq<u8>) -> Seq<u8> {
    sha256_digest(sha256_digest(data))
}

/// Calls `sha2::Sha256::digest`. Trusted: the result is the SHA-256 digest of
/// `data` (a function of `data` alone) and is 32 bytes long, the output size
/// of `Sha256`.
#[verifier::external_body]
fn sha256(data: &[u8]) -> (res: Vec<u8>)
    ensures
        res@ == sha256_digest(data@),
        res@.len() == 32,
{
    Sha256::digest(data).to_vec()
}

/// Computes a double SHA-256 hash of the input data.
pub fn double_sha256(data: &[u8]) -> (res: Vec<u8>)
    ensures
        res@ == spec_double_sha256(data@),
        res@.len() == 32,
{
    let first = sha256(data);
    sha256(first.as_slice())
}

} // verus!
