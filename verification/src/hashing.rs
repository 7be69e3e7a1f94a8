//! The digest primitive behind chain-linking and proof-of-work checking.
//!
//! The digest itself is an outside computation; its value is only named, so
//! every property proved about the ledger holds for whatever bytes the digest
//! function returns, and determinism is exactly what the name expresses.

use vstd::prelude::*;

verus! {

/// The SHA-256 digest of a byte sequence, as a function of the bytes alone.
pub uninterp spec fn sha256_of(data: Seq<u8>) -> Seq<u8>;

/// Relies on sha2::Sha256::digest: a deterministic function of the input
/// bytes whose output is always 32 bytes long.
#[verifier::external_body]
pub fn sha256(data: &Vec<u8>) -> (r: Vec<u8>)
    ensures
        r@ == sha256_of(data@),
        r@.len() == 32,
{
    <sha2::Sha256 as sha2::Digest>::digest(data.as_slice()).to_vec()
}

} // verus!
