//! The two digests the engine needs. Their values are named, never stated:
//! the outside crates compute them.

use vstd::prelude::*;

verus! {

/// The SHA-256 digest of a byte sequence, named; the `sha2` crate computes it.
pub uninterp spec fn sha256_of(b: Seq<u8>) -> Seq<u8>;

/// The RIPEMD-160 digest of a byte sequence, named; the `ripemd` crate
/// computes it.
pub uninterp spec fn ripemd160_of(b: Seq<u8>) -> Seq<u8>;

/// Double SHA-256, the digest Bitcoin signs.
pub open spec fn sha256d_of(b: Seq<u8>) -> Seq<u8> {
    sha256_of(sha256_of(b))
}

/// Relies on sha2::Sha256::digest: a 32-byte digest, a function of the input
/// bytes alone.
#[verifier::external_body]
pub(crate) fn sha256(b: &Vec<u8>) -> (r: Vec<u8>)
    ensures
        r@ == sha256_of(b@),
        r@.len() == 32,
{
    <sha2::Sha256 as sha2::Digest>::digest(b).to_vec()
}

/// Relies on ripemd::Ripemd160::digest: a 20-byte digest, a function of the
/// input bytes alone.
#[verifier::external_body]
pub(crate) fn ripemd160(b: &Vec<u8>) -> (r: Vec<u8>)
    ensures
        r@ == ripemd160_of(b@),
        r@.len() == 20,
{
    <ripemd::Ripemd160 as ripemd::Digest>::digest(b).to_vec()
}

/// The double SHA-256 of the serialized transaction: the value an input's
/// signature commits to.
pub fn sha256d(encoded_tx: Vec<u8>) -> (r: Vec<u8>)
    ensures
        r@ == sha256d_of(encoded_tx@),
        r@.len() == 32,
{
    let once = sha256(&encoded_tx);
    sha256(&once)
}

} // verus!
