//! Base58check address decoding, behind a trusted wrapper around the
//! `base58ck` crate.

use vstd::prelude::*;
use crate::Error;

verus! {

/// What base58check decoding yields for a string: the payload with version
/// byte, checksum verified and stripped; `None` where the string is not a
/// well-formed base58check encoding. Named: the `base58ck` crate computes it,
/// from the string alone.
pub uninterp spec fn base58check_decode_of(s: Seq<char>) -> Option<Seq<u8>>;

/// Relies on base58ck::decode_check: decodes base58, verifies and strips the
/// four checksum bytes, and fails on an invalid character, a too-short input,
/// or a checksum mismatch.
#[verifier::external_body]
pub(crate) fn base58check_decode(s: &str) -> (r: Result<Vec<u8>, Error>)
    ensures
        r is Ok <==> base58check_decode_of(s@) is Some,
        r is Ok ==> r->Ok_0@ == base58check_decode_of(s@)->Some_0,
        r is Err ==> r->Err_0 == Error::DecodeError,
{
    match base58ck::decode_check(s) {
        Ok(v) => Ok(v),
        Err(_) => Err(Error::DecodeError),
    }
}

} // verus!
