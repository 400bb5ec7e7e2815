//! The shapes exchanged with the external threshold-signature oracle: the
//! request this library prepares, and the response it finalizes.

use vstd::prelude::*;

verus! {

/// A signing request for the oracle: the 32-byte digest to sign, the key
/// derivation path, and the key version.
#[derive(Debug, Clone, PartialEq, Eq)]
pub struct SignRequest {
    pub payload: Vec<u8>,
    pub path: String,
    pub key_version: u32,
}

/// The r component of an oracle signature: a compressed curve point in
/// hexadecimal, one parity byte before the 32 coordinate bytes.
#[derive(Debug, Clone, PartialEq, Eq)]
pub struct AffinePoint {
    pub affine_point: String,
}

/// The s component of an oracle signature: a 32-byte scalar in hexadecimal.
#[derive(Debug, Clone, PartialEq, Eq)]
pub struct SignatureScalar {
    pub scalar: String,
}

/// A successful oracle response.
#[derive(Debug, Clone, PartialEq, Eq)]
pub struct SignatureResponse {
    pub big_r: AffinePoint,
    pub s: SignatureScalar,
    pub recovery_id: u8,
}

} // verus!
