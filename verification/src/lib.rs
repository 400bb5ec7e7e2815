//! Construction and signing support for a one-time Bitcoin claim:
//! P2PKH locking scripts, a canonical single-input legacy transaction,
//! its legacy signature digest, DER signature assembly, and the claim
//! lifecycle that retires each one-time credential after use.

use vstd::prelude::*;

pub mod assembler;
pub mod base58;
pub mod contract;
pub mod encoding;
pub mod external;
pub mod hashing;
pub mod hexcodec;
pub mod script;
pub mod sighash;
pub mod transaction;

verus! {

/// The ways an operation of this library can fail.
#[derive(Clone, Copy, Debug, PartialEq, Eq, Structural)]
pub enum Error {
    /// A malformed address, hex string, or script.
    DecodeError,
    /// An unknown credential or funding record.
    LookupError,
    /// The external signing service reported a failure.
    OracleError,
    /// A malformed raw signature.
    AssemblyError,
    /// An amount outside the 64-bit satoshi range.
    ValueError,
}

} // verus!
