//! P2PKH locking scripts derived from a base58check address or from an
//! uncompressed public key, and the unlocking script that carries a signature
//! and a public key.

use vstd::prelude::*;
use crate::Error;
use crate::base58::{base58check_decode, base58check_decode_of};
use crate::hashing::{ripemd160, ripemd160_of, sha256, sha256_of};
use crate::hexcodec::{hex_bytes_of, hex_decode, is_hex_seq};

verus! {

/// The fixed P2PKH locking template around a 20-byte public-key hash:
/// OP_DUP OP_HASH160 PUSH(20) hash OP_EQUALVERIFY OP_CHECKSIG.
pub open spec fn p2pkh_script_spec(h: Seq<u8>) -> Seq<u8> {
    seq![0x76u8, 0xa9u8, 0x14u8] + h + seq![0x88u8, 0xacu8]
}

/// A direct push of `b`: its length as one opcode byte, then the bytes.
pub open spec fn push_spec(b: Seq<u8>) -> Seq<u8> {
    seq![b.len() as u8] + b
}

/// The unlocking script for a P2PKH input: the signature material pushed
/// first, the public key pushed second.
pub open spec fn script_sig_spec(sig: Seq<u8>, pubkey: Seq<u8>) -> Seq<u8> {
    push_spec(sig) + push_spec(pubkey)
}

/// The locking script a valid address stands for: the P2PKH template around
/// the 20-byte hash embedded in the address, behind its version byte.
///
/// Fails with `DecodeError` when the address is not base58check, or its
/// payload is not a version byte followed by exactly twenty hash bytes.
pub fn p2pkh_script_from_address(address: &str) -> (r: Result<Vec<u8>, Error>)
    ensures
        r is Ok <==> (base58check_decode_of(address@) matches Some(p) && p.len() == 21),
        r matches Ok(v) ==> v@ == p2pkh_script_spec(
            base58check_decode_of(address@)->Some_0.subrange(1, 21)),
        r matches Err(e) ==> e == Error::DecodeError,
{
    let payload = base58check_decode(address)?;
    if payload.len() != 21 {
        return Err(Error::DecodeError);
    }
    let mut script: Vec<u8> = Vec::new();
    script.push(0x76);
    script.push(0xa9);
    script.push(0x14);
    let mut i: usize = 1;
    while i < 21
        invariant
            1 <= i <= 21,
            payload@.len() == 21,
            script@ == seq![0x76u8, 0xa9u8, 0x14u8] + payload@.subrange(1, i as int),
        decreases 21 - i,
    {
        script.push(payload[i]);
        i = i + 1;
        proof {
            assert(script@ =~= seq![0x76u8, 0xa9u8, 0x14u8] + payload@.subrange(1, i as int));
        }
    }
    script.push(0x88);
    script.push(0xac);
    proof {
        assert(script@ =~= p2pkh_script_spec(payload@.subrange(1, 21)));
    }
    Ok(script)
}

/// The locking script for an uncompressed public key given in hexadecimal:
/// the P2PKH template around RIPEMD160(SHA256(key bytes)).
///
/// Fails with `DecodeError` exactly when the string is not hexadecimal.
pub fn p2pkh_script_from_ucp(uncompressed_child_pubkey: &str) -> (r: Result<Vec<u8>, Error>)
    ensures
        r is Ok <==> is_hex_seq(uncompressed_child_pubkey@),
        r matches Ok(v) ==> v@ == p2pkh_script_spec(
            ripemd160_of(sha256_of(hex_bytes_of(uncompressed_child_pubkey@)))),
        r matches Err(e) ==> e == Error::DecodeError,
{
    let key_bytes = hex_decode(uncompressed_child_pubkey)?;
    let sha = sha256(&key_bytes);
    let hash160 = ripemd160(&sha);
    let mut script: Vec<u8> = Vec::new();
    script.push(0x76);
    script.push(0xa9);
    script.push(0x14);
    let mut i: usize = 0;
    while i < hash160.len()
        invariant
            i <= hash160@.len(),
            script@ == seq![0x76u8, 0xa9u8, 0x14u8] + hash160@.subrange(0, i as int),
        decreases hash160@.len() - i,
    {
        script.push(hash160[i]);
        i = i + 1;
        proof {
            assert(script@ =~= seq![0x76u8, 0xa9u8, 0x14u8] + hash160@.subrange(0, i as int));
        }
    }
    script.push(0x88);
    script.push(0xac);
    proof {
        assert(hash160@.subrange(0, hash160@.len() as int) =~= hash160@);
        assert(script@ =~= p2pkh_script_spec(hash160@));
    }
    Ok(script)
}

/// Builds the unlocking script: one push of the signature material, one push
/// of the public key.
pub fn build_script_sig(sig: &Vec<u8>, pubkey: &Vec<u8>) -> (r: Vec<u8>)
    requires
        sig@.len() <= 255,
        pubkey@.len() <= 255,
    ensures
        r@ == script_sig_spec(sig@, pubkey@),
{
    let mut script: Vec<u8> = Vec::new();
    script.push(sig.len() as u8);
    crate::encoding::append_bytes(&mut script, sig);
    script.push(pubkey.len() as u8);
    crate::encoding::append_bytes(&mut script, pubkey);
    proof {
        assert(script@ =~= script_sig_spec(sig@, pubkey@));
    }
    script
}

/// Every locking script built around a 20-byte hash is 25 bytes: the three
/// template bytes, the hash itself, and the two closing opcodes.
pub proof fn lemma_p2pkh_script_shape(h: Seq<u8>)
    requires
        h.len() == 20,
    ensures
        p2pkh_script_spec(h).len() == 25,
        p2pkh_script_spec(h)[0] == 0x76u8,
        p2pkh_script_spec(h)[1] == 0xa9u8,
        p2pkh_script_spec(h)[2] == 0x14u8,
        p2pkh_script_spec(h).subrange(3, 23) == h,
        p2pkh_script_spec(h)[23] == 0x88u8,
        p2pkh_script_spec(h)[24] == 0xacu8,
{
    assert(p2pkh_script_spec(h).subrange(3, 23) =~= h);
}

} // verus!
