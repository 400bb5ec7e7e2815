//! Turning a raw oracle signature into a DER-encoded, script-embedded
//! signature and the final hex-encoded signed transaction.

use vstd::prelude::*;
use crate::Error;
use crate::encoding::{append_bytes, copy_bytes, le32_spec, varint_spec};
use crate::external::SignatureResponse;
use crate::hexcodec::{hex_bytes_of, hex_decode, hex_encode, hex_of, is_hex_seq};
use crate::script::{build_script_sig, script_sig_spec};
use crate::transaction::{
    ser_txin_with_script, ser_txouts_spec, serialize_tx, OutPoint, Transaction, TxIn,
};

verus! {

/// A signature component as a DER integer, exactly as received: a leading
/// zero byte is added when the highest bit is set, and nothing is stripped.
pub open spec fn der_int_spec(b: Seq<u8>) -> Seq<u8> {
    if b.len() > 0 && b[0] >= 0x80 {
        seq![0x02u8, (b.len() + 1) as u8, 0x00u8] + b
    } else {
        seq![0x02u8, b.len() as u8] + b
    }
}

/// The DER encoding of an (r, s) pair: a sequence tag and length over the
/// two integers.
pub open spec fn der_sig_spec(r: Seq<u8>, s: Seq<u8>) -> Seq<u8> {
    seq![0x30u8, (der_int_spec(r).len() + der_int_spec(s).len()) as u8] + der_int_spec(r)
        + der_int_spec(s)
}

/// A raw oracle signature is well-formed when both components are
/// hexadecimal, the r component a 33-byte compressed point and the s
/// component a 32-byte scalar.
pub open spec fn valid_signature_response(big_r: Seq<char>, s: Seq<char>) -> bool {
    &&& is_hex_seq(big_r)
    &&& hex_bytes_of(big_r).len() == 33
    &&& is_hex_seq(s)
    &&& hex_bytes_of(s).len() == 32
}

/// The bytes pushed as the signature item of the unlocking script: the DER
/// signature over the point's coordinate and the scalar, with the
/// all-outputs sighash type byte appended.
pub open spec fn signature_material_spec(big_r: Seq<char>, s: Seq<char>) -> Seq<u8> {
    der_sig_spec(hex_bytes_of(big_r).subrange(1, 33), hex_bytes_of(s)) + seq![0x01u8]
}

/// Appends one signature component as a DER integer.
fn append_der_int(out: &mut Vec<u8>, b: &Vec<u8>)
    requires
        b@.len() == 32,
    ensures
        final(out)@ == old(out)@ + der_int_spec(b@),
{
    out.push(0x02);
    if b[0] >= 0x80 {
        out.push(33);
        out.push(0x00);
    } else {
        out.push(32);
    }
    append_bytes(out, b);
    proof {
        assert(out@ =~= old(out)@ + der_int_spec(b@));
    }
}

/// DER-encodes the raw signature exactly as received and appends the
/// sighash type byte.
///
/// Fails with `AssemblyError` exactly when a component is not hexadecimal or
/// has the wrong length.
pub fn assemble_signature(big_r: &str, s: &str) -> (r: Result<Vec<u8>, Error>)
    ensures
        r is Ok <==> valid_signature_response(big_r@, s@),
        r matches Ok(v) ==> v@ == signature_material_spec(big_r@, s@),
        r matches Err(e) ==> e == Error::AssemblyError,
{
    let big_r_bytes = match hex_decode(big_r) {
        Ok(v) => v,
        Err(_) => {
            return Err(Error::AssemblyError);
        },
    };
    let s_bytes = match hex_decode(s) {
        Ok(v) => v,
        Err(_) => {
            return Err(Error::AssemblyError);
        },
    };
    if big_r_bytes.len() != 33 || s_bytes.len() != 32 {
        return Err(Error::AssemblyError);
    }
    let mut r_bytes: Vec<u8> = Vec::new();
    let mut i: usize = 1;
    while i < 33
        invariant
            1 <= i <= 33,
            big_r_bytes@.len() == 33,
            r_bytes@ == big_r_bytes@.subrange(1, i as int),
        decreases 33 - i,
    {
        r_bytes.push(big_r_bytes[i]);
        i = i + 1;
        proof {
            assert(r_bytes@ =~= big_r_bytes@.subrange(1, i as int));
        }
    }
    let mut sig: Vec<u8> = Vec::new();
    sig.push(0x30);
    let r_der_len: u8 = if r_bytes[0] >= 0x80 { 35 } else { 34 };
    let s_der_len: u8 = if s_bytes[0] >= 0x80 { 35 } else { 34 };
    sig.push(r_der_len + s_der_len);
    append_der_int(&mut sig, &r_bytes);
    append_der_int(&mut sig, &s_bytes);
    sig.push(0x01);
    proof {
        assert(sig@ =~= signature_material_spec(big_r@, s@));
    }
    Ok(sig)
}

/// The wire form of the claim transaction once its single input carries
/// `sig_script` as unlocking script.
pub open spec fn signed_tx_ser_spec(tx: Transaction, sig_script: Seq<u8>) -> Seq<u8> {
    le32_spec(tx.version) + varint_spec(tx.input@.len() as u64) + ser_txin_with_script(
        tx.input@[0],
        sig_script,
    ) + varint_spec(tx.output@.len() as u64) + ser_txouts_spec(tx.output@) + le32_spec(
        tx.lock_time,
    )
}

/// Embeds the signature in the transaction and serializes it: the unlocking
/// script pushes the DER signature with its type byte, then the public key,
/// and the result is the lowercase hexadecimal of the signed transaction.
///
/// Fails with `AssemblyError` exactly when the raw signature is malformed;
/// no partial transaction is ever returned.
pub fn finalize_transaction(
    tx: Transaction,
    response: &SignatureResponse,
    public_key: &Vec<u8>,
) -> (r: Result<String, Error>)
    requires
        tx.input@.len() == 1,
        public_key@.len() <= 255,
    ensures
        r is Ok <==> valid_signature_response(response.big_r.affine_point@, response.s.scalar@),
        r matches Ok(h) ==> h@ == hex_of(signed_tx_ser_spec(
            tx,
            script_sig_spec(
                signature_material_spec(response.big_r.affine_point@, response.s.scalar@),
                public_key@,
            ),
        )),
        r matches Err(e) ==> e == Error::AssemblyError,
{
    let sig = assemble_signature(response.big_r.affine_point.as_str(), response.s.scalar.as_str())?;
    let script_sig = build_script_sig(&sig, public_key);
    let first = &tx.input[0];
    let signed_in = TxIn {
        previous_output: OutPoint {
            txid: copy_bytes(&first.previous_output.txid),
            vout: first.previous_output.vout,
        },
        script_sig,
        sequence: first.sequence,
    };
    let mut inputs: Vec<TxIn> = Vec::new();
    inputs.push(signed_in);
    let signed = Transaction {
        version: tx.version,
        lock_time: tx.lock_time,
        input: inputs,
        output: tx.output,
    };
    let encoded = serialize_tx(&signed);
    proof {
        assert(signed.input@.drop_last() =~= Seq::<TxIn>::empty());
        assert(crate::transaction::ser_txins_spec(signed.input@.drop_last())
            == Seq::<u8>::empty());
        assert(crate::transaction::rev_spec(signed.input@[0].previous_output.txid@)
            == crate::transaction::rev_spec(tx.input@[0].previous_output.txid@));
        assert(crate::transaction::ser_txin_spec(signed.input@[0]) =~= ser_txin_with_script(
            tx.input@[0],
            script_sig_spec(
                signature_material_spec(response.big_r.affine_point@, response.s.scalar@),
                public_key@,
            ),
        ));
        assert(encoded@ =~= signed_tx_ser_spec(
            tx,
            script_sig_spec(
                signature_material_spec(response.big_r.affine_point@, response.s.scalar@),
                public_key@,
            ),
        ));
    }
    Ok(hex_encode(&encoded))
}

/// The unlocking script lays its two pushed items out back to back: first
/// the signature material, preceded by its length, then the public key,
/// preceded by its length — nothing more.
pub proof fn lemma_script_sig_layout(sig: Seq<u8>, pubkey: Seq<u8>)
    requires
        sig.len() <= 255,
        pubkey.len() <= 255,
    ensures
        script_sig_spec(sig, pubkey).len() == 2 + sig.len() + pubkey.len(),
        script_sig_spec(sig, pubkey)[0] == sig.len() as u8,
        script_sig_spec(sig, pubkey).subrange(1, 1 + sig.len() as int) == sig,
        script_sig_spec(sig, pubkey)[1 + sig.len() as int] == pubkey.len() as u8,
        script_sig_spec(sig, pubkey).subrange(
            2 + sig.len() as int,
            2 + sig.len() as int + pubkey.len() as int,
        ) == pubkey,
{
    assert(script_sig_spec(sig, pubkey).subrange(1, 1 + sig.len() as int) =~= sig);
    assert(script_sig_spec(sig, pubkey).subrange(
        2 + sig.len() as int,
        2 + sig.len() as int + pubkey.len() as int,
    ) =~= pubkey);
}

} // verus!
