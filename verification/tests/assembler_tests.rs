use btc_claim::assembler::{assemble_signature, finalize_transaction};
use btc_claim::external::{AffinePoint, SignatureResponse, SignatureScalar};
use btc_claim::script::build_script_sig;
use btc_claim::transaction::{OutPoint, Transaction, TxIn, TxOut};

use omni_transaction::bitcoin::types::{
    Amount, LockTime, OutPoint as OmniOutPoint, ScriptBuf, Sequence, TransactionType,
    TxIn as OmniTxIn, TxOut as OmniTxOut, Txid, Version, Witness,
};
use omni_transaction::bitcoin::utils as omni_utils;
use omni_transaction::bitcoin::BitcoinTransaction;

const BIG_R: &str = "03B96BFA3DA6BB4BB74EEEE9C20970725C5782F07724CD1BEFBD265C5AD5C63948";
const S: &str = "49283B618968DEFB0E660EA703D193BC1D213F5DD811A2D13307FCA01E20C5C0";
const UCP: &str = "048393e4b554ced50402b2e9fcf765941fcbf3fa2b87c450873a0127dbb8cd7d214a4be00c690901a0eae20e50faf1957f30aecd9e34c7395d1f7bdb5d79123d8a";
const TXID: &str = "613455e44b8e79b8ba98671a6a2d3b0f5b5d3e817e8f6e2b2b6e0d7b8c8b46c3";
const FUNDER_SCRIPT: &str = "76a914b14da44077bd985df6eb9aa04fd18322a85ba30188ac";

#[test]
fn der_signature_matches_known_vector() {
    let sig = assemble_signature(BIG_R, S).unwrap();
    let expected = format!(
        "3045022100{}0220{}01",
        BIG_R[2..].to_lowercase(),
        S.to_lowercase()
    );
    assert_eq!(hex::encode(&sig), expected);
}

#[test]
fn der_signature_matches_reference_encoder() {
    let sig = assemble_signature(BIG_R, S).unwrap();
    let reference = omni_utils::serialize_ecdsa_signature_from_str(BIG_R, S);
    assert_eq!(sig, reference);
}

#[test]
fn unlocking_script_pushes_signature_then_public_key() {
    let sig = assemble_signature(BIG_R, S).unwrap();
    let pubkey = hex::decode(UCP).unwrap();
    let script = build_script_sig(&sig, &pubkey);

    assert_eq!(script[0] as usize, sig.len());
    assert_eq!(&script[1..1 + sig.len()], &sig[..]);
    let key_at = 1 + sig.len();
    assert_eq!(script[key_at] as usize, pubkey.len());
    assert_eq!(&script[key_at + 1..], &pubkey[..]);
    assert_eq!(script.len(), 2 + sig.len() + pubkey.len());
    // The signature item ends with the sighash type byte.
    assert_eq!(sig[sig.len() - 1], 0x01);

    let reference = omni_utils::build_script_sig(&sig, &pubkey);
    assert_eq!(script, reference);
}

#[test]
fn finalized_transaction_matches_reference_serializer() {
    let txid = hex::decode(TXID).unwrap();
    let funder_script = hex::decode(FUNDER_SCRIPT).unwrap();
    let tx = Transaction {
        version: 1,
        lock_time: 0,
        input: vec![TxIn {
            previous_output: OutPoint { txid, vout: 0 },
            script_sig: funder_script.clone(),
            sequence: u32::MAX,
        }],
        output: vec![TxOut { value: 5000, script_pubkey: funder_script.clone() }],
    };
    let response = SignatureResponse {
        big_r: AffinePoint { affine_point: BIG_R.to_string() },
        s: SignatureScalar { scalar: S.to_string() },
        recovery_id: 0,
    };
    let pubkey = hex::decode(UCP).unwrap();
    let encoded = finalize_transaction(tx, &response, &pubkey).unwrap();
    assert_eq!(&encoded[0..8], "01000000");

    let sig = assemble_signature(BIG_R, S).unwrap();
    let script_sig = omni_utils::build_script_sig(&sig, &pubkey);
    let mut reference_tx = BitcoinTransaction {
        version: Version::One,
        lock_time: LockTime::from_height(0).unwrap(),
        input: vec![OmniTxIn {
            previous_output: OmniOutPoint {
                txid: Txid(omni_transaction::bitcoin::types::Hash::from_hex(TXID).unwrap()),
                vout: 0,
            },
            script_sig: ScriptBuf::from_bytes(funder_script.clone()),
            sequence: Sequence::MAX,
            witness: Witness::default(),
        }],
        output: vec![OmniTxOut {
            value: Amount::from_sat(5000),
            script_pubkey: ScriptBuf::from_bytes(funder_script),
        }],
    };
    let reference =
        reference_tx.build_with_script_sig(0, ScriptBuf(script_sig), TransactionType::P2PKH);
    assert_eq!(encoded, hex::encode(reference));
}

#[test]
fn malformed_signature_components_are_assembly_errors() {
    // Not hexadecimal.
    assert_eq!(assemble_signature("zz", S), Err(btc_claim::Error::AssemblyError));
    // r component too short: 32 bytes instead of 33.
    assert_eq!(assemble_signature(&BIG_R[2..], S), Err(btc_claim::Error::AssemblyError));
    // s component too long.
    let long_s = format!("{}00", S);
    assert_eq!(assemble_signature(BIG_R, &long_s), Err(btc_claim::Error::AssemblyError));
    // Odd-length hexadecimal.
    assert_eq!(assemble_signature(BIG_R, &S[1..]), Err(btc_claim::Error::AssemblyError));
}
