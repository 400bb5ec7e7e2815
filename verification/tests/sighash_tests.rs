use btc_claim::hashing::sha256d;
use btc_claim::sighash::{get_encoded_tx, sighash_digest};
use btc_claim::transaction::{get_tx, OutPoint, Transaction, TxIn, TxOut};

use omni_transaction::bitcoin::types::{
    Amount, EcdsaSighashType, LockTime, OutPoint as OmniOutPoint, ScriptBuf,
    Sequence, TxIn as OmniTxIn, TxOut as OmniTxOut, Txid, Version, Witness,
};
use omni_transaction::bitcoin::BitcoinTransaction;

const TXID: &str = "613455e44b8e79b8ba98671a6a2d3b0f5b5d3e817e8f6e2b2b6e0d7b8c8b46c3";
const FUNDER_SCRIPT: &str = "76a914b14da44077bd985df6eb9aa04fd18322a85ba30188ac";
const UCP: &str = "048393e4b554ced50402b2e9fcf765941fcbf3fa2b87c450873a0127dbb8cd7d214a4be00c690901a0eae20e50faf1957f30aecd9e34c7395d1f7bdb5d79123d8a";
const ADDRESS: &str = "mwVgE7n7nwtc3TtTDxN8c2gntFtVpBwBtK";

fn sha2_double(data: &[u8]) -> Vec<u8> {
    let once = <sha2::Sha256 as sha2::Digest>::digest(data);
    <sha2::Sha256 as sha2::Digest>::digest(once).to_vec()
}

#[test]
fn sha256d_of_empty_input_matches_known_vector() {
    let digest = sha256d(Vec::new());
    assert_eq!(
        hex::encode(&digest),
        "5df6e0e2761359d30a8275058e299fcc0381534545f55cf43e41983f5d4c9456"
    );
}

fn known_vector_tx() -> Transaction {
    let txid = hex::decode(TXID).unwrap();
    let funder_script = hex::decode(FUNDER_SCRIPT).unwrap();
    Transaction {
        version: 1,
        lock_time: 0,
        input: vec![TxIn {
            previous_output: OutPoint { txid, vout: 0 },
            script_sig: funder_script.clone(),
            sequence: u32::MAX,
        }],
        output: vec![
            TxOut { value: 100000000, script_pubkey: funder_script.clone() },
            TxOut { value: 899887000, script_pubkey: funder_script },
        ],
    }
}

fn known_vector_omni_tx() -> BitcoinTransaction {
    let funder_script = hex::decode(FUNDER_SCRIPT).unwrap();
    BitcoinTransaction {
        version: Version::One,
        lock_time: LockTime::from_height(0).unwrap(),
        input: vec![OmniTxIn {
            previous_output: OmniOutPoint {
                txid: Txid(omni_transaction::bitcoin::types::Hash::from_hex(TXID).unwrap()),
                vout: 0,
            },
            script_sig: ScriptBuf::from_bytes(funder_script.clone()),
            sequence: Sequence::MAX,
            witness: Witness::default(),
        }],
        output: vec![
            OmniTxOut {
                value: Amount::from_sat(100000000),
                script_pubkey: ScriptBuf::from_bytes(funder_script.clone()),
            },
            OmniTxOut {
                value: Amount::from_sat(899887000),
                script_pubkey: ScriptBuf::from_bytes(funder_script),
            },
        ],
    }
}

#[test]
fn known_vector_preimage_matches_reference_serializer() {
    let tx = known_vector_tx();
    let preimage = get_encoded_tx(&tx);
    let reference = known_vector_omni_tx().build_for_signing_legacy(EcdsaSighashType::All);
    assert_eq!(preimage, reference);
}

#[test]
fn known_vector_digest_is_double_sha256_of_the_preimage() {
    let tx = known_vector_tx();
    let funder_script = hex::decode(FUNDER_SCRIPT).unwrap();
    let digest = sighash_digest(&tx, 0, &funder_script, 1);
    assert_eq!(digest.len(), 32);
    let reference = known_vector_omni_tx().build_for_signing_legacy(EcdsaSighashType::All);
    assert_eq!(digest, sha2_double(&reference));
}

#[test]
fn built_transaction_preimage_matches_reference_serializer() {
    let tx = get_tx(TXID, 0, UCP, ADDRESS, 100000000, 899887000, None).unwrap();
    let preimage = get_encoded_tx(&tx);

    let funder_script = hex::decode("76a914af442f0d61233c9d3fdde22d36bfb6e3e441689088ac").unwrap();
    let receiver_script = funder_script.clone();
    let reference_tx = BitcoinTransaction {
        version: Version::One,
        lock_time: LockTime::from_height(0).unwrap(),
        input: vec![OmniTxIn {
            previous_output: OmniOutPoint {
                txid: Txid(omni_transaction::bitcoin::types::Hash::from_hex(TXID).unwrap()),
                vout: 0,
            },
            script_sig: ScriptBuf::from_bytes(funder_script.clone()),
            sequence: Sequence::MAX,
            witness: Witness::default(),
        }],
        output: vec![
            OmniTxOut {
                value: Amount::from_sat(100000000),
                script_pubkey: ScriptBuf::from_bytes(receiver_script),
            },
            OmniTxOut {
                value: Amount::from_sat(899887000),
                script_pubkey: ScriptBuf::from_bytes(funder_script),
            },
        ],
    };
    let reference = reference_tx.build_for_signing_legacy(EcdsaSighashType::All);
    assert_eq!(preimage, reference);
}

#[test]
fn digest_is_deterministic_and_amounts_change_it() {
    let tx1 = get_tx(TXID, 0, UCP, ADDRESS, 100000000, 899887000, None).unwrap();
    let tx2 = get_tx(TXID, 0, UCP, ADDRESS, 100000000, 899887000, None).unwrap();
    let funder_script = hex::decode("76a914af442f0d61233c9d3fdde22d36bfb6e3e441689088ac").unwrap();
    let d1 = sighash_digest(&tx1, 0, &funder_script, 1);
    let d2 = sighash_digest(&tx2, 0, &funder_script, 1);
    assert_eq!(d1, d2);

    let changed_amount = get_tx(TXID, 0, UCP, ADDRESS, 100000001, 899887000, None).unwrap();
    let d3 = sighash_digest(&changed_amount, 0, &funder_script, 1);
    assert_ne!(d1, d3);

    let changed_change = get_tx(TXID, 0, UCP, ADDRESS, 100000000, 899887001, None).unwrap();
    let d4 = sighash_digest(&changed_change, 0, &funder_script, 1);
    assert_ne!(d1, d4);
}

#[test]
fn data_output_is_third_and_carries_no_value() {
    let payload = vec![0x6a, 0x05, 0x68, 0x65, 0x6c, 0x6c, 0x6f];
    let tx = get_tx(TXID, 0, UCP, ADDRESS, 7, 11, Some(payload.clone())).unwrap();
    assert_eq!(tx.output.len(), 3);
    assert_eq!(tx.output[0].value, 7);
    assert_eq!(tx.output[1].value, 11);
    assert_eq!(tx.output[2].value, 0);
    assert_eq!(tx.output[2].script_pubkey, payload);
}

#[test]
fn bad_transaction_id_is_a_decode_error() {
    let r = get_tx("zz", 0, UCP, ADDRESS, 1, 1, None);
    assert_eq!(r, Err(btc_claim::Error::DecodeError));
    let short = get_tx("613455", 0, UCP, ADDRESS, 1, 1, None);
    assert_eq!(short, Err(btc_claim::Error::DecodeError));
}
