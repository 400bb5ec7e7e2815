use btc_claim::contract::Contract;
use btc_claim::external::{AffinePoint, SignatureResponse, SignatureScalar};
use btc_claim::transaction::get_tx;
use btc_claim::Error;

const UCP: &str = "048393e4b554ced50402b2e9fcf765941fcbf3fa2b87c450873a0127dbb8cd7d214a4be00c690901a0eae20e50faf1957f30aecd9e34c7395d1f7bdb5d79123d8a";
const ADDRESS: &str = "mwVgE7n7nwtc3TtTDxN8c2gntFtVpBwBtK";
const TXID: &str = "613455e44b8e79b8ba98671a6a2d3b0f5b5d3e817e8f6e2b2b6e0d7b8c8b46c3";
const BIG_R: &str = "03B96BFA3DA6BB4BB74EEEE9C20970725C5782F07724CD1BEFBD265C5AD5C63948";
const S: &str = "49283B618968DEFB0E660EA703D193BC1D213F5DD811A2D13307FCA01E20C5C0";

fn owner() -> String {
    "owner.example".to_string()
}

fn credential() -> String {
    "ed25519:4D6rz5CBsfDLfdCBJGH2Mtp2rRLXTRQ6X2hS6Pn7y9d1".to_string()
}

fn response() -> SignatureResponse {
    SignatureResponse {
        big_r: AffinePoint { affine_point: BIG_R.to_string() },
        s: SignatureScalar { scalar: S.to_string() },
        recovery_id: 0,
    }
}

fn funded_contract(amount: u128) -> Contract {
    let mut c = Contract::init(owner());
    c.add_drop(&owner(), 0, amount, UCP.to_string(), "bitcoin-drop-1".to_string(), None);
    c.add_drop_key(&owner(), 1, credential());
    c
}

#[test]
fn claim_with_unbound_credential_fails_closed() {
    let mut c = funded_contract(100000000);
    let r = c.claim(
        "ed25519:unknown".to_string(),
        TXID.to_string(),
        0,
        ADDRESS.to_string(),
        899887000,
    );
    assert!(matches!(r, Err(Error::LookupError)));
    // The bound credential is untouched and no request went out.
    assert_eq!(c.get_keys(1), vec![credential()]);
}

#[test]
fn sequential_claims_use_the_credential_exactly_once() {
    let mut c = funded_contract(100000000);
    let req = c
        .claim(credential(), TXID.to_string(), 0, ADDRESS.to_string(), 899887000)
        .unwrap();
    assert_eq!(req.sign_request.payload.len(), 32);
    assert_eq!(req.sign_request.path, "bitcoin-drop-1");
    assert_eq!(req.sign_request.key_version, 0);
    assert_eq!(req.bitcoin_pubkey, hex::decode(UCP).unwrap());

    let signed = c
        .callback(&credential(), Some(response()), req.tx, req.bitcoin_pubkey)
        .unwrap();
    assert_eq!(&signed[0..8], "01000000");
    assert!(signed.chars().all(|ch| ch.is_ascii_hexdigit() && !ch.is_ascii_uppercase()));

    // The credential is retired: the record no longer lists it and a second
    // claim fails closed.
    assert_eq!(c.get_keys(1), Vec::<String>::new());
    let again = c.claim(credential(), TXID.to_string(), 0, ADDRESS.to_string(), 899887000);
    assert!(matches!(again, Err(Error::LookupError)));
}

#[test]
fn concurrent_claims_cannot_both_dispatch() {
    let mut c = funded_contract(100000000);
    let first = c.claim(credential(), TXID.to_string(), 0, ADDRESS.to_string(), 899887000);
    assert!(first.is_ok());
    // Before the first continuation resolves, the second claim must not
    // obtain a signature request over the same funding record.
    let second = c.claim(credential(), TXID.to_string(), 0, ADDRESS.to_string(), 899887000);
    assert!(matches!(second, Err(Error::LookupError)));
}

#[test]
fn oracle_failure_returns_the_indicator_and_retires_the_credential() {
    let mut c = funded_contract(100000000);
    let req = c
        .claim(credential(), TXID.to_string(), 0, ADDRESS.to_string(), 899887000)
        .unwrap();
    let r = c.callback(&credential(), None, req.tx, req.bitcoin_pubkey);
    assert!(matches!(r, Err(Error::OracleError)));
    let again = c.claim(credential(), TXID.to_string(), 0, ADDRESS.to_string(), 899887000);
    assert!(matches!(again, Err(Error::LookupError)));
}

#[test]
fn malformed_oracle_signature_still_retires_the_credential() {
    let mut c = funded_contract(100000000);
    let req = c
        .claim(credential(), TXID.to_string(), 0, ADDRESS.to_string(), 899887000)
        .unwrap();
    let bad = SignatureResponse {
        big_r: AffinePoint { affine_point: "zz".to_string() },
        s: SignatureScalar { scalar: S.to_string() },
        recovery_id: 0,
    };
    let r = c.callback(&credential(), Some(bad), req.tx, req.bitcoin_pubkey);
    assert!(matches!(r, Err(Error::AssemblyError)));
    assert_eq!(c.get_keys(1), Vec::<String>::new());
}

#[test]
fn amounts_at_or_above_the_satoshi_field_are_rejected() {
    let too_big = u64::MAX as u128 + 1;
    let r = get_tx(TXID, 0, UCP, ADDRESS, too_big, 1, None);
    assert_eq!(r, Err(Error::ValueError));
    let change_too_big = get_tx(TXID, 0, UCP, ADDRESS, 1, too_big, None);
    assert_eq!(change_too_big, Err(Error::ValueError));
    // The largest representable amount still passes.
    assert!(get_tx(TXID, 0, UCP, ADDRESS, u64::MAX as u128, 1, None).is_ok());

    // A claim on an over-funded record is rejected explicitly, never
    // truncated.
    let mut c = funded_contract(too_big);
    let r = c.claim(credential(), TXID.to_string(), 0, ADDRESS.to_string(), 899887000);
    assert!(matches!(r, Err(Error::ValueError)));
    // The credential survives the rejected claim.
    assert_eq!(c.get_keys(1), vec![credential()]);
}

#[test]
fn binding_is_idempotent_and_exclusive() {
    let mut c = Contract::init(owner());
    c.add_drop(&owner(), 0, 5, UCP.to_string(), "p1".to_string(), None);
    c.add_drop(&owner(), 0, 7, UCP.to_string(), "p2".to_string(), None);
    assert_eq!(c.get_drops(), vec![1u128, 2u128]);

    c.add_drop_key(&owner(), 1, credential());
    // A second bind of the same credential, even to another record, is a
    // no-op: a credential binds to at most one record.
    c.add_drop_key(&owner(), 2, credential());
    assert_eq!(c.get_keys(1), vec![credential()]);
    assert_eq!(c.get_keys(2), Vec::<String>::new());
}

#[test]
fn owner_can_unbind_a_credential() {
    let mut c = funded_contract(100000000);
    c.remove_key(&owner(), &credential());
    assert_eq!(c.get_keys(1), Vec::<String>::new());
    let r = c.claim(credential(), TXID.to_string(), 0, ADDRESS.to_string(), 899887000);
    assert!(matches!(r, Err(Error::LookupError)));
}

#[test]
fn claim_with_undecodable_inputs_is_a_decode_error() {
    let mut c = funded_contract(100000000);
    let bad_txid = c.claim(credential(), "nothex".to_string(), 0, ADDRESS.to_string(), 1);
    assert!(matches!(bad_txid, Err(Error::DecodeError)));
    // The rejected claim left the credential usable.
    let ok = c.claim(credential(), TXID.to_string(), 0, ADDRESS.to_string(), 1);
    assert!(ok.is_ok());
}

#[test]
fn data_payload_travels_from_record_to_transaction() {
    let mut c = Contract::init(owner());
    c.add_drop(
        &owner(),
        0,
        100000000,
        UCP.to_string(),
        "p".to_string(),
        Some("6a0568656c6c6f".to_string()),
    );
    c.add_drop_key(&owner(), 1, credential());
    let req = c
        .claim(credential(), TXID.to_string(), 0, ADDRESS.to_string(), 899887000)
        .unwrap();
    assert_eq!(req.tx.output.len(), 3);
    assert_eq!(req.tx.output[2].value, 0);
    assert_eq!(req.tx.output[2].script_pubkey, hex::decode("6a0568656c6c6f").unwrap());
}
