use btc_claim::script::{p2pkh_script_from_address, p2pkh_script_from_ucp};

#[test]
fn test_p2pkh_script_from_ucp() {
    let address = "mwVgE7n7nwtc3TtTDxN8c2gntFtVpBwBtK";
    println!(
        "ripe160 from address: {:?}",
        &base58ck::decode_check(address).unwrap()[1..]
    );

    let ucp = "048393e4b554ced50402b2e9fcf765941fcbf3fa2b87c450873a0127dbb8cd7d214a4be00c690901a0eae20e50faf1957f30aecd9e34c7395d1f7bdb5d79123d8a";
    let script_sig = hex::decode("76a914af442f0d61233c9d3fdde22d36bfb6e3e441689088ac").unwrap();
    let test_script_sig = p2pkh_script_from_ucp(ucp).unwrap();

    assert!(script_sig == test_script_sig);
}

#[test]
fn test_p2pkh_script_from_address() {
    let address = "mwVgE7n7nwtc3TtTDxN8c2gntFtVpBwBtK";
    let script_sig = hex::decode("76a914af442f0d61233c9d3fdde22d36bfb6e3e441689088ac").unwrap();
    let test_script_sig = p2pkh_script_from_address(address).unwrap();

    assert!(script_sig == test_script_sig);
}

#[test]
fn address_script_has_template_around_embedded_hash() {
    let address = "mwVgE7n7nwtc3TtTDxN8c2gntFtVpBwBtK";
    let payload = base58ck::decode_check(address).unwrap();
    let embedded_hash = &payload[1..];
    assert_eq!(embedded_hash.len(), 20);

    let script = p2pkh_script_from_address(address).unwrap();
    assert_eq!(script.len(), 25);
    assert_eq!(&script[0..3], &[0x76u8, 0xa9, 0x14]);
    assert_eq!(&script[3..23], embedded_hash);
    assert_eq!(&script[23..25], &[0x88u8, 0xac]);
}

#[test]
fn address_with_bad_checksum_is_a_decode_error() {
    let r = p2pkh_script_from_address("mwVgE7n7nwtc3TtTDxN8c2gntFtVpBwBtL");
    assert_eq!(r, Err(btc_claim::Error::DecodeError));
}

#[test]
fn address_with_wrong_payload_length_is_a_decode_error() {
    // A valid base58check string whose payload is not 21 bytes: encode one.
    let short = base58ck::Base58CkString::encode_unbounded(&[0x6f, 0x01, 0x02, 0x03]);
    let r = p2pkh_script_from_address(short.as_str());
    assert_eq!(r, Err(btc_claim::Error::DecodeError));
}

#[test]
fn public_key_with_bad_hex_is_a_decode_error() {
    let r = p2pkh_script_from_ucp("zz41");
    assert_eq!(r, Err(btc_claim::Error::DecodeError));
    let odd = p2pkh_script_from_ucp("048");
    assert_eq!(odd, Err(btc_claim::Error::DecodeError));
}
