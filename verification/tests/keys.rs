//! Private key, public key, and address tests.
use base58::FromBase58;
use gyu_bitcoin::address::AddressError;
use gyu_bitcoin::address::BitcoinAddress;
use gyu_bitcoin::format::BitcoinFormat;
use gyu_bitcoin::private_key::{BitcoinPrivateKey, PrivateKeyError};
use gyu_bitcoin::public_key::BitcoinPublicKey;

fn test_secret() -> Vec<u8> {
    let mut sk = vec![0u8; 32];
    sk[31] = 0x01;
    sk[0] = 0x11;
    sk
}

#[test]
fn wif_round_trip() {
    for compressed in [true, false] {
        let key = BitcoinPrivateKey::from_secp256k1_secret_key(&test_secret(), compressed);
        let wif = key.to_wif();
        let parsed = BitcoinPrivateKey::from_str(wif.as_str()).unwrap();
        assert_eq!(parsed, key);
        assert_eq!(parsed.is_compressed(), compressed);
    }
}

#[test]
fn wif_rejects_tampering() {
    let key = BitcoinPrivateKey::from_secp256k1_secret_key(&test_secret(), true);
    let wif = key.to_wif();
    // flip a character in the middle: the checksum no longer matches
    let mut chars: Vec<char> = wif.chars().collect();
    let mid = chars.len() / 2;
    chars[mid] = if chars[mid] == '2' { '3' } else { '2' };
    let altered: String = chars.into_iter().collect();
    match BitcoinPrivateKey::from_str(altered.as_str()) {
        Err(PrivateKeyError::InvalidChecksum(_, _)) => {}
        Err(PrivateKeyError::InvalidByteLength(_)) => {}
        Err(PrivateKeyError::Crate(_, _)) => {}
        other => panic!("tampered WIF accepted: {:?}", other),
    }
}

#[test]
fn p2pkh_payload_is_25_bytes() {
    let key = BitcoinPrivateKey::from_secp256k1_secret_key(&test_secret(), true);
    let address = BitcoinAddress::from_private_key(&key, &BitcoinFormat::P2PKH).unwrap();
    let decoded = address.to_text().as_str().from_base58().unwrap();
    assert_eq!(decoded.len(), 25);
    assert_eq!(decoded[0], 0x00);
}

#[test]
fn p2sh_p2wpkh_payload_is_25_bytes() {
    let key = BitcoinPrivateKey::from_secp256k1_secret_key(&test_secret(), true);
    let address = BitcoinAddress::from_private_key(&key, &BitcoinFormat::P2SH_P2WPKH).unwrap();
    let decoded = address.to_text().as_str().from_base58().unwrap();
    assert_eq!(decoded.len(), 25);
    assert_eq!(decoded[0], 0x05);
}

#[test]
fn address_round_trips() {
    let key = BitcoinPrivateKey::from_secp256k1_secret_key(&test_secret(), true);
    for format in [BitcoinFormat::P2PKH, BitcoinFormat::P2SH_P2WPKH, BitcoinFormat::Bech32] {
        let address = BitcoinAddress::from_private_key(&key, &format).unwrap();
        let reparsed = BitcoinAddress::from_str(address.to_text().as_str()).unwrap();
        assert_eq!(reparsed, address);
    }
}

#[test]
fn p2wsh_address_round_trips() {
    let script = vec![0x51, 0x21, 0x03];
    let address = BitcoinAddress::p2wsh(&script).unwrap();
    assert_eq!(address.format(), BitcoinFormat::P2WSH);
    let reparsed = BitcoinAddress::from_str(address.to_text().as_str()).unwrap();
    // a version-0, 32-byte program parses back as a script hash
    assert_eq!(reparsed, address);
}

#[test]
fn bech32_address_shape() {
    let key = BitcoinPrivateKey::from_secp256k1_secret_key(&test_secret(), true);
    let address = BitcoinAddress::from_private_key(&key, &BitcoinFormat::Bech32).unwrap();
    let text = address.to_text();
    assert_eq!(text.len(), 42);
    assert!(text.starts_with("bc1"));
}

#[test]
fn address_parser_enforces_length_gate() {
    assert_eq!(
        BitcoinAddress::from_str("1short"),
        Err(AddressError::InvalidCharacterLength(6))
    );
}

#[test]
fn public_key_serializations() {
    let key = BitcoinPrivateKey::from_secp256k1_secret_key(&test_secret(), true);
    let pk = key.to_public_key();
    assert_eq!(pk.serialize_compressed().len(), 33);
    let uncompressed_key =
        BitcoinPrivateKey::from_secp256k1_secret_key(&test_secret(), false);
    let upk = BitcoinPublicKey::from_private_key(&uncompressed_key);
    assert_eq!(upk.serialize_chosen().len(), 65);
    assert_eq!(pk.serialize_chosen().len(), 33);
}
