//! Hierarchical derivation tests: determinism, hardened rejection on the
//! public branch, text round trips, and the zero-seed scenario.
use gyu_bitcoin::derivation_path::BitcoinDerivationPath;
use gyu_bitcoin::extended_private_key::BitcoinExtendedPrivateKey;
use gyu_bitcoin::extended_public_key::{BitcoinExtendedPublicKey, ExtendedPublicKeyError};
use gyu_bitcoin::format::BitcoinFormat;

fn zero_seed() -> Vec<u8> {
    vec![0u8; 64]
}

#[test]
fn derivation_is_deterministic() {
    let master = BitcoinExtendedPrivateKey::new_master(&zero_seed(), &BitcoinFormat::P2PKH)
        .unwrap();
    let path = BitcoinDerivationPath::from_str("m/44'/0'/0'/0/0").unwrap();
    let a = master.derive(&path).unwrap();
    let b = master.derive(&path).unwrap();
    assert_eq!(a, b);
    assert_eq!(a.to_text(), b.to_text());
    assert_eq!(a.depth, 5);
}

#[test]
fn public_branch_rejects_hardened() {
    let master = BitcoinExtendedPrivateKey::new_master(&zero_seed(), &BitcoinFormat::P2PKH)
        .unwrap();
    let xpub = master.to_extended_public_key();
    let path = BitcoinDerivationPath::from_str("m/0'").unwrap();
    assert_eq!(
        xpub.derive(&path),
        Err(ExtendedPublicKeyError::InvalidChildNumber(0x8000_0000, 0x8000_0000))
    );
}

#[test]
fn public_branch_matches_private_branch() {
    let master = BitcoinExtendedPrivateKey::new_master(&zero_seed(), &BitcoinFormat::P2PKH)
        .unwrap();
    let path = BitcoinDerivationPath::from_str("m/0/1/2").unwrap();
    let child_private = master.derive(&path).unwrap();
    let child_public = master.to_extended_public_key().derive(&path).unwrap();
    assert_eq!(
        child_private.to_public_key().serialize_compressed(),
        child_public.to_public_key().serialize_compressed()
    );
    assert_eq!(child_private.chain_code, child_public.chain_code);
    assert_eq!(child_private.depth, child_public.depth);
    assert_eq!(child_private.parent_fingerprint, child_public.parent_fingerprint);
}

#[test]
fn extended_private_key_text_round_trip() {
    let master = BitcoinExtendedPrivateKey::new_master(&zero_seed(), &BitcoinFormat::P2PKH)
        .unwrap();
    let text = master.to_text();
    assert!(text.starts_with("xprv"));
    let parsed = BitcoinExtendedPrivateKey::from_str(text.as_str()).unwrap();
    assert_eq!(parsed, master);
    let path = BitcoinDerivationPath::from_str("m/44'/0'/0'/0/0").unwrap();
    let child = master.derive(&path).unwrap();
    let child_text = child.to_text();
    let parsed_child = BitcoinExtendedPrivateKey::from_str(child_text.as_str()).unwrap();
    assert_eq!(parsed_child, child);
}

#[test]
fn extended_public_key_text_round_trip() {
    let master = BitcoinExtendedPrivateKey::new_master(&zero_seed(), &BitcoinFormat::P2PKH)
        .unwrap();
    let xpub = master.to_extended_public_key();
    let text = xpub.to_text();
    assert!(text.starts_with("xpub"));
    let parsed = BitcoinExtendedPublicKey::from_str(text.as_str()).unwrap();
    assert_eq!(parsed, xpub);
}

#[test]
fn depth_bound_is_enforced() {
    let master = BitcoinExtendedPrivateKey::new_master(&zero_seed(), &BitcoinFormat::P2PKH)
        .unwrap();
    let mut key = master;
    // walk down until the bound trips
    let step = BitcoinDerivationPath::from_str("m/0").unwrap();
    for _ in 0..255 {
        key = key.derive(&step).unwrap();
    }
    assert_eq!(key.depth, 255);
    assert!(matches!(
        key.derive(&step),
        Err(gyu_bitcoin::extended_private_key::ExtendedPrivateKeyError::MaximumChildDepthReached(
            255
        ))
    ));
}

#[test]
fn zero_seed_bip44_vector() {
    let master = BitcoinExtendedPrivateKey::new_master(&zero_seed(), &BitcoinFormat::P2PKH)
        .unwrap();
    let path = BitcoinDerivationPath::from_str("m/44'/0'/0'/0/0").unwrap();
    let child = master.derive(&path).unwrap();
    let wif = child.to_private_key().to_wif();
    let address = child
        .to_address(&BitcoinFormat::P2PKH)
        .unwrap()
        .to_text();
    assert_eq!(wif.as_str(), "L4BvVtgyBX87SM9nSKMjaTB1GSPzLAVBXbbiSF2Js6xc11L5CgEr");
    assert_eq!(address.as_str(), "1FPTAYpFK6WAeAVnCoYNDFYN7PMCuQpfKs");
}

#[test]
fn bip49_path_forces_wrapped_segwit_format() {
    let master = BitcoinExtendedPrivateKey::new_master(&zero_seed(), &BitcoinFormat::P2PKH)
        .unwrap();
    let path = BitcoinDerivationPath::from_str("m/49'/0'/0'/0/0").unwrap();
    let child = master.derive(&path).unwrap();
    assert_eq!(child.format, BitcoinFormat::P2SH_P2WPKH);
    let text = child.to_text();
    assert!(text.starts_with("yprv"));
    let parsed = BitcoinExtendedPrivateKey::from_str(text.as_str()).unwrap();
    assert_eq!(parsed, child);
    // a plain path inherits the parent's format
    let plain = BitcoinDerivationPath::from_str("m/0").unwrap();
    assert_eq!(master.derive(&plain).unwrap().format, BitcoinFormat::P2PKH);
}
