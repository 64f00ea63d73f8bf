//! One test per error variant the library can report.
use base58::FromBase58;
use base58::ToBase58;
use sha2::Digest;
use gyu_bitcoin::address::{AddressError, BitcoinAddress};
use gyu_bitcoin::amount::{AmountError, BitcoinAmount, MAX_COINS};
use gyu_bitcoin::derivation_path::{BitcoinDerivationPath, ChildIndex, DerivationPathError};
use gyu_bitcoin::extended_private_key::{BitcoinExtendedPrivateKey, ExtendedPrivateKeyError};
use gyu_bitcoin::format::BitcoinFormat;
use gyu_bitcoin::private_key::{BitcoinPrivateKey, PrivateKeyError};
use gyu_bitcoin::transaction::{
    BitcoinTransactionInput, Outpoint, SignatureHash, TransactionError,
};

#[test]
fn path_shape_errors() {
    // a BIP44 path needs a hardened account and normal change and index
    let bad = BitcoinDerivationPath::BIP44(
        ChildIndex::Normal(0),
        ChildIndex::Normal(0),
        ChildIndex::Normal(0),
    );
    assert_eq!(bad.to_vec(), Err(DerivationPathError::ExpectedBIP44Path));
    let bad49 = BitcoinDerivationPath::BIP49(
        ChildIndex::Hardened(0),
        ChildIndex::Hardened(1),
        ChildIndex::Normal(0),
    );
    assert_eq!(bad49.to_vec(), Err(DerivationPathError::ExpectedBIP49Path));
    let long = BitcoinDerivationPath::BIP32(vec![ChildIndex::Normal(0); 256]);
    assert_eq!(long.to_vec(), Err(DerivationPathError::ExpectedBIP32Path));
}

#[test]
fn address_byte_length_error() {
    // nineteen ones decode to nineteen zero bytes: too short for an address
    let text = "1111111111111111111";
    assert_eq!(
        BitcoinAddress::from_str(text),
        Err(AddressError::InvalidByteLength(19))
    );
}

#[test]
fn address_prefix_error() {
    // a checksummed 25-byte payload with a testnet prefix is not a mainnet
    // address
    let mut payload = vec![0xC4u8];
    payload.extend(vec![0x00; 20]);
    let first = sha2::Sha256::digest(&payload);
    let sum = sha2::Sha256::digest(&first);
    payload.extend(&sum[..4]);
    let text = payload.to_base58();
    assert_eq!(
        BitcoinAddress::from_str(text.as_str()),
        Err(AddressError::InvalidPrefix(vec![0xC4, 0x00]))
    );
}

#[test]
fn address_checksum_error() {
    // a 25-byte payload whose trailing four bytes are not its checksum
    let mut payload = vec![0x00u8];
    payload.extend(vec![0x07; 24]);
    let text = payload.to_base58();
    assert!(matches!(
        BitcoinAddress::from_str(text.as_str()),
        Err(AddressError::InvalidChecksum(_, _))
    ));
}

#[test]
fn address_bech32_decode_error() {
    assert!(matches!(
        BitcoinAddress::from_str("bc1qqqqqqqqqqqqqq"),
        Err(AddressError::Bech32DecodingError(_))
    ));
}

#[test]
fn transaction_input_errors() {
    // a transaction id must span exactly 32 bytes
    let r = BitcoinTransactionInput::new(
        vec![0u8; 31],
        0,
        None,
        None,
        None,
        None,
        None,
        SignatureHash::SIG_ALL,
    );
    assert_eq!(r, Err(TransactionError::InvalidTransactionId(31)));
    // a P2PKH outpoint must not carry a redeem script
    let key = BitcoinPrivateKey::from_secp256k1_secret_key(
        &{
            let mut sk = vec![0u8; 32];
            sk[31] = 3;
            sk
        },
        true,
    );
    let address = BitcoinAddress::from_private_key(&key, &BitcoinFormat::P2PKH).unwrap();
    let r = BitcoinTransactionInput::new(
        vec![0u8; 32],
        0,
        Some(address),
        None,
        Some(vec![0x51]),
        None,
        None,
        SignatureHash::SIG_ALL,
    );
    assert!(matches!(r, Err(TransactionError::InvalidInputs(_))));
}

#[test]
fn mismatched_script_template_is_rejected() {
    // a supplied scriptPubKey must match the address format's template in
    // every checked byte
    let key = BitcoinPrivateKey::from_secp256k1_secret_key(
        &{
            let mut sk = vec![0u8; 32];
            sk[31] = 9;
            sk
        },
        true,
    );
    let address = BitcoinAddress::from_private_key(&key, &BitcoinFormat::P2PKH).unwrap();
    let r = BitcoinTransactionInput::new(
        vec![0u8; 32],
        0,
        Some(address),
        None,
        None,
        Some(vec![0x76, 0x00, 0x00]),
        None,
        SignatureHash::SIG_ALL,
    );
    assert!(matches!(r, Err(TransactionError::InvalidScriptPubKey(_))));
}

#[test]
fn serialize_needs_previous_script() {
    // an unsigned legacy input with an address but no previous scriptPubKey
    // cannot serialize
    let key = BitcoinPrivateKey::from_secp256k1_secret_key(
        &{
            let mut sk = vec![0u8; 32];
            sk[31] = 5;
            sk
        },
        true,
    );
    let address = BitcoinAddress::from_private_key(&key, &BitcoinFormat::P2PKH).unwrap();
    let input = BitcoinTransactionInput {
        outpoint: Outpoint {
            reverse_transaction_id: vec![0u8; 32],
            index: 0,
            amount: None,
            script_pub_key: None,
            redeem_script: None,
            address: Some(address),
        },
        script_sig: vec![],
        sequence: vec![0xff; 4],
        sighash_code: SignatureHash::SIG_ALL,
        witnesses: vec![],
        is_signed: false,
        additional_witness: None,
        witness_script_data: None,
    };
    assert_eq!(
        input.serialize(false),
        Err(TransactionError::MissingOutpointScriptPublicKey)
    );
}

#[test]
fn extended_key_parse_errors() {
    // wrong byte length
    let short = vec![0u8; 10].to_base58();
    assert_eq!(
        BitcoinExtendedPrivateKey::from_str(short.as_str()),
        Err(ExtendedPrivateKeyError::InvalidByteLength(10))
    );
    // public version bytes are not private version bytes
    let master = BitcoinExtendedPrivateKey::new_master(&vec![0u8; 64], &BitcoinFormat::P2PKH)
        .unwrap();
    let xpub_text = master.to_extended_public_key().to_text();
    assert!(matches!(
        BitcoinExtendedPrivateKey::from_str(xpub_text.as_str()),
        Err(ExtendedPrivateKeyError::InvalidVersionBytes(_))
    ));
    // a corrupted checksum is reported
    let mut raw = master.to_text().as_str().from_base58().unwrap();
    let last = raw.len() - 1;
    raw[last] ^= 0x01;
    let altered = raw.to_base58();
    assert!(matches!(
        BitcoinExtendedPrivateKey::from_str(altered.as_str()),
        Err(ExtendedPrivateKeyError::InvalidChecksum(_, _))
    ));
}

#[test]
fn wif_prefix_error() {
    // a WIF-shaped string with a foreign prefix byte
    let mut payload = vec![0xefu8]; // testnet prefix
    payload.extend(vec![0x01; 32]);
    payload.push(0x01);
    let first = sha2::Sha256::digest(&payload);
    let sum = sha2::Sha256::digest(&first);
    payload.extend(&sum[..4]);
    let text = payload.to_base58();
    assert_eq!(
        BitcoinPrivateKey::from_str(text.as_str()),
        Err(PrivateKeyError::InvalidPrefix(vec![0xef]))
    );
}

#[test]
fn amount_error_payload() {
    assert_eq!(
        BitcoinAmount::from_satoshi(-MAX_COINS - 1),
        Err(AmountError::AmountOutOfBounds(-MAX_COINS - 1, MAX_COINS))
    );
}
