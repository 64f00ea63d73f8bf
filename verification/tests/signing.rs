//! Transaction signing tests, including signature verification against the
//! recomputed sighash.
use sha2::Digest;
use gyu_bitcoin::address::BitcoinAddress;
use gyu_bitcoin::amount::BitcoinAmount;
use gyu_bitcoin::format::BitcoinFormat;
use gyu_bitcoin::private_key::BitcoinPrivateKey;
use gyu_bitcoin::transaction::{
    BitcoinTransaction, BitcoinTransactionInput, BitcoinTransactionOutput,
    BitcoinTransactionParameters, SignatureHash,
};

fn fixed_key() -> BitcoinPrivateKey {
    let mut sk = vec![0u8; 32];
    sk[31] = 0x2a;
    sk[5] = 0x99;
    BitcoinPrivateKey::from_secp256k1_secret_key(&sk, true)
}

fn p2pkh_setup() -> (BitcoinPrivateKey, BitcoinTransaction) {
    let key = fixed_key();
    let address = BitcoinAddress::from_private_key(&key, &BitcoinFormat::P2PKH).unwrap();
    let input = BitcoinTransactionInput::new(
        vec![0x42u8; 32],
        0,
        Some(address.clone()),
        Some(BitcoinAmount::from_satoshi(100_000).unwrap()),
        None,
        None,
        None,
        SignatureHash::SIG_ALL,
    )
    .unwrap();
    let output =
        BitcoinTransactionOutput::new(&address, BitcoinAmount::from_satoshi(90_000).unwrap())
            .unwrap();
    let parameters = BitcoinTransactionParameters {
        version: 1,
        inputs: vec![input],
        outputs: vec![output],
        lock_time: 0,
        segwit_flag: false,
    };
    (key, BitcoinTransaction::new(parameters).unwrap())
}

#[test]
fn sign_p2pkh_signature_verifies() {
    let (key, tx) = p2pkh_setup();
    let signed = tx.sign(&key).unwrap();
    let sin = &signed.parameters.inputs[0];
    assert!(sin.is_signed);
    assert!(!signed.parameters.segwit_flag);

    // scriptSig layout: [sig-len][DER..][sighash byte][pk-len][pk bytes]
    let ss = &sin.script_sig;
    let sig_len = ss[0] as usize;
    let der = &ss[1..sig_len];
    assert_eq!(ss[sig_len], 0x01);
    let pk_len = ss[sig_len + 1] as usize;
    assert_eq!(pk_len, 33);
    let pk_bytes = &ss[sig_len + 2..sig_len + 2 + 33];
    assert_eq!(pk_bytes, &key.to_public_key().serialize_compressed()[..]);

    // recompute the legacy sighash preimage by hand
    let mut pre: Vec<u8> = 1u32.to_le_bytes().to_vec();
    pre.push(1);
    pre.extend(&sin.outpoint.reverse_transaction_id);
    pre.extend(&0u32.to_le_bytes());
    let spk = sin.outpoint.script_pub_key.clone().unwrap();
    pre.push(spk.len() as u8);
    pre.extend(&spk);
    pre.extend(&sin.sequence);
    pre.push(1);
    pre.extend(&signed.parameters.outputs[0].serialize().unwrap());
    pre.extend(&0u32.to_le_bytes());
    pre.extend(&1u32.to_le_bytes());
    let digest = sha2::Sha256::digest(&sha2::Sha256::digest(&pre));

    let message = libsecp256k1::Message::parse_slice(&digest).unwrap();
    let signature = libsecp256k1::Signature::parse_der(der).unwrap();
    let public_key = libsecp256k1::PublicKey::parse_slice(pk_bytes, None).unwrap();
    assert!(libsecp256k1::verify(&message, &signature, &public_key));
}

#[test]
fn signing_is_idempotent() {
    let (key, tx) = p2pkh_setup();
    let once = tx.sign(&key).unwrap();
    let twice = once.sign(&key).unwrap();
    assert_eq!(once, twice);
    assert_eq!(
        once.to_transaction_bytes().unwrap(),
        twice.to_transaction_bytes().unwrap()
    );
}

#[test]
fn sign_bech32_fills_witness() {
    let key = fixed_key();
    let address = BitcoinAddress::from_private_key(&key, &BitcoinFormat::Bech32).unwrap();
    let input = BitcoinTransactionInput::new(
        vec![0x24u8; 32],
        1,
        Some(address.clone()),
        Some(BitcoinAmount::from_satoshi(50_000).unwrap()),
        None,
        None,
        None,
        SignatureHash::SIG_ALL,
    )
    .unwrap();
    let pay_to = BitcoinAddress::from_private_key(&key, &BitcoinFormat::P2PKH).unwrap();
    let output =
        BitcoinTransactionOutput::new(&pay_to, BitcoinAmount::from_satoshi(40_000).unwrap())
            .unwrap();
    let parameters = BitcoinTransactionParameters {
        version: 2,
        inputs: vec![input],
        outputs: vec![output],
        lock_time: 0,
        segwit_flag: false,
    };
    let tx = BitcoinTransaction::new(parameters).unwrap();
    let signed = tx.sign(&key).unwrap();
    let sin = &signed.parameters.inputs[0];
    assert!(sin.is_signed);
    assert!(signed.parameters.segwit_flag);
    assert_eq!(sin.witnesses.len(), 2);
    assert!(sin.script_sig.is_empty());
    // the second witness item is the length-prefixed compressed key
    assert_eq!(sin.witnesses[1][0], 33);
    assert_eq!(&sin.witnesses[1][1..], &key.to_public_key().serialize_compressed()[..]);
    // serialized form re-parses to the same bytes
    let bytes = signed.to_transaction_bytes().unwrap();
    let reparsed = BitcoinTransaction::from_transaction_bytes(&bytes).unwrap();
    assert_eq!(reparsed.to_transaction_bytes().unwrap(), bytes);
}

#[test]
fn sign_p2sh_p2wpkh_sets_redeem_script_sig() {
    let key = fixed_key();
    let address =
        BitcoinAddress::from_private_key(&key, &BitcoinFormat::P2SH_P2WPKH).unwrap();
    let redeem = BitcoinAddress::create_redeem_script(&key.to_public_key());
    let input = BitcoinTransactionInput::new(
        vec![0x77u8; 32],
        0,
        Some(address.clone()),
        Some(BitcoinAmount::from_satoshi(70_000).unwrap()),
        Some(redeem.clone()),
        None,
        None,
        SignatureHash::SIG_ALL,
    )
    .unwrap();
    let output =
        BitcoinTransactionOutput::new(&address, BitcoinAmount::from_satoshi(60_000).unwrap())
            .unwrap();
    let parameters = BitcoinTransactionParameters {
        version: 1,
        inputs: vec![input],
        outputs: vec![output],
        lock_time: 0,
        segwit_flag: false,
    };
    let signed = BitcoinTransaction::new(parameters).unwrap().sign(&key).unwrap();
    let sin = &signed.parameters.inputs[0];
    assert!(sin.is_signed);
    assert!(signed.parameters.segwit_flag);
    // scriptSig is the length-prefixed redeem script
    let mut expected = vec![redeem.len() as u8];
    expected.extend(&redeem);
    assert_eq!(sin.script_sig, expected);
    assert_eq!(sin.witnesses.len(), 2);
}

#[test]
fn sign_skips_unrelated_inputs() {
    let key = fixed_key();
    // an input paying someone else: a different key's address
    let mut other_sk = vec![0u8; 32];
    other_sk[31] = 0x07;
    let other = BitcoinPrivateKey::from_secp256k1_secret_key(&other_sk, true);
    let other_address =
        BitcoinAddress::from_private_key(&other, &BitcoinFormat::P2PKH).unwrap();
    let input = BitcoinTransactionInput::new(
        vec![0x55u8; 32],
        0,
        Some(other_address.clone()),
        Some(BitcoinAmount::from_satoshi(10_000).unwrap()),
        None,
        None,
        None,
        SignatureHash::SIG_ALL,
    )
    .unwrap();
    let output = BitcoinTransactionOutput::new(
        &other_address,
        BitcoinAmount::from_satoshi(9_000).unwrap(),
    )
    .unwrap();
    let parameters = BitcoinTransactionParameters {
        version: 1,
        inputs: vec![input],
        outputs: vec![output],
        lock_time: 0,
        segwit_flag: false,
    };
    let tx = BitcoinTransaction::new(parameters).unwrap();
    let signed = tx.sign(&key).unwrap();
    assert!(!signed.parameters.inputs[0].is_signed);
    assert!(signed.parameters.inputs[0].script_sig.is_empty());
}

#[test]
fn transaction_id_shape() {
    let (key, tx) = p2pkh_setup();
    let signed = tx.sign(&key).unwrap();
    let id = signed.to_transaction_id().unwrap();
    assert_eq!(id.txid.len(), 32);
    assert_eq!(id.wtxid.len(), 32);
    // without witness data the two identifiers agree
    assert_eq!(id.txid, id.wtxid);
}
