//! Child index and derivation path tests.
use gyu_bitcoin::derivation_path::{
    BitcoinDerivationPath, ChildIndex, DerivationPathError,
};

#[test]
fn child_index_constructors() {
    assert_eq!(ChildIndex::normal(5).unwrap(), ChildIndex::Normal(5));
    assert_eq!(ChildIndex::hardened(5).unwrap(), ChildIndex::Hardened(5));
    assert_eq!(
        ChildIndex::normal(0x8000_0000),
        Err(DerivationPathError::InvalidChildNumber(0x8000_0000))
    );
    assert_eq!(
        ChildIndex::hardened(0x8000_0000),
        Err(DerivationPathError::InvalidChildNumber(0x8000_0000))
    );
}

#[test]
fn child_index_predicates_and_values() {
    let n = ChildIndex::Normal(7);
    let h = ChildIndex::Hardened(7);
    assert!(n.is_normal());
    assert!(!n.is_hardened());
    assert!(h.is_hardened());
    assert!(!h.is_normal());
    assert_eq!(n.to_index(), 7);
    assert_eq!(h.to_index(), 0x8000_0007);
    assert_eq!(ChildIndex::from_index(7), n);
    assert_eq!(ChildIndex::from_index(0x8000_0007), h);
}

#[test]
fn child_index_parsing() {
    assert_eq!(ChildIndex::from_str("44'").unwrap(), ChildIndex::Hardened(44));
    assert_eq!(ChildIndex::from_str("9h").unwrap(), ChildIndex::Hardened(9));
    assert_eq!(ChildIndex::from_str("12").unwrap(), ChildIndex::Normal(12));
    assert_eq!(
        ChildIndex::from_str("x"),
        Err(DerivationPathError::InvalidChildNumberFormat)
    );
    assert_eq!(
        ChildIndex::from_str("2147483648"),
        Err(DerivationPathError::InvalidChildNumber(2147483648))
    );
}

#[test]
fn path_parsing_classifies_bip44() {
    let p = BitcoinDerivationPath::from_str("m/44'/0'/0'/0/0").unwrap();
    assert_eq!(
        p,
        BitcoinDerivationPath::BIP44(
            ChildIndex::Hardened(0),
            ChildIndex::Normal(0),
            ChildIndex::Normal(0)
        )
    );
    let v = p.to_vec().unwrap();
    assert_eq!(
        v,
        vec![
            ChildIndex::Hardened(44),
            ChildIndex::Hardened(0),
            ChildIndex::Hardened(0),
            ChildIndex::Normal(0),
            ChildIndex::Normal(0),
        ]
    );
}

#[test]
fn path_parsing_classifies_bip49_and_bip32() {
    let p = BitcoinDerivationPath::from_str("m/49'/0'/1'/0/3").unwrap();
    assert_eq!(
        p,
        BitcoinDerivationPath::BIP49(
            ChildIndex::Hardened(1),
            ChildIndex::Normal(0),
            ChildIndex::Normal(3)
        )
    );
    let p = BitcoinDerivationPath::from_str("m/0/1").unwrap();
    assert_eq!(
        p,
        BitcoinDerivationPath::BIP32(vec![ChildIndex::Normal(0), ChildIndex::Normal(1)])
    );
    let p = BitcoinDerivationPath::from_str("m").unwrap();
    assert_eq!(p, BitcoinDerivationPath::BIP32(vec![]));
}

#[test]
fn path_parsing_rejects_bad_strings() {
    assert!(matches!(
        BitcoinDerivationPath::from_str("44'/0'"),
        Err(DerivationPathError::InvalidDerivationPath(_))
    ));
    assert_eq!(
        BitcoinDerivationPath::from_str("m/zz"),
        Err(DerivationPathError::InvalidChildNumberFormat)
    );
}
