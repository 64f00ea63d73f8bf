//! The supported address/output-script formats and their version bytes.
use vstd::prelude::*;

use crate::address::AddressError;
use crate::extended_private_key::ExtendedPrivateKeyError;
use crate::extended_public_key::ExtendedPublicKeyError;
use crate::network;

verus! {

#[derive(Debug, Clone, Copy, PartialEq, Eq, Hash, Structural)]
#[allow(non_camel_case_types)]
pub enum BitcoinFormat {
    P2PKH,
    P2WSH,
    P2SH_P2WPKH,
    Bech32,
}

#[derive(Debug, Clone, PartialEq, Eq)]
pub enum FormatError {
    InvalidPrefix(Vec<u8>),
    UnsupportedDerivationPath(String),
}

/// The lowercase name of the format.
pub open spec fn format_name(f: BitcoinFormat) -> Seq<char> {
    match f {
        BitcoinFormat::P2PKH => seq!['p', '2', 'p', 'k', 'h'],
        BitcoinFormat::P2WSH => seq!['p', '2', 'w', 's', 'h'],
        BitcoinFormat::P2SH_P2WPKH => seq![
            'p',
            '2',
            's',
            'h',
            '_',
            'p',
            '2',
            'w',
            'p',
            'k',
            'h',
        ],
        BitcoinFormat::Bech32 => seq!['b', 'e', 'c', 'h', '3', '2'],
    }
}

/// The format a two-byte address prefix selects, if any.
pub open spec fn format_of_address_prefix(p0: u8, p1: u8) -> Option<BitcoinFormat> {
    if p0 == 0x00 || p0 == 0x6F {
        Some(BitcoinFormat::P2PKH)
    } else if p0 == 0x05 || p0 == 0xC4 {
        Some(BitcoinFormat::P2SH_P2WPKH)
    } else if (p0 == 0x62 && p1 == 0x63) || (p0 == 0x74 && p1 == 0x62) {
        Some(BitcoinFormat::Bech32)
    } else {
        None
    }
}

/// The format selected by extended private key version bytes, if any.
pub open spec fn format_of_xprv_version(p: Seq<u8>) -> Option<BitcoinFormat> {
    if p == seq![0x04u8, 0x88u8, 0xADu8, 0xE4u8] || p == seq![0x04u8, 0x35u8, 0x83u8, 0x94u8] {
        Some(BitcoinFormat::P2PKH)
    } else if p == seq![0x04u8, 0x9Du8, 0x78u8, 0x78u8] || p == seq![
        0x04u8,
        0x4Au8,
        0x4Eu8,
        0x28u8,
    ] {
        Some(BitcoinFormat::P2SH_P2WPKH)
    } else {
        None
    }
}

/// The format selected by extended public key version bytes, if any.
pub open spec fn format_of_xpub_version(p: Seq<u8>) -> Option<BitcoinFormat> {
    if p == seq![0x04u8, 0x88u8, 0xB2u8, 0x1Eu8] || p == seq![0x04u8, 0x35u8, 0x87u8, 0xCFu8] {
        Some(BitcoinFormat::P2PKH)
    } else if p == seq![0x04u8, 0x9Du8, 0x7Cu8, 0xB2u8] || p == seq![
        0x04u8,
        0x4Au8,
        0x52u8,
        0x62u8,
    ] {
        Some(BitcoinFormat::P2SH_P2WPKH)
    } else {
        None
    }
}

impl BitcoinFormat {
    /// The lowercase name of the format, as its textual rendering.
    pub fn name(&self) -> (r: String)
        ensures
            r@ == format_name(*self),
    {
        proof {
            reveal_strlit("p2pkh");
            reveal_strlit("p2wsh");
            reveal_strlit("p2sh_p2wpkh");
            reveal_strlit("bech32");
        }
        match self {
            BitcoinFormat::P2PKH => String::from_str("p2pkh"),
            BitcoinFormat::P2WSH => String::from_str("p2wsh"),
            BitcoinFormat::P2SH_P2WPKH => String::from_str("p2sh_p2wpkh"),
            BitcoinFormat::Bech32 => String::from_str("bech32"),
        }
    }

    /// The mainnet address prefix bytes for this format.
    pub fn to_address_prefix(&self) -> (r: Vec<u8>)
        ensures
            r@ == network::mainnet_address_prefix(*self),
    {
        network::Mainnet::to_address_prefix(self)
    }

    /// The format a two-byte address prefix selects, across all networks.
    pub fn from_address_prefix(prefix: &Vec<u8>) -> (r: Result<Self, AddressError>)
        ensures
            prefix@.len() < 2 ==> (r matches Err(AddressError::InvalidPrefix(p)) && p@
                == prefix@),
            prefix@.len() >= 2 ==> (match format_of_address_prefix(prefix@[0], prefix@[1]) {
                Some(f) => r == Ok::<BitcoinFormat, AddressError>(f),
                None => r matches Err(AddressError::InvalidPrefix(p)) && p@ == prefix@,
            }),
    {
        if prefix.len() < 2 {
            return Err(AddressError::InvalidPrefix(clone_bytes(prefix)));
        }
        let p0 = prefix[0];
        let p1 = prefix[1];
        if p0 == 0x00 || p0 == 0x6F {
            Ok(BitcoinFormat::P2PKH)
        } else if p0 == 0x05 || p0 == 0xC4 {
            Ok(BitcoinFormat::P2SH_P2WPKH)
        } else if (p0 == 0x62 && p1 == 0x63) || (p0 == 0x74 && p1 == 0x62) {
            Ok(BitcoinFormat::Bech32)
        } else {
            Err(AddressError::InvalidPrefix(clone_bytes(prefix)))
        }
    }

    /// The format selected by the four leading extended private key version
    /// bytes.
    pub fn from_extended_private_key_version_bytes(prefix: &Vec<u8>) -> (r: Result<
        Self,
        ExtendedPrivateKeyError,
    >)
        requires
            prefix@.len() >= 4,
        ensures
            match format_of_xprv_version(prefix@.take(4)) {
                Some(f) => r == Ok::<BitcoinFormat, ExtendedPrivateKeyError>(f),
                None => r matches Err(ExtendedPrivateKeyError::InvalidVersionBytes(p)) && p@
                    == prefix@,
            },
    {
        let ghost v = prefix@.take(4);
        proof {
            assert(v[0] == prefix@[0] && v[1] == prefix@[1] && v[2] == prefix@[2] && v[3]
                == prefix@[3]);
        }
        if prefix[0] == 0x04 && prefix[1] == 0x88 && prefix[2] == 0xAD && prefix[3] == 0xE4 {
            proof {
                assert(v =~= seq![0x04u8, 0x88u8, 0xADu8, 0xE4u8]);
            }
            Ok(BitcoinFormat::P2PKH)
        } else if prefix[0] == 0x04 && prefix[1] == 0x35 && prefix[2] == 0x83 && prefix[3]
            == 0x94 {
            proof {
                assert(v =~= seq![0x04u8, 0x35u8, 0x83u8, 0x94u8]);
            }
            Ok(BitcoinFormat::P2PKH)
        } else if prefix[0] == 0x04 && prefix[1] == 0x9D && prefix[2] == 0x78 && prefix[3]
            == 0x78 {
            proof {
                assert(v =~= seq![0x04u8, 0x9Du8, 0x78u8, 0x78u8]);
            }
            Ok(BitcoinFormat::P2SH_P2WPKH)
        } else if prefix[0] == 0x04 && prefix[1] == 0x4A && prefix[2] == 0x4E && prefix[3]
            == 0x28 {
            proof {
                assert(v =~= seq![0x04u8, 0x4Au8, 0x4Eu8, 0x28u8]);
            }
            Ok(BitcoinFormat::P2SH_P2WPKH)
        } else {
            proof {
                lemma_version_mismatch(v, prefix@);
            }
            Err(ExtendedPrivateKeyError::InvalidVersionBytes(clone_bytes(prefix)))
        }
    }

    /// The format selected by the four leading extended public key version
    /// bytes.
    pub fn from_extended_public_key_version_bytes(prefix: &Vec<u8>) -> (r: Result<
        Self,
        ExtendedPublicKeyError,
    >)
        requires
            prefix@.len() >= 4,
        ensures
            match format_of_xpub_version(prefix@.take(4)) {
                Some(f) => r == Ok::<BitcoinFormat, ExtendedPublicKeyError>(f),
                None => r matches Err(ExtendedPublicKeyError::InvalidVersionBytes(p)) && p@
                    == prefix@,
            },
    {
        let ghost v = prefix@.take(4);
        proof {
            assert(v[0] == prefix@[0] && v[1] == prefix@[1] && v[2] == prefix@[2] && v[3]
                == prefix@[3]);
        }
        if prefix[0] == 0x04 && prefix[1] == 0x88 && prefix[2] == 0xB2 && prefix[3] == 0x1E {
            proof {
                assert(v =~= seq![0x04u8, 0x88u8, 0xB2u8, 0x1Eu8]);
            }
            Ok(BitcoinFormat::P2PKH)
        } else if prefix[0] == 0x04 && prefix[1] == 0x35 && prefix[2] == 0x87 && prefix[3]
            == 0xCF {
            proof {
                assert(v =~= seq![0x04u8, 0x35u8, 0x87u8, 0xCFu8]);
            }
            Ok(BitcoinFormat::P2PKH)
        } else if prefix[0] == 0x04 && prefix[1] == 0x9D && prefix[2] == 0x7C && prefix[3]
            == 0xB2 {
            proof {
                assert(v =~= seq![0x04u8, 0x9Du8, 0x7Cu8, 0xB2u8]);
            }
            Ok(BitcoinFormat::P2SH_P2WPKH)
        } else if prefix[0] == 0x04 && prefix[1] == 0x4A && prefix[2] == 0x52 && prefix[3]
            == 0x62 {
            proof {
                assert(v =~= seq![0x04u8, 0x4Au8, 0x52u8, 0x62u8]);
            }
            Ok(BitcoinFormat::P2SH_P2WPKH)
        } else {
            proof {
                lemma_version_mismatch(v, prefix@);
            }
            Err(ExtendedPublicKeyError::InvalidVersionBytes(clone_bytes(prefix)))
        }
    }
}

/// Four bytes that differ somewhere from each known version string match none
/// of them.
proof fn lemma_version_mismatch(v: Seq<u8>, full: Seq<u8>)
    requires
        v.len() == 4,
    ensures
        !(v == seq![0x04u8, 0x88u8, 0xADu8, 0xE4u8]) || v[0] == 0x04 && v[1] == 0x88 && v[2]
            == 0xAD && v[3] == 0xE4,
        !(v == seq![0x04u8, 0x35u8, 0x83u8, 0x94u8]) || v[0] == 0x04 && v[1] == 0x35 && v[2]
            == 0x83 && v[3] == 0x94,
        !(v == seq![0x04u8, 0x9Du8, 0x78u8, 0x78u8]) || v[0] == 0x04 && v[1] == 0x9D && v[2]
            == 0x78 && v[3] == 0x78,
        !(v == seq![0x04u8, 0x4Au8, 0x4Eu8, 0x28u8]) || v[0] == 0x04 && v[1] == 0x4A && v[2]
            == 0x4E && v[3] == 0x28,
        !(v == seq![0x04u8, 0x88u8, 0xB2u8, 0x1Eu8]) || v[0] == 0x04 && v[1] == 0x88 && v[2]
            == 0xB2 && v[3] == 0x1E,
        !(v == seq![0x04u8, 0x35u8, 0x87u8, 0xCFu8]) || v[0] == 0x04 && v[1] == 0x35 && v[2]
            == 0x87 && v[3] == 0xCF,
        !(v == seq![0x04u8, 0x9Du8, 0x7Cu8, 0xB2u8]) || v[0] == 0x04 && v[1] == 0x9D && v[2]
            == 0x7C && v[3] == 0xB2,
        !(v == seq![0x04u8, 0x4Au8, 0x52u8, 0x62u8]) || v[0] == 0x04 && v[1] == 0x4A && v[2]
            == 0x52 && v[3] == 0x62,
{
}

/// Copies a byte vector.
pub fn clone_bytes(b: &Vec<u8>) -> (r: Vec<u8>)
    ensures
        r@ == b@,
{
    let mut out: Vec<u8> = Vec::new();
    let n: usize = b.len();
    let mut i: usize = 0;
    while i < n
        invariant
            i <= n,
            n == b@.len(),
            out@ == b@.take(i as int),
        decreases n - i,
    {
        out.push(b[i]);
        proof {
            assert(out@ =~= b@.take(i + 1));
        }
        i = i + 1;
    }
    proof {
        assert(b@.take(n as int) =~= b@);
    }
    out
}

} // verus!
