//! The mainnet constant tables: address prefixes, WIF prefix, and extended
//! key version bytes.
use vstd::prelude::*;

use crate::address::AddressError;
use crate::extended_private_key::ExtendedPrivateKeyError;
use crate::extended_public_key::ExtendedPublicKeyError;
use crate::format::BitcoinFormat;
use crate::format::clone_bytes;
use crate::format::format_name;
use crate::private_key::PrivateKeyError;

verus! {

#[derive(Debug, Clone, PartialEq, Eq)]
pub enum NetworkError {
    InvalidExtendedPrivateKeyPrefix(String),
    InvalidExtendedPublicKeyPrefix(String),
    InvalidNetwork(String),
}

/// The mainnet network profile.
#[derive(Debug, Clone, Copy, PartialEq, Eq, Hash, Structural)]
pub struct Mainnet;

/// The mainnet address prefix bytes per format.
pub open spec fn mainnet_address_prefix(f: BitcoinFormat) -> Seq<u8> {
    match f {
        BitcoinFormat::P2PKH => seq![0x00u8],
        BitcoinFormat::P2WSH => seq![0x00u8],
        BitcoinFormat::P2SH_P2WPKH => seq![0x05u8],
        BitcoinFormat::Bech32 => seq![0x62u8, 0x63u8],
    }
}

/// Whether a two-byte prefix belongs to a mainnet address.
pub open spec fn mainnet_accepts_address_prefix(p0: u8, p1: u8) -> bool {
    p0 == 0x00 || p0 == 0x05 || (p0 == 0x62 && p1 == 0x63)
}

/// The mainnet extended private key version bytes per format, if supported.
pub open spec fn mainnet_xprv_version(f: BitcoinFormat) -> Option<Seq<u8>> {
    match f {
        BitcoinFormat::P2PKH => Some(seq![0x04u8, 0x88u8, 0xADu8, 0xE4u8]),
        BitcoinFormat::P2SH_P2WPKH => Some(seq![0x04u8, 0x9Du8, 0x78u8, 0x78u8]),
        _ => None,
    }
}

/// The mainnet extended public key version bytes per format, if supported.
pub open spec fn mainnet_xpub_version(f: BitcoinFormat) -> Option<Seq<u8>> {
    match f {
        BitcoinFormat::P2PKH => Some(seq![0x04u8, 0x88u8, 0xB2u8, 0x1Eu8]),
        BitcoinFormat::P2SH_P2WPKH => Some(seq![0x04u8, 0x9Du8, 0x7Cu8, 0xB2u8]),
        _ => None,
    }
}

impl Mainnet {
    /// The address prefix bytes for `format` on mainnet.
    pub fn to_address_prefix(format: &BitcoinFormat) -> (r: Vec<u8>)
        ensures
            r@ == mainnet_address_prefix(*format),
    {
        let mut out: Vec<u8> = Vec::new();
        match format {
            BitcoinFormat::P2PKH => {
                out.push(0x00);
            },
            BitcoinFormat::P2WSH => {
                out.push(0x00);
            },
            BitcoinFormat::P2SH_P2WPKH => {
                out.push(0x05);
            },
            BitcoinFormat::Bech32 => {
                out.push(0x62);
                out.push(0x63);
            },
        }
        proof {
            assert(out@ =~= mainnet_address_prefix(*format));
        }
        out
    }

    /// Accepts exactly the mainnet address prefixes.
    pub fn from_address_prefix(prefix: &Vec<u8>) -> (r: Result<Self, AddressError>)
        requires
            prefix@.len() >= 2,
        ensures
            mainnet_accepts_address_prefix(prefix@[0], prefix@[1]) ==> r == Ok::<
                Mainnet,
                AddressError,
            >(Mainnet),
            !mainnet_accepts_address_prefix(prefix@[0], prefix@[1]) ==> (r matches Err(
                AddressError::InvalidPrefix(p),
            ) && p@ == prefix@),
    {
        let p0 = prefix[0];
        let p1 = prefix[1];
        if p0 == 0x00 || p0 == 0x05 || (p0 == 0x62 && p1 == 0x63) {
            Ok(Mainnet)
        } else {
            Err(AddressError::InvalidPrefix(clone_bytes(prefix)))
        }
    }

    /// The WIF prefix byte on mainnet.
    pub fn to_private_key_prefix() -> (r: u8)
        ensures
            r == 0x80,
    {
        0x80
    }

    /// Accepts exactly the mainnet WIF prefix byte.
    pub fn from_private_key_prefix(prefix: u8) -> (r: Result<Self, PrivateKeyError>)
        ensures
            prefix == 0x80 ==> r == Ok::<Mainnet, PrivateKeyError>(Mainnet),
            prefix != 0x80 ==> (r matches Err(PrivateKeyError::InvalidPrefix(p)) && p@
                == seq![prefix]),
    {
        if prefix == 0x80 {
            Ok(Mainnet)
        } else {
            let mut v: Vec<u8> = Vec::new();
            v.push(prefix);
            proof {
                assert(v@ =~= seq![prefix]);
            }
            Err(PrivateKeyError::InvalidPrefix(v))
        }
    }

    /// The extended private key version bytes for `format` on mainnet.
    pub fn to_extended_private_key_version_bytes(format: &BitcoinFormat) -> (r: Result<
        Vec<u8>,
        ExtendedPrivateKeyError,
    >)
        ensures
            match mainnet_xprv_version(*format) {
                Some(v) => r matches Ok(b) && b@ == v,
                None => r matches Err(ExtendedPrivateKeyError::UnsupportedFormat(m)) && m@
                    == format_name(*format),
            },
    {
        match format {
            BitcoinFormat::P2PKH => {
                let mut v: Vec<u8> = Vec::new();
                v.push(0x04);
                v.push(0x88);
                v.push(0xAD);
                v.push(0xE4);
                proof {
                    assert(v@ =~= seq![0x04u8, 0x88u8, 0xADu8, 0xE4u8]);
                }
                Ok(v)
            },
            BitcoinFormat::P2SH_P2WPKH => {
                let mut v: Vec<u8> = Vec::new();
                v.push(0x04);
                v.push(0x9D);
                v.push(0x78);
                v.push(0x78);
                proof {
                    assert(v@ =~= seq![0x04u8, 0x9Du8, 0x78u8, 0x78u8]);
                }
                Ok(v)
            },
            _ => Err(ExtendedPrivateKeyError::UnsupportedFormat(format.name())),
        }
    }

    /// Accepts exactly the mainnet extended private key version bytes.
    pub fn from_extended_private_key_version_bytes(prefix: &Vec<u8>) -> (r: Result<
        Self,
        ExtendedPrivateKeyError,
    >)
        requires
            prefix@.len() >= 4,
        ensures
            ({
                let v = prefix@.take(4);
                if v == seq![0x04u8, 0x88u8, 0xADu8, 0xE4u8] || v == seq![
                    0x04u8,
                    0x9Du8,
                    0x78u8,
                    0x78u8,
                ] {
                    r == Ok::<Mainnet, ExtendedPrivateKeyError>(Mainnet)
                } else {
                    r matches Err(ExtendedPrivateKeyError::InvalidVersionBytes(p)) && p@
                        == prefix@
                }
            }),
    {
        let ghost v = prefix@.take(4);
        proof {
            assert(v[0] == prefix@[0] && v[1] == prefix@[1] && v[2] == prefix@[2] && v[3]
                == prefix@[3]);
        }
        if prefix[0] == 0x04 && prefix[1] == 0x88 && prefix[2] == 0xAD && prefix[3] == 0xE4 {
            proof {
                assert(v =~= seq![0x04u8, 0x88u8, 0xADu8, 0xE4u8]);
            }
            Ok(Mainnet)
        } else if prefix[0] == 0x04 && prefix[1] == 0x9D && prefix[2] == 0x78 && prefix[3]
            == 0x78 {
            proof {
                assert(v =~= seq![0x04u8, 0x9Du8, 0x78u8, 0x78u8]);
            }
            Ok(Mainnet)
        } else {
            Err(ExtendedPrivateKeyError::InvalidVersionBytes(clone_bytes(prefix)))
        }
    }

    /// The extended public key version bytes for `format` on mainnet.
    pub fn to_extended_public_key_version_bytes(format: &BitcoinFormat) -> (r: Result<
        Vec<u8>,
        ExtendedPublicKeyError,
    >)
        ensures
            match mainnet_xpub_version(*format) {
                Some(v) => r matches Ok(b) && b@ == v,
                None => r matches Err(ExtendedPublicKeyError::UnsupportedFormat(m)) && m@
                    == format_name(*format),
            },
    {
        match format {
            BitcoinFormat::P2PKH => {
                let mut v: Vec<u8> = Vec::new();
                v.push(0x04);
                v.push(0x88);
                v.push(0xB2);
                v.push(0x1E);
                proof {
                    assert(v@ =~= seq![0x04u8, 0x88u8, 0xB2u8, 0x1Eu8]);
                }
                Ok(v)
            },
            BitcoinFormat::P2SH_P2WPKH => {
                let mut v: Vec<u8> = Vec::new();
                v.push(0x04);
                v.push(0x9D);
                v.push(0x7C);
                v.push(0xB2);
                proof {
                    assert(v@ =~= seq![0x04u8, 0x9Du8, 0x7Cu8, 0xB2u8]);
                }
                Ok(v)
            },
            _ => Err(ExtendedPublicKeyError::UnsupportedFormat(format.name())),
        }
    }

    /// Accepts exactly the mainnet extended public key version bytes.
    pub fn from_extended_public_key_version_bytes(prefix: &Vec<u8>) -> (r: Result<
        Self,
        ExtendedPublicKeyError,
    >)
        requires
            prefix@.len() >= 4,
        ensures
            ({
                let v = prefix@.take(4);
                if v == seq![0x04u8, 0x88u8, 0xB2u8, 0x1Eu8] || v == seq![
                    0x04u8,
                    0x9Du8,
                    0x7Cu8,
                    0xB2u8,
                ] {
                    r == Ok::<Mainnet, ExtendedPublicKeyError>(Mainnet)
                } else {
                    r matches Err(ExtendedPublicKeyError::InvalidVersionBytes(p)) && p@
                        == prefix@
                }
            }),
    {
        let ghost v = prefix@.take(4);
        proof {
            assert(v[0] == prefix@[0] && v[1] == prefix@[1] && v[2] == prefix@[2] && v[3]
                == prefix@[3]);
        }
        if prefix[0] == 0x04 && prefix[1] == 0x88 && prefix[2] == 0xB2 && prefix[3] == 0x1E {
            proof {
                assert(v =~= seq![0x04u8, 0x88u8, 0xB2u8, 0x1Eu8]);
            }
            Ok(Mainnet)
        } else if prefix[0] == 0x04 && prefix[1] == 0x9D && prefix[2] == 0x7C && prefix[3]
            == 0xB2 {
            proof {
                assert(v =~= seq![0x04u8, 0x9Du8, 0x7Cu8, 0xB2u8]);
            }
            Ok(Mainnet)
        } else {
            Err(ExtendedPublicKeyError::InvalidVersionBytes(clone_bytes(prefix)))
        }
    }

    /// The network's name.
    pub fn name() -> (r: String)
        ensures
            r@ == seq!['m', 'a', 'i', 'n', 'n', 'e', 't'],
    {
        proof {
            reveal_strlit("mainnet");
        }
        String::from_str("mainnet")
    }
}

} // verus!
