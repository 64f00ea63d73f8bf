//! Bitcoin addresses: construction from keys and scripts, and strict
//! parsing of the textual encodings.
use vstd::prelude::*;

use crate::format::BitcoinFormat;
use crate::format::format_of_address_prefix;
use crate::hashing::checksum;
use crate::hashing::hash160;
use crate::hashing::hash160_of;
use crate::hashing::sha256;
use crate::hashing::sha256_of;
use crate::network::Mainnet;
use crate::network::mainnet_accepts_address_prefix;
use crate::private_key::BitcoinPrivateKey;
use crate::public_key::BitcoinPublicKey;
use crate::secp::uncompressed_of;
use crate::text_codec::base58_bytes_of;
use crate::text_codec::base58_decode;
use crate::text_codec::base58_encode;
use crate::text_codec::base58_of;
use crate::text_codec::bech32_addr_of;
use crate::text_codec::bech32_decode;
use crate::text_codec::bech32_encode;
use crate::text_codec::bech32_prog_of;
use crate::text_codec::bech32_valid;
use crate::text_codec::bech32_ver_of;
use crate::text_codec::is_base58_char;
use crate::witness_program::WitnessProgram;
use crate::witness_program::WitnessProgramError;
use crate::witness_program::validate_error;
use crate::witness_program::witness_program_valid;

verus! {

#[derive(Debug, Clone, PartialEq, Eq)]
pub enum AddressError {
    Base58DecodingError(String),
    Bech32DecodingError(String),
    IncompatibleFormats(String, String),
    InvalidAddress(String),
    InvalidByteLength(usize),
    InvalidCharacterLength(usize),
    InvalidChecksum(String, String),
    InvalidPrefix(Vec<u8>),
    InvalidWitnessProgram(WitnessProgramError),
}

/// A Bitcoin address: its textual rendering and the format it encodes.
#[derive(Debug, Clone, PartialEq, Eq)]
pub struct BitcoinAddress {
    pub address: String,
    pub format: BitcoinFormat,
}

/// A Base58Check byte string: the payload followed by the first four bytes
/// of its double-SHA-256.
pub open spec fn base58check(payload: Seq<u8>) -> Seq<u8> {
    payload + sha256_of(sha256_of(payload)).take(4)
}

/// The serialization of a public key that its compression choice selects.
pub open spec fn pubkey_ser_bytes(point: Seq<u8>, compressed: bool) -> Seq<u8> {
    if compressed {
        point
    } else {
        uncompressed_of(point)
    }
}

pub open spec fn pubkey_ser(pk: BitcoinPublicKey) -> Seq<u8> {
    pubkey_ser_bytes(pk.point_spec(), pk.compressed_spec())
}

/// The 21-byte P2PKH payload: the network prefix and the key hash.
pub open spec fn p2pkh_payload_of(point: Seq<u8>, compressed: bool) -> Seq<u8> {
    seq![0x00u8] + hash160_of(pubkey_ser_bytes(point, compressed))
}

pub open spec fn p2pkh_payload(pk: BitcoinPublicKey) -> Seq<u8> {
    p2pkh_payload_of(pk.point_spec(), pk.compressed_spec())
}

/// The P2SH-P2WPKH redeem script: `OP_0 PUSH20 hash160(compressed key)`.
pub open spec fn redeem_script_of_point(point: Seq<u8>) -> Seq<u8> {
    seq![0x00u8, 0x14u8] + hash160_of(point)
}

pub open spec fn redeem_script_of(pk: BitcoinPublicKey) -> Seq<u8> {
    redeem_script_of_point(pk.point_spec())
}

/// The 21-byte P2SH-P2WPKH payload: the network prefix and the script hash.
pub open spec fn p2sh_p2wpkh_payload_of(point: Seq<u8>) -> Seq<u8> {
    seq![0x05u8] + hash160_of(redeem_script_of_point(point))
}

pub open spec fn p2sh_p2wpkh_payload(pk: BitcoinPublicKey) -> Seq<u8> {
    p2sh_p2wpkh_payload_of(pk.point_spec())
}

/// The mainnet Bech32 human-readable prefix, as characters.
pub open spec fn bech32_hrp() -> Seq<char> {
    seq!['b', 'c']
}

/// The rendering of each address kind.
pub open spec fn p2pkh_text(pk: BitcoinPublicKey) -> Seq<char> {
    base58_of(base58check(p2pkh_payload(pk)))
}

pub open spec fn p2sh_p2wpkh_text(pk: BitcoinPublicKey) -> Seq<char> {
    base58_of(base58check(p2sh_p2wpkh_payload(pk)))
}

pub open spec fn bech32_text(pk: BitcoinPublicKey) -> Seq<char> {
    bech32_addr_of(bech32_hrp(), 0, hash160_of(pk.point_spec()))
}

pub open spec fn p2wsh_text(script: Seq<u8>) -> Seq<char> {
    bech32_addr_of(bech32_hrp(), 0, sha256_of(script))
}

/// Whether the lowercase of two leading characters selects the Bech32 path
/// (the `bc` or `tb` prefixes).
pub open spec fn is_bech32_text_prefix(c0: char, c1: char) -> bool {
    ((c0 == 'b' || c0 == 'B') && (c1 == 'c' || c1 == 'C')) || ((c0 == 't' || c0 == 'T') && (c1
        == 'b' || c1 == 'B'))
}

/// Appends `src` to `out`.
pub fn append_bytes(out: &mut Vec<u8>, src: &Vec<u8>)
    ensures
        final(out)@ == old(out)@ + src@,
{
    let n: usize = src.len();
    let mut i: usize = 0;
    while i < n
        invariant
            i <= n,
            n == src@.len(),
            out@ == old(out)@ + src@.take(i as int),
        decreases n - i,
    {
        out.push(src[i]);
        proof {
            assert(out@ =~= old(out)@ + src@.take(i + 1));
        }
        i = i + 1;
    }
    proof {
        assert(src@.take(n as int) =~= src@);
    }
}

/// Appends the four-byte Base58Check checksum of `out`'s current contents.
fn append_checksum(out: &mut Vec<u8>)
    ensures
        final(out)@ == base58check(old(out)@),
        final(out)@.len() == old(out)@.len() + 4,
{
    let sum = checksum(out);
    out.push(sum[0]);
    out.push(sum[1]);
    out.push(sum[2]);
    out.push(sum[3]);
    proof {
        assert(sum@.take(4) =~= seq![sum@[0], sum@[1], sum@[2], sum@[3]]);
        assert(out@ =~= base58check(old(out)@));
    }
}

impl BitcoinAddress {
    /// A well-formed address text: at most 74 characters, with Base58
    /// formats decoding to 25 bytes and Bech32 formats carrying a valid
    /// witness program.
    pub open spec fn wf(self) -> bool {
        self.address@.len() <= 74 && match self.format {
            BitcoinFormat::P2PKH | BitcoinFormat::P2SH_P2WPKH => (forall|i: int|
                0 <= i < self.address@.len() ==> is_base58_char(#[trigger] self.address@[i]))
                && base58_bytes_of(self.address@).len() == 25,
            BitcoinFormat::Bech32 | BitcoinFormat::P2WSH => bech32_valid(self.address@)
                && witness_program_valid(
                bech32_ver_of(self.address@),
                bech32_prog_of(self.address@),
            ),
        }
    }

    /// The P2PKH address of a public key.
    pub fn p2pkh(public_key: &BitcoinPublicKey) -> (r: Result<Self, AddressError>)
        requires
            public_key.wf(),
        ensures
            r matches Ok(a) && a.address@ == p2pkh_text(*public_key) && a.format
                == BitcoinFormat::P2PKH,
            r matches Ok(a) ==> base58_bytes_of(a.address@) == base58check(
                p2pkh_payload(*public_key),
            ) && base58check(p2pkh_payload(*public_key)).len() == 25,
            r matches Ok(a) ==> a.wf(),
    {
        let ser = public_key.serialize_chosen();
        let key_hash = hash160(&ser);
        let mut payload: Vec<u8> = Vec::new();
        payload.push(0x00);
        append_bytes(&mut payload, &key_hash);
        proof {
            assert(payload@ =~= p2pkh_payload(*public_key));
        }
        append_checksum(&mut payload);
        Ok(Self { address: base58_encode(&payload), format: BitcoinFormat::P2PKH })
    }

    /// The P2SH-wrapped segwit address of a public key.
    pub fn p2sh_p2wpkh(public_key: &BitcoinPublicKey) -> (r: Result<Self, AddressError>)
        requires
            public_key.wf(),
        ensures
            r matches Ok(a) && a.address@ == p2sh_p2wpkh_text(*public_key) && a.format
                == BitcoinFormat::P2SH_P2WPKH,
            r matches Ok(a) ==> base58_bytes_of(a.address@) == base58check(
                p2sh_p2wpkh_payload(*public_key),
            ) && base58check(p2sh_p2wpkh_payload(*public_key)).len() == 25,
            r matches Ok(a) ==> a.wf(),
    {
        let redeem = Self::create_redeem_script(public_key);
        let script_hash = hash160(&redeem);
        let mut payload: Vec<u8> = Vec::new();
        payload.push(0x05);
        append_bytes(&mut payload, &script_hash);
        proof {
            assert(payload@ =~= p2sh_p2wpkh_payload(*public_key));
        }
        append_checksum(&mut payload);
        Ok(Self { address: base58_encode(&payload), format: BitcoinFormat::P2SH_P2WPKH })
    }

    /// The native segwit v0 key-hash address of a public key.
    pub fn bech32(public_key: &BitcoinPublicKey) -> (r: Result<Self, AddressError>)
        requires
            public_key.wf(),
        ensures
            r matches Ok(a) && a.address@ == bech32_text(*public_key) && a.format
                == BitcoinFormat::Bech32,
            r matches Ok(a) ==> bech32_valid(a.address@) && bech32_ver_of(a.address@) == 0
                && bech32_prog_of(a.address@) == hash160_of(public_key.point_spec())
                && a.address@.len() == 42,
            r matches Ok(a) ==> a.wf(),
    {
        let redeem = Self::create_redeem_script(public_key);
        let mut program: Vec<u8> = Vec::new();
        let mut i: usize = 2;
        while i < redeem.len()
            invariant
                2 <= i <= redeem@.len(),
                redeem@.len() == 22,
                program@ == redeem@.subrange(2, i as int),
            decreases redeem@.len() - i,
        {
            program.push(redeem[i]);
            proof {
                assert(program@ =~= redeem@.subrange(2, i + 1));
            }
            i = i + 1;
        }
        proof {
            reveal_strlit("bc");
            assert(("bc")@ =~= bech32_hrp());
            assert(program@ =~= hash160_of(public_key.point_spec()));
        }
        let text = bech32_encode("bc", 0, &program);
        Ok(Self { address: text, format: BitcoinFormat::Bech32 })
    }

    /// The P2WSH address of an arbitrary script: Bech32 of its SHA-256.
    pub fn p2wsh(original_script: &Vec<u8>) -> (r: Result<Self, AddressError>)
        ensures
            r matches Ok(a) && a.address@ == p2wsh_text(original_script@) && a.format
                == BitcoinFormat::P2WSH,
            r matches Ok(a) ==> bech32_valid(a.address@) && bech32_ver_of(a.address@) == 0
                && bech32_prog_of(a.address@) == sha256_of(original_script@)
                && a.address@.len() == 62,
            r matches Ok(a) ==> a.wf(),
    {
        let digest = sha256(original_script);
        proof {
            reveal_strlit("bc");
            assert(("bc")@ =~= bech32_hrp());
        }
        let text = bech32_encode("bc", 0, &digest);
        Ok(Self { address: text, format: BitcoinFormat::P2WSH })
    }

    /// Builds the address of a public key in the requested format; P2WSH
    /// addresses cannot come from a bare key.
    pub fn from_public_key(public_key: &BitcoinPublicKey, format: &BitcoinFormat) -> (r: Result<
        Self,
        AddressError,
    >)
        requires
            public_key.wf(),
        ensures
            match *format {
                BitcoinFormat::P2PKH => r matches Ok(a) && a.address@ == p2pkh_text(
                    *public_key,
                ) && a.format == BitcoinFormat::P2PKH,
                BitcoinFormat::P2SH_P2WPKH => r matches Ok(a) && a.address@
                    == p2sh_p2wpkh_text(*public_key) && a.format
                    == BitcoinFormat::P2SH_P2WPKH,
                BitcoinFormat::Bech32 => r matches Ok(a) && a.address@ == bech32_text(
                    *public_key,
                ) && a.format == BitcoinFormat::Bech32,
                BitcoinFormat::P2WSH => r matches Err(AddressError::IncompatibleFormats(_, _)),
            },
    {
        proof {
            reveal_strlit("non-script");
            reveal_strlit("p2wsh address");
        }
        match format {
            BitcoinFormat::P2PKH => Self::p2pkh(public_key),
            BitcoinFormat::P2WSH => Err(
                AddressError::IncompatibleFormats(
                    String::from_str("non-script"),
                    String::from_str("p2wsh address"),
                ),
            ),
            BitcoinFormat::P2SH_P2WPKH => Self::p2sh_p2wpkh(public_key),
            BitcoinFormat::Bech32 => Self::bech32(public_key),
        }
    }

    /// Builds the address of a private key's public key in the requested
    /// format.
    pub fn from_private_key(private_key: &BitcoinPrivateKey, format: &BitcoinFormat) -> (r:
        Result<Self, AddressError>)
        requires
            private_key.wf(),
        ensures
            ({
                let point = crate::secp::pubkey_of(private_key.secret_spec());
                let compressed = private_key.compressed_spec();
                match *format {
                    BitcoinFormat::P2PKH => r matches Ok(a) && a.address@ == base58_of(
                        base58check(p2pkh_payload_of(point, compressed)),
                    ) && a.format == BitcoinFormat::P2PKH,
                    BitcoinFormat::P2SH_P2WPKH => r matches Ok(a) && a.address@ == base58_of(
                        base58check(p2sh_p2wpkh_payload_of(point)),
                    ) && a.format == BitcoinFormat::P2SH_P2WPKH,
                    BitcoinFormat::Bech32 => r matches Ok(a) && a.address@ == bech32_addr_of(
                        bech32_hrp(),
                        0,
                        hash160_of(point),
                    ) && a.format == BitcoinFormat::Bech32,
                    BitcoinFormat::P2WSH => r matches Err(
                        AddressError::IncompatibleFormats(_, _),
                    ),
                }
            }),
    {
        let public_key = private_key.to_public_key();
        Self::from_public_key(&public_key, format)
    }

    /// The format of the address.
    pub fn format(&self) -> (r: BitcoinFormat)
        ensures
            r == self.format,
    {
        self.format.clone()
    }

    /// The textual rendering of the address.
    pub fn to_text(&self) -> (r: String)
        ensures
            r@ == self.address@,
    {
        self.address.clone()
    }

    /// The P2SH-P2WPKH redeem script of a public key.
    pub fn create_redeem_script(public_key: &BitcoinPublicKey) -> (r: Vec<u8>)
        requires
            public_key.wf(),
        ensures
            r@ == redeem_script_of(*public_key),
            r@.len() == 22,
    {
        let point = public_key.serialize_compressed();
        let key_hash = hash160(&point);
        let mut redeem: Vec<u8> = Vec::new();
        redeem.push(0x00);
        redeem.push(0x14);
        append_bytes(&mut redeem, &key_hash);
        proof {
            assert(redeem@ =~= redeem_script_of(*public_key));
        }
        redeem
    }

    /// Parses an address string: a character-length gate, then the Bech32
    /// path for `bc`/`tb` prefixes and the Base58 path otherwise, each with
    /// its own structural and network checks.
    pub fn from_str(address: &str) -> (r: Result<Self, AddressError>)
        ensures
            ({
                let s = address@;
                let n = s.len() as int;
                if n < 14 || n > 74 {
                    r == Err::<BitcoinAddress, AddressError>(
                        AddressError::InvalidCharacterLength(n as usize),
                    )
                } else if is_bech32_text_prefix(s[0], s[1]) {
                    if !bech32_valid(s) {
                        r matches Err(AddressError::Bech32DecodingError(_))
                    } else if !witness_program_valid(bech32_ver_of(s), bech32_prog_of(s)) {
                        r matches Err(AddressError::InvalidWitnessProgram(e)) && e
                            == validate_error(bech32_ver_of(s), bech32_prog_of(s))
                    } else if !(s[0] == 'b' || s[0] == 'B') {
                        r matches Err(AddressError::InvalidPrefix(_))
                    } else {
                        r matches Ok(a) && a.address@ == s && a.format == (if bech32_ver_of(
                            s,
                        ) == 0 && bech32_prog_of(s).len() == 32 {
                            BitcoinFormat::P2WSH
                        } else {
                            BitcoinFormat::Bech32
                        })
                    }
                } else {
                    if !(forall|i: int| 0 <= i < s.len() ==> is_base58_char(s[i])) {
                        r matches Err(AddressError::Base58DecodingError(_))
                    } else {
                        let d = base58_bytes_of(s);
                        if d.len() != 25 {
                            r == Err::<BitcoinAddress, AddressError>(
                                AddressError::InvalidByteLength(d.len() as usize),
                            )
                        } else if d.skip(21) != sha256_of(sha256_of(d.take(21))).take(4) {
                            r matches Err(AddressError::InvalidChecksum(e, f)) && e@
                                == base58_of(d.skip(21)) && f@ == base58_of(
                                sha256_of(sha256_of(d.take(21))).take(4),
                            )
                        } else if !mainnet_accepts_address_prefix(d[0], d[1]) {
                            r matches Err(AddressError::InvalidPrefix(p)) && p@ == d.take(2)
                        } else {
                            match format_of_address_prefix(d[0], d[1]) {
                                Some(f) => r matches Ok(a) && a.address@ == s && a.format
                                    == f,
                                None => r matches Err(AddressError::InvalidPrefix(p)) && p@
                                    == d.take(2),
                            }
                        }
                    }
                }
            }),
            r matches Ok(a) ==> ((a.format != BitcoinFormat::Bech32 || is_bech32_text_prefix(
                address@[0],
                address@[1],
            )) ==> a.wf()),
    {
        let n: usize = address.unicode_len();
        if n < 14 || n > 74 {
            return Err(AddressError::InvalidCharacterLength(n));
        }
        let c0: char = address.get_char(0);
        let c1: char = address.get_char(1);
        let bech32_prefix: bool = ((c0 == 'b' || c0 == 'B') && (c1 == 'c' || c1 == 'C')) || ((c0
            == 't' || c0 == 'T') && (c1 == 'b' || c1 == 'B'));
        if bech32_prefix {
            proof {
                reveal_strlit("bech32");
                reveal_strlit("invalid bech32 string");
            }
            let decoded = match bech32_decode(address) {
                Some(t) => t,
                None => {
                    return Err(
                        AddressError::Bech32DecodingError(
                            String::from_str("invalid bech32 string"),
                        ),
                    );
                },
            };
            let (_hrp, version, program) = decoded;
            let witness = WitnessProgram { version, program };
            match witness.validate() {
                Ok(()) => {},
                Err(e) => {
                    return Err(AddressError::InvalidWitnessProgram(e));
                },
            }
            if !(c0 == 'b' || c0 == 'B') {
                let mut p: Vec<u8> = Vec::new();
                p.push(0x74);
                p.push(0x62);
                return Err(AddressError::InvalidPrefix(p));
            }
            // a version-0, 32-byte program is a script hash; every other
            // witness program is a plain native-segwit output
            let parsed_format: BitcoinFormat = if witness.version == 0 && witness.program.len()
                == 32 {
                BitcoinFormat::P2WSH
            } else {
                BitcoinFormat::Bech32
            };
            return Ok(Self { address: String::from_str(address), format: parsed_format });
        }
        proof {
            reveal_strlit("base58");
            reveal_strlit("invalid base58 string");
        }
        let data = match base58_decode(address) {
            Some(d) => d,
            None => {
                return Err(
                    AddressError::Base58DecodingError(String::from_str("invalid base58 string")),
                );
            },
        };
        if data.len() != 25 {
            return Err(AddressError::InvalidByteLength(data.len()));
        }
        let body = crate::transaction::copy_range(&data, 0, 21);
        let sum = checksum(&body);
        let matches_checksum: bool = data[21] == sum[0] && data[22] == sum[1] && data[23]
            == sum[2] && data[24] == sum[3];
        proof {
            assert(body@ =~= data@.take(21));
            assert(data@.skip(21) =~= seq![data@[21], data@[22], data@[23], data@[24]]);
            assert(sum@.take(4) =~= seq![sum@[0], sum@[1], sum@[2], sum@[3]]);
            if matches_checksum {
                assert(data@.skip(21) =~= sum@.take(4));
            } else {
                assert(data@.skip(21) != sum@.take(4));
            }
        }
        if !matches_checksum {
            let expected = crate::transaction::copy_range(&data, 21, 25);
            let found = crate::transaction::copy_range(&sum, 0, 4);
            proof {
                assert(expected@ =~= data@.skip(21));
                assert(found@ =~= sum@.take(4));
            }
            return Err(
                AddressError::InvalidChecksum(base58_encode(&expected), base58_encode(&found)),
            );
        }
        let mut prefix: Vec<u8> = Vec::new();
        prefix.push(data[0]);
        prefix.push(data[1]);
        proof {
            assert(prefix@ =~= data@.take(2));
        }
        match Mainnet::from_address_prefix(&prefix) {
            Ok(_) => {},
            Err(e) => {
                return Err(e);
            },
        }
        let format = match BitcoinFormat::from_address_prefix(&prefix) {
            Ok(f) => f,
            Err(e) => {
                return Err(e);
            },
        };
        Ok(Self { address: String::from_str(address), format })
    }
}

} // verus!
