//! Extended private keys: BIP32 master-key creation, hardened and normal
//! child derivation, and the Base58Check text form.
use vstd::prelude::*;

use crate::address::BitcoinAddress;
use crate::address::AddressError;
use crate::derivation_path::BitcoinDerivationPath;
use crate::derivation_path::ChildIndex;
use crate::derivation_path::DerivationPathError;
use crate::derivation_path::path_to_vec_spec;
use crate::encoding::be_bytes;
use crate::encoding::be_val;
use crate::encoding::append_be_bytes;
use crate::encoding::read_be_bytes;
use crate::format::BitcoinFormat;
use crate::format::clone_bytes;
use crate::format::format_of_xprv_version;
use crate::hashing::checksum;
use crate::hashing::hash160;
use crate::hashing::hash160_of;
use crate::hashing::hmac_sha512;
use crate::hashing::hmac_sha512_of;
use crate::hashing::sha256_of;
use crate::network::Mainnet;
use crate::network::mainnet_xprv_version;
use crate::private_key::BitcoinPrivateKey;
use crate::public_key::BitcoinPublicKey;
use crate::secp::pubkey_from_secret;
use crate::secp::pubkey_of;
use crate::secp::scalar_add_of;
use crate::secp::scalar_add_ok;
use crate::secp::scalar_ok;
use crate::secp::secret_key_valid;
use crate::secp::secret_tweak_add;
use crate::text_codec::base58_bytes_of;
use crate::text_codec::base58_decode;
use crate::text_codec::base58_encode;
use crate::text_codec::base58_of;
use crate::text_codec::is_base58_char;

verus! {

#[derive(Debug, Clone, PartialEq, Eq)]
pub enum ExtendedPrivateKeyError {
    Crate(String, String),
    DerivationPathError(DerivationPathError),
    InvalidByteLength(usize),
    InvalidChecksum(String, String),
    InvalidChildNumber(u32, u32),
    InvalidVersionBytes(Vec<u8>),
    MaximumChildDepthReached(u8),
    Message(String),
    UnsupportedFormat(String),
}

/// An extended private key: the key material, the chain code, and the
/// position bookkeeping of its place in the derivation tree.
#[derive(Debug, Clone, PartialEq, Eq)]
pub struct BitcoinExtendedPrivateKey {
    pub format: BitcoinFormat,
    pub depth: u8,
    pub parent_fingerprint: Vec<u8>,
    pub child_index: ChildIndex,
    pub chain_code: Vec<u8>,
    pub private_key: BitcoinPrivateKey,
}

/// The HMAC message of one derivation step: the serialized parent key
/// (private for hardened, public for normal), then the index in big endian.
pub open spec fn xprv_hmac_input(sk: Seq<u8>, c: ChildIndex) -> Seq<u8> {
    (match c {
        ChildIndex::Hardened(_) => seq![0x00u8] + sk,
        ChildIndex::Normal(_) => pubkey_of(sk),
    }) + be_bytes(c.index_spec() as int, 4)
}

/// Walks a whole index path from (key, chain code), failing when a step's
/// left half is not a usable tweak.
pub open spec fn xprv_chain(sk: Seq<u8>, cc: Seq<u8>, path: Seq<ChildIndex>) -> Option<
    (Seq<u8>, Seq<u8>),
>
    decreases path.len(),
{
    if path.len() == 0 {
        Some((sk, cc))
    } else {
        let big = hmac_sha512_of(cc, xprv_hmac_input(sk, path[0]));
        let il = big.take(32);
        let cc2 = big.skip(32);
        if scalar_ok(il) && scalar_add_ok(il, sk) {
            xprv_chain(scalar_add_of(il, sk), cc2, path.drop_first())
        } else {
            None
        }
    }
}

/// Extending the path by one index steps the chain once at the end.
pub proof fn lemma_xprv_chain_snoc(sk: Seq<u8>, cc: Seq<u8>, path: Seq<ChildIndex>, c: ChildIndex)
    ensures
        xprv_chain(sk, cc, path + seq![c]) == (match xprv_chain(sk, cc, path) {
            Some(end) => ({
                let big = hmac_sha512_of(end.1, xprv_hmac_input(end.0, c));
                let il = big.take(32);
                if scalar_ok(il) && scalar_add_ok(il, end.0) {
                    Some((scalar_add_of(il, end.0), big.skip(32)))
                } else {
                    None
                }
            }),
            None => None,
        }),
    decreases path.len(),
{
    if path.len() == 0 {
        assert((path + seq![c])[0] == c);
        assert((path + seq![c]).drop_first() =~= Seq::<ChildIndex>::empty());
        assert(xprv_chain(sk, cc, Seq::<ChildIndex>::empty()) == Some((sk, cc)));
        let big = hmac_sha512_of(cc, xprv_hmac_input(sk, c));
        let il = big.take(32);
        if scalar_ok(il) && scalar_add_ok(il, sk) {
            assert(xprv_chain(scalar_add_of(il, sk), big.skip(32), Seq::<ChildIndex>::empty())
                == Some((scalar_add_of(il, sk), big.skip(32))));
        }
    } else {
        assert((path + seq![c])[0] == path[0]);
        assert((path + seq![c]).drop_first() =~= path.drop_first() + seq![c]);
        let big = hmac_sha512_of(cc, xprv_hmac_input(sk, path[0]));
        let il = big.take(32);
        if scalar_ok(il) && scalar_add_ok(il, sk) {
            lemma_xprv_chain_snoc(scalar_add_of(il, sk), big.skip(32), path.drop_first(), c);
        }
    }
}

/// The 78-byte extended private key payload before its checksum.
pub open spec fn xprv_payload(x: BitcoinExtendedPrivateKey) -> Seq<u8> {
    (match mainnet_xprv_version(x.format) {
        Some(v) => v,
        None => Seq::<u8>::empty(),
    }) + seq![x.depth] + x.parent_fingerprint@ + be_bytes(x.child_index.index_spec() as int, 4)
        + x.chain_code@ + seq![0x00u8] + x.private_key.secret_spec()
}

/// The rendered 82 bytes: the payload, then four checksum bytes.
pub open spec fn xprv_bytes(x: BitcoinExtendedPrivateKey) -> Seq<u8> {
    xprv_payload(x) + sha256_of(sha256_of(xprv_payload(x))).take(4)
}

impl BitcoinExtendedPrivateKey {
    /// Structurally valid: byte-field widths, a valid scalar, and a
    /// mainnet-supported format with an in-range child index.
    pub open spec fn wf(self) -> bool {
        self.parent_fingerprint@.len() == 4 && self.chain_code@.len() == 32
            && self.private_key.wf() && self.child_index.wf()
    }

    /// Derives the master key of a seed: HMAC-SHA-512 under the fixed
    /// `Bitcoin seed` key, split into the secret scalar and the chain code.
    pub fn new_master(seed: &Vec<u8>, format: &BitcoinFormat) -> (r: Result<
        Self,
        ExtendedPrivateKeyError,
    >)
        ensures
            ({
                let big = hmac_sha512_of(bitcoin_seed_key(), seed@);
                if scalar_ok(big.take(32)) {
                    r matches Ok(k) && k.format == *format && k.depth == 0
                        && k.parent_fingerprint@ == seq![0u8, 0u8, 0u8, 0u8] && k.child_index
                        == ChildIndex::Normal(0u32) && k.chain_code@ == big.skip(32)
                        && k.private_key.secret_spec() == big.take(32)
                        && k.private_key.compressed_spec() && k.wf()
                } else {
                    r matches Err(ExtendedPrivateKeyError::Crate(_, _))
                }
            }),
    {
        proof {
            reveal_strlit("libsecp256k1");
            reveal_strlit("invalid secret key");
        }
        let key = bitcoin_seed_key_bytes();
        let big = hmac_sha512(&key, seed);
        let il = crate::transaction::copy_range(&big, 0, 32);
        let cc = crate::transaction::copy_range(&big, 32, 64);
        if !secret_key_valid(&il) {
            return Err(
                ExtendedPrivateKeyError::Crate(
                    String::from_str("libsecp256k1"),
                    String::from_str("invalid secret key"),
                ),
            );
        }
        let private_key = BitcoinPrivateKey::from_secp256k1_secret_key(&il, true);
        let mut fp: Vec<u8> = Vec::new();
        fp.push(0);
        fp.push(0);
        fp.push(0);
        fp.push(0);
        proof {
            assert(fp@ =~= seq![0u8, 0u8, 0u8, 0u8]);
            assert(big@.take(32) =~= big@.subrange(0, 32));
            assert(big@.skip(32) =~= big@.subrange(32, 64));
        }
        Ok(
            Self {
                format: *format,
                depth: 0,
                parent_fingerprint: fp,
                child_index: ChildIndex::Normal(0),
                chain_code: cc,
                private_key,
            },
        )
    }

    /// Creates a master key and immediately derives `path` from it.
    pub fn new(seed: &Vec<u8>, format: &BitcoinFormat, path: &BitcoinDerivationPath) -> (r:
        Result<Self, ExtendedPrivateKeyError>)
        requires
            crate::derivation_path::path_wf(*path),
        ensures
            r matches Ok(k) ==> k.wf(),
    {
        let master = match Self::new_master(seed, format) {
            Ok(k) => k,
            Err(e) => {
                return Err(e);
            },
        };
        master.derive(path)
    }

    /// Derives each child index of `path` in order: one HMAC step and one
    /// scalar tweak per index, bumping the depth and recording the parent
    /// fingerprint and the applied index; a BIP49 path forces the
    /// P2SH-P2WPKH format.
    pub fn derive(&self, path: &BitcoinDerivationPath) -> (r: Result<
        Self,
        ExtendedPrivateKeyError,
    >)
        requires
            self.wf(),
            crate::derivation_path::path_wf(*path),
        ensures
            self.depth == 255 ==> r == Err::<
                BitcoinExtendedPrivateKey,
                ExtendedPrivateKeyError,
            >(ExtendedPrivateKeyError::MaximumChildDepthReached(255)),
            self.depth != 255 ==> (match path_to_vec_spec(*path) {
                Err(e) => r == Err::<BitcoinExtendedPrivateKey, ExtendedPrivateKeyError>(
                    ExtendedPrivateKeyError::DerivationPathError(e),
                ),
                Ok(v) => {
                    if self.depth + v.len() > 255 {
                        r matches Err(ExtendedPrivateKeyError::MaximumChildDepthReached(_))
                    } else {
                        match xprv_chain(
                            self.private_key.secret_spec(),
                            self.chain_code@,
                            v,
                        ) {
                            None => r matches Err(ExtendedPrivateKeyError::Crate(_, _)),
                            Some(end) => r matches Ok(k) && ({
                                &&& k.private_key.secret_spec() == end.0
                                &&& k.private_key.compressed_spec()
                                &&& k.chain_code@ == end.1
                                &&& k.depth == self.depth + v.len()
                                &&& k.format == (if (path matches BitcoinDerivationPath::BIP49(
                                    _,
                                    _,
                                    _,
                                )) && v.len() > 0 {
                                    BitcoinFormat::P2SH_P2WPKH
                                } else {
                                    self.format
                                })
                                &&& (v.len() > 0 ==> ({
                                    let par = xprv_chain(
                                        self.private_key.secret_spec(),
                                        self.chain_code@,
                                        v.drop_last(),
                                    );
                                    par matches Some(p) && k.parent_fingerprint@
                                        == hash160_of(pubkey_of(p.0)).take(4)
                                        && k.child_index == v.last()
                                }))
                                &&& (v.len() == 0 ==> k.parent_fingerprint@
                                    == self.parent_fingerprint@ && k.child_index
                                    == self.child_index)
                                &&& k.wf()
                            }),
                        }
                    }
                },
            }),
            r matches Ok(k) ==> k.wf(),
    {
        if self.depth == 255 {
            return Err(ExtendedPrivateKeyError::MaximumChildDepthReached(self.depth));
        }
        let indices = match path.to_vec() {
            Ok(v) => v,
            Err(e) => {
                return Err(ExtendedPrivateKeyError::DerivationPathError(e));
            },
        };
        proof {
            reveal_strlit("libsecp256k1");
            reveal_strlit("invalid child key");
        }
        let is_bip49: bool = match path {
            BitcoinDerivationPath::BIP49(_, _, _) => true,
            _ => false,
        };
        let ghost v = indices@;
        if indices.len() > 255 - (self.depth as usize) {
            return Err(ExtendedPrivateKeyError::MaximumChildDepthReached(self.depth));
        }
        let mut sk: Vec<u8> = self.private_key.to_secp256k1_secret_key();
        let mut cc: Vec<u8> = clone_bytes(&self.chain_code);
        let mut depth: u8 = self.depth;
        let mut fingerprint: Vec<u8> = clone_bytes(&self.parent_fingerprint);
        let mut last_index: ChildIndex = self.child_index;
        let n: usize = indices.len();
        let mut i: usize = 0;
        proof {
            assert(v.take(0) =~= Seq::<ChildIndex>::empty());
            assert(xprv_chain(self.private_key.secret_spec(), self.chain_code@, v.take(0))
                == Some::<(Seq<u8>, Seq<u8>)>((sk@, cc@)));
            lemma_path_vec_wf(*path, v);
        }
        while i < n
            invariant
                i <= n,
                n == v.len(),
                indices@ == v,
                self.wf(),
                path_to_vec_spec(*path) == Ok::<Seq<ChildIndex>, DerivationPathError>(v),
                depth == self.depth + i,
                self.depth < 255,
                self.depth + n <= 255,
                scalar_ok(sk@),
                sk@.len() == 32,
                xprv_chain(self.private_key.secret_spec(), self.chain_code@, v.take(i as int))
                    == Some::<(Seq<u8>, Seq<u8>)>((sk@, cc@)),
                i > 0 ==> ({
                    let par = xprv_chain(
                        self.private_key.secret_spec(),
                        self.chain_code@,
                        v.take(i - 1),
                    );
                    par matches Some(p) && fingerprint@ == hash160_of(pubkey_of(p.0)).take(
                        4,
                    ) && last_index == v[i - 1]
                }),
                i == 0 ==> fingerprint@ == self.parent_fingerprint@ && last_index
                    == self.child_index,
                fingerprint@.len() == 4,
                cc@.len() == 32,
                ({
                    forall|j: int| 0 <= j < v.len() ==> (#[trigger] v[j]).wf()
                }),
            decreases n - i,
        {
            let index: ChildIndex = indices[i];
            let public_key = pubkey_from_secret(&sk);
            let mut msg: Vec<u8> = Vec::new();
            match index {
                ChildIndex::Normal(_) => {
                    crate::address::append_bytes(&mut msg, &public_key);
                },
                ChildIndex::Hardened(_) => {
                    msg.push(0x00);
                    crate::address::append_bytes(&mut msg, &sk);
                },
            }
            proof {
                crate::encoding::lemma_pow256_values();
            }
            append_be_bytes(&mut msg, index.to_index() as u64, 4);
            proof {
                assert(msg@ =~= xprv_hmac_input(sk@, index));
            }
            let big = hmac_sha512(&cc, &msg);
            let il = crate::transaction::copy_range(&big, 0, 32);
            let new_cc = crate::transaction::copy_range(&big, 32, 64);
            proof {
                assert(big@.take(32) =~= big@.subrange(0, 32));
                assert(big@.skip(32) =~= big@.subrange(32, 64));
            }
            let new_sk = match secret_tweak_add(&il, &sk) {
                Some(k) => k,
                None => {
                    proof {
                        lemma_xprv_chain_snoc(
                            self.private_key.secret_spec(),
                            self.chain_code@,
                            v.take(i as int),
                            index,
                        );
                        assert(v.take(i as int) + seq![index] =~= v.take(i + 1));
                        lemma_xprv_chain_none(
                            self.private_key.secret_spec(),
                            self.chain_code@,
                            v,
                            i as int,
                        );
                    }
                    return Err(
                        ExtendedPrivateKeyError::Crate(
                            String::from_str("libsecp256k1"),
                            String::from_str("invalid child key"),
                        ),
                    );
                },
            };
            let new_fp = hash160(&public_key);
            let fp4 = crate::transaction::copy_range(&new_fp, 0, 4);
            proof {
                lemma_xprv_chain_snoc(
                    self.private_key.secret_spec(),
                    self.chain_code@,
                    v.take(i as int),
                    index,
                );
                assert(v.take(i as int) + seq![index] =~= v.take(i + 1));
                assert(v.take(i + 1).drop_last() =~= v.take(i as int));
                assert(fp4@ =~= hash160_of(pubkey_of(sk@)).take(4));
            }
            sk = new_sk;
            cc = new_cc;
            fingerprint = fp4;
            last_index = index;
            depth = depth + 1;
            i = i + 1;
        }
        proof {
            assert(v.take(n as int) =~= v);
            if n > 0 {
                assert(v.take(n - 1) =~= v.drop_last());
                assert(v[n - 1] == v.last());
            }
        }
        let format: BitcoinFormat = if is_bip49 && indices.len() > 0 {
            BitcoinFormat::P2SH_P2WPKH
        } else {
            self.format
        };
        Ok(
            Self {
                format,
                depth,
                parent_fingerprint: fingerprint,
                child_index: last_index,
                chain_code: cc,
                private_key: BitcoinPrivateKey::from_secp256k1_secret_key(&sk, true),
            },
        )
    }

    /// The public counterpart of this key.
    pub fn to_extended_public_key(&self) -> (r: crate::extended_public_key::BitcoinExtendedPublicKey)
        requires
            self.wf(),
        ensures
            r.format == self.format,
            r.depth == self.depth,
            r.parent_fingerprint@ == self.parent_fingerprint@,
            r.child_index == self.child_index,
            r.chain_code@ == self.chain_code@,
            r.public_key.point_spec() == pubkey_of(self.private_key.secret_spec()),
            r.public_key.compressed_spec() == self.private_key.compressed_spec(),
            r.wf(),
    {
        crate::extended_public_key::BitcoinExtendedPublicKey::from_extended_private_key(self)
    }

    /// The bare private key.
    pub fn to_private_key(&self) -> (r: BitcoinPrivateKey)
        requires
            self.wf(),
        ensures
            r.secret_spec() == self.private_key.secret_spec(),
            r.compressed_spec() == self.private_key.compressed_spec(),
            r.wf(),
    {
        let secret = self.private_key.to_secp256k1_secret_key();
        BitcoinPrivateKey::from_secp256k1_secret_key(&secret, self.private_key.is_compressed())
    }

    /// The bare public key.
    pub fn to_public_key(&self) -> (r: BitcoinPublicKey)
        requires
            self.wf(),
        ensures
            r.point_spec() == pubkey_of(self.private_key.secret_spec()),
            r.compressed_spec() == self.private_key.compressed_spec(),
            r.wf(),
    {
        self.private_key.to_public_key()
    }

    /// The address of the bare key in the requested format.
    pub fn to_address(&self, format: &BitcoinFormat) -> (r: Result<
        BitcoinAddress,
        AddressError,
    >)
        requires
            self.wf(),
        ensures
            match *format {
                BitcoinFormat::P2WSH => r matches Err(AddressError::IncompatibleFormats(_, _)),
                _ => r is Ok,
            },
            r matches Ok(a) ==> a.format == *format,
    {
        BitcoinAddress::from_private_key(&self.private_key, format)
    }

    /// Renders the key as Base58Check text.
    pub fn to_text(&self) -> (r: String)
        requires
            self.wf(),
            mainnet_xprv_version(self.format) is Some,
        ensures
            r@ == base58_of(xprv_bytes(*self)),
            base58_bytes_of(r@) == xprv_bytes(*self),
            xprv_bytes(*self).len() == 82,
            r@.len() <= 114,
            forall|i: int| 0 <= i < r@.len() ==> is_base58_char(r@[i]),
    {
        let version = match Mainnet::to_extended_private_key_version_bytes(&self.format) {
            Ok(v) => v,
            Err(_) => {
                proof {
                    assert(false);
                }
                Vec::new()
            },
        };
        let mut payload: Vec<u8> = Vec::new();
        crate::address::append_bytes(&mut payload, &version);
        payload.push(self.depth);
        crate::address::append_bytes(&mut payload, &self.parent_fingerprint);
        proof {
            crate::encoding::lemma_pow256_values();
        }
        append_be_bytes(&mut payload, self.child_index.to_index() as u64, 4);
        crate::address::append_bytes(&mut payload, &self.chain_code);
        payload.push(0x00);
        let secret = self.private_key.to_secp256k1_secret_key();
        crate::address::append_bytes(&mut payload, &secret);
        proof {
            assert(payload@ =~= xprv_payload(*self));
            crate::encoding::lemma_be_bytes_len(self.child_index.index_spec() as int, 4);
            assert(xprv_payload(*self).len() == 78);
        }
        let sum = checksum(&payload);
        let mut full = payload;
        full.push(sum[0]);
        full.push(sum[1]);
        full.push(sum[2]);
        full.push(sum[3]);
        proof {
            assert(sum@.take(4) =~= seq![sum@[0], sum@[1], sum@[2], sum@[3]]);
            assert(full@ =~= xprv_bytes(*self));
        }
        base58_encode(&full)
    }

    /// Parses Base58Check text: the byte length, the network and format
    /// version bytes, the fields, the scalar, and the checksum.
    pub fn from_str(s: &str) -> (r: Result<Self, ExtendedPrivateKeyError>)
        ensures
            s@.len() > 132 ==> r == Err::<BitcoinExtendedPrivateKey, ExtendedPrivateKeyError>(
                ExtendedPrivateKeyError::InvalidByteLength(s@.len() as usize),
            ),
            s@.len() <= 132 && (forall|i: int|
                0 <= i < s@.len() ==> is_base58_char(s@[i])) ==> ({
                let d = base58_bytes_of(s@);
                let nn = d.len() as int;
                if nn != 82 {
                    r == Err::<BitcoinExtendedPrivateKey, ExtendedPrivateKeyError>(
                        ExtendedPrivateKeyError::InvalidByteLength(nn as usize),
                    )
                } else if !(d.take(4) == seq![0x04u8, 0x88u8, 0xADu8, 0xE4u8] || d.take(4)
                    == seq![0x04u8, 0x9Du8, 0x78u8, 0x78u8]) {
                    r matches Err(ExtendedPrivateKeyError::InvalidVersionBytes(_))
                } else if !scalar_ok(d.subrange(46, 78)) {
                    r matches Err(ExtendedPrivateKeyError::Crate(_, _))
                } else if d.skip(78) != sha256_of(sha256_of(d.take(78))).take(4) {
                    r matches Err(ExtendedPrivateKeyError::InvalidChecksum(_, _))
                } else {
                    r matches Ok(k) && ({
                        &&& Some(k.format) == format_of_xprv_version(d.take(4))
                        &&& k.depth == d[4]
                        &&& k.parent_fingerprint@ == d.subrange(5, 9)
                        &&& k.child_index == crate::derivation_path::index_from_u32(
                            be_val(d.subrange(9, 13)) as u32,
                        )
                        &&& k.chain_code@ == d.subrange(13, 45)
                        &&& k.private_key.secret_spec() == d.subrange(46, 78)
                        &&& k.private_key.compressed_spec()
                        &&& k.wf()
                    })
                }
            }),
            s@.len() <= 132 && !(forall|i: int|
                0 <= i < s@.len() ==> is_base58_char(s@[i])) ==> (r matches Err(
                ExtendedPrivateKeyError::Crate(_, _),
            )),
            r matches Ok(k) ==> k.wf(),
    {
        if s.unicode_len() > 132 {
            return Err(ExtendedPrivateKeyError::InvalidByteLength(s.unicode_len()));
        }
        proof {
            reveal_strlit("base58");
            reveal_strlit("invalid base58 string");
            reveal_strlit("libsecp256k1");
            reveal_strlit("invalid secret key");
        }
        let data = match base58_decode(s) {
            Some(d) => d,
            None => {
                return Err(
                    ExtendedPrivateKeyError::Crate(
                        String::from_str("base58"),
                        String::from_str("invalid base58 string"),
                    ),
                );
            },
        };
        proof {
            assert(data@ == base58_bytes_of(s@));
        }
        if data.len() != 82 {
            return Err(ExtendedPrivateKeyError::InvalidByteLength(data.len()));
        }
        let version = crate::transaction::copy_range(&data, 0, 4);
        proof {
            assert(version@ =~= data@.take(4));
            assert(version@.take(4) =~= version@);
        }
        match Mainnet::from_extended_private_key_version_bytes(&version) {
            Ok(_) => {},
            Err(e) => {
                return Err(e);
            },
        }
        let format = match BitcoinFormat::from_extended_private_key_version_bytes(&version) {
            Ok(f) => f,
            Err(e) => {
                return Err(e);
            },
        };
        let depth: u8 = data[4];
        let fingerprint = crate::transaction::copy_range(&data, 5, 9);
        proof {
            crate::encoding::lemma_pow256_values();
        }
        let index_value: u32 = read_be_bytes(&data, 9, 4) as u32;
        let child_index = ChildIndex::from_index(index_value);
        let chain_code = crate::transaction::copy_range(&data, 13, 45);
        let secret = crate::transaction::copy_range(&data, 46, 78);
        if !secret_key_valid(&secret) {
            return Err(
                ExtendedPrivateKeyError::Crate(
                    String::from_str("libsecp256k1"),
                    String::from_str("invalid secret key"),
                ),
            );
        }
        let private_key = BitcoinPrivateKey::from_secp256k1_secret_key(&secret, true);
        let body = crate::transaction::copy_range(&data, 0, 78);
        let sum = checksum(&body);
        let matches_checksum: bool = data[78] == sum[0] && data[79] == sum[1] && data[80]
            == sum[2] && data[81] == sum[3];
        proof {
            assert(body@ =~= data@.take(78));
            assert(data@.skip(78) =~= seq![data@[78], data@[79], data@[80], data@[81]]);
            assert(sum@.take(4) =~= seq![sum@[0], sum@[1], sum@[2], sum@[3]]);
            if matches_checksum {
                assert(data@.skip(78) =~= sum@.take(4));
            } else {
                assert(data@.skip(78) != sum@.take(4));
            }
        }
        if !matches_checksum {
            let expected = crate::transaction::copy_range(&data, 78, 82);
            let found = crate::transaction::copy_range(&sum, 0, 4);
            proof {
                assert(expected@ =~= data@.skip(78));
                assert(found@ =~= sum@.take(4));
            }
            return Err(
                ExtendedPrivateKeyError::InvalidChecksum(
                    base58_encode(&expected),
                    base58_encode(&found),
                ),
            );
        }
        proof {
            assert(be_val(data@.subrange(9, 13)) < crate::encoding::pow256(4)) by {
                crate::encoding::lemma_be_val_bound(data@.subrange(9, 13));
            }
            crate::encoding::lemma_pow256_values();
        }
        Ok(
            Self {
                format,
                depth,
                parent_fingerprint: fingerprint,
                child_index,
                chain_code,
                private_key,
            },
        )
    }
}

/// The fixed HMAC key of master-key creation, `Bitcoin seed` in ASCII.
pub open spec fn bitcoin_seed_key() -> Seq<u8> {
    seq![
        0x42u8,
        0x69u8,
        0x74u8,
        0x63u8,
        0x6Fu8,
        0x69u8,
        0x6Eu8,
        0x20u8,
        0x73u8,
        0x65u8,
        0x65u8,
        0x64u8,
    ]
}

fn bitcoin_seed_key_bytes() -> (r: Vec<u8>)
    ensures
        r@ == bitcoin_seed_key(),
{
    let mut v: Vec<u8> = Vec::new();
    v.push(0x42);
    v.push(0x69);
    v.push(0x74);
    v.push(0x63);
    v.push(0x6F);
    v.push(0x69);
    v.push(0x6E);
    v.push(0x20);
    v.push(0x73);
    v.push(0x65);
    v.push(0x65);
    v.push(0x64);
    proof {
        assert(v@ =~= bitcoin_seed_key());
    }
    v
}

/// A failing step makes the whole remaining chain fail.
proof fn lemma_xprv_chain_none(sk: Seq<u8>, cc: Seq<u8>, v: Seq<ChildIndex>, i: int)
    requires
        0 <= i < v.len(),
        xprv_chain(sk, cc, v.take(i + 1)) is None,
    ensures
        xprv_chain(sk, cc, v) is None,
    decreases v.len() - i,
{
    if i + 1 == v.len() {
        assert(v.take(i + 1) =~= v);
    } else {
        lemma_xprv_chain_snoc(sk, cc, v.take(i + 1), v[i + 1]);
        assert(v.take(i + 1) + seq![v[i + 1]] =~= v.take(i + 2));
        lemma_xprv_chain_none(sk, cc, v, i + 1);
    }
}

/// Any index list a path yields holds only in-range indices, provided the
/// path itself does.
pub proof fn lemma_path_vec_wf(path: BitcoinDerivationPath, v: Seq<ChildIndex>)
    requires
        crate::derivation_path::path_wf(path),
        path_to_vec_spec(path) == Ok::<Seq<ChildIndex>, DerivationPathError>(v),
    ensures
        forall|j: int| 0 <= j < v.len() ==> (#[trigger] v[j]).wf(),
{
    match path {
        BitcoinDerivationPath::BIP32(w) => {
            assert(v == w@);
        },
        BitcoinDerivationPath::BIP44(a, b, c) => {
            assert(v =~= seq![
                ChildIndex::Hardened(44u32),
                ChildIndex::Hardened(0u32),
                a,
                b,
                c,
            ]);
            assert(forall|j: int| 0 <= j < v.len() ==> (#[trigger] v[j]).wf()) by {
                assert(v[0].wf() && v[1].wf() && v[2].wf() && v[3].wf() && v[4].wf());
            }
        },
        BitcoinDerivationPath::BIP49(a, b, c) => {
            assert(v =~= seq![
                ChildIndex::Hardened(49u32),
                ChildIndex::Hardened(0u32),
                a,
                b,
                c,
            ]);
            assert(forall|j: int| 0 <= j < v.len() ==> (#[trigger] v[j]).wf()) by {
                assert(v[0].wf() && v[1].wf() && v[2].wf() && v[3].wf() && v[4].wf());
            }
        },
    }
}

/// The rendered payload pins every field: rendering is injective, so a
/// parsed extended key denotes exactly one key.
pub proof fn lemma_xprv_payload_injective(a: BitcoinExtendedPrivateKey, b: BitcoinExtendedPrivateKey)
    requires
        a.wf(),
        b.wf(),
        mainnet_xprv_version(a.format) is Some,
        mainnet_xprv_version(b.format) is Some,
        xprv_payload(a) == xprv_payload(b),
    ensures
        a.format == b.format,
        a.depth == b.depth,
        a.parent_fingerprint@ == b.parent_fingerprint@,
        a.child_index == b.child_index,
        a.chain_code@ == b.chain_code@,
        a.private_key.secret_spec() == b.private_key.secret_spec(),
{
    let pa = xprv_payload(a);
    let pb = xprv_payload(b);
    crate::encoding::lemma_be_bytes_len(a.child_index.index_spec() as int, 4);
    crate::encoding::lemma_be_bytes_len(b.child_index.index_spec() as int, 4);
    assert((match mainnet_xprv_version(a.format) {
        Some(v) => v,
        None => Seq::<u8>::empty(),
    }).len() == 4);
    assert((match mainnet_xprv_version(b.format) {
        Some(v) => v,
        None => Seq::<u8>::empty(),
    }).len() == 4);
    assert(pa.len() == 78);
    assert(pb.len() == 78);
    assert(pa.take(4) =~= (match mainnet_xprv_version(a.format) {
        Some(v) => v,
        None => Seq::<u8>::empty(),
    }));
    assert(pb.take(4) =~= (match mainnet_xprv_version(b.format) {
        Some(v) => v,
        None => Seq::<u8>::empty(),
    }));
    assert(a.format == b.format) by {
        if a.format != b.format {
            assert(pa.take(4) != pb.take(4));
        }
    }
    assert(a.depth == b.depth) by {
        assert(pa[4] == a.depth && pb[4] == b.depth);
    }
    assert(a.parent_fingerprint@ =~= pa.subrange(5, 9));
    assert(b.parent_fingerprint@ =~= pb.subrange(5, 9));
    assert(be_bytes(a.child_index.index_spec() as int, 4) =~= pa.subrange(9, 13));
    assert(be_bytes(b.child_index.index_spec() as int, 4) =~= pb.subrange(9, 13));
    assert(a.child_index == b.child_index) by {
        crate::encoding::lemma_pow256_values();
        crate::encoding::lemma_be_val_of_bytes(a.child_index.index_spec() as int, 4);
        crate::encoding::lemma_be_val_of_bytes(b.child_index.index_spec() as int, 4);
        crate::derivation_path::lemma_index_round_trip(a.child_index);
        crate::derivation_path::lemma_index_round_trip(b.child_index);
    }
    assert(a.chain_code@ =~= pa.subrange(13, 45));
    assert(b.chain_code@ =~= pb.subrange(13, 45));
    assert(a.private_key.secret_spec() =~= pa.subrange(46, 78));
    assert(b.private_key.secret_spec() =~= pb.subrange(46, 78));
}

} // verus!
