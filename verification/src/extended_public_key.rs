//! Extended public keys: watch-only derivation along normal child indices,
//! with hardened requests rejected, and the Base58Check text form.
use vstd::prelude::*;

use crate::address::BitcoinAddress;
use crate::address::AddressError;
use crate::derivation_path::BitcoinDerivationPath;
use crate::derivation_path::ChildIndex;
use crate::derivation_path::DerivationPathError;
use crate::derivation_path::path_to_vec_spec;
use crate::encoding::be_bytes;
use crate::encoding::be_val;
use crate::encoding::append_be_bytes;
use crate::encoding::read_be_bytes;
use crate::format::BitcoinFormat;
use crate::format::clone_bytes;
use crate::format::format_of_xpub_version;
use crate::hashing::checksum;
use crate::hashing::hash160;
use crate::hashing::hash160_of;
use crate::hashing::hmac_sha512;
use crate::hashing::hmac_sha512_of;
use crate::hashing::sha256_of;
use crate::network::Mainnet;
use crate::network::mainnet_xpub_version;
use crate::public_key::BitcoinPublicKey;
use crate::secp::point_add_of;
use crate::secp::point_add_ok;
use crate::secp::point_norm_of;
use crate::secp::point_tweak_add;
use crate::secp::point_valid;
use crate::secp::pubkey_of;
use crate::secp::scalar_ok;
use crate::text_codec::base58_bytes_of;
use crate::text_codec::base58_decode;
use crate::text_codec::base58_encode;
use crate::text_codec::base58_of;
use crate::text_codec::is_base58_char;

verus! {

#[derive(Debug, Clone, PartialEq, Eq)]
pub enum ExtendedPublicKeyError {
    Crate(String, String),
    DerivationPathError(DerivationPathError),
    InvalidByteLength(usize),
    InvalidChecksum(String, String),
    InvalidChildNumber(u32, u32),
    InvalidVersionBytes(Vec<u8>),
    MaximumChildDepthReached(u8),
    Message(String),
    UnsupportedFormat(String),
}

/// An extended public key: the curve point, the chain code, and the
/// position bookkeeping of its place in the derivation tree.
#[derive(Debug, Clone, PartialEq, Eq)]
pub struct BitcoinExtendedPublicKey {
    pub format: BitcoinFormat,
    pub depth: u8,
    pub parent_fingerprint: Vec<u8>,
    pub child_index: ChildIndex,
    pub chain_code: Vec<u8>,
    pub public_key: BitcoinPublicKey,
}

/// The position of the first hardened index, or the length if none.
pub open spec fn first_hardened(v: Seq<ChildIndex>) -> int
    decreases v.len(),
{
    if v.len() == 0 {
        0
    } else if v[0] matches ChildIndex::Hardened(_) {
        0
    } else {
        1 + first_hardened(v.drop_first())
    }
}

pub proof fn lemma_first_hardened(v: Seq<ChildIndex>)
    ensures
        0 <= first_hardened(v) <= v.len(),
        first_hardened(v) < v.len() ==> (v[first_hardened(v)] matches ChildIndex::Hardened(
            _,
        )),
        forall|j: int| 0 <= j < first_hardened(v) ==> (#[trigger] v[j] matches ChildIndex::Normal(_)),
    decreases v.len(),
{
    if v.len() > 0 && !(v[0] matches ChildIndex::Hardened(_)) {
        lemma_first_hardened(v.drop_first());
        assert forall|j: int| 0 <= j < first_hardened(v) implies (#[trigger] v[j]
            matches ChildIndex::Normal(_)) by {
            if j > 0 {
                assert(v.drop_first()[j - 1] == v[j]);
            }
        }
    }
}

/// Walks a path of normal indices from (point, chain code), failing on a
/// hardened index or when a step leaves the curve.
pub open spec fn xpub_chain(pt: Seq<u8>, cc: Seq<u8>, path: Seq<ChildIndex>) -> Option<
    (Seq<u8>, Seq<u8>),
>
    decreases path.len(),
{
    if path.len() == 0 {
        Some((pt, cc))
    } else if path[0] matches ChildIndex::Hardened(_) {
        None
    } else {
        let big = hmac_sha512_of(cc, pt + be_bytes(path[0].index_spec() as int, 4));
        let il = big.take(32);
        if scalar_ok(il) && point_add_ok(pt, il) {
            xpub_chain(point_add_of(pt, il), big.skip(32), path.drop_first())
        } else {
            None
        }
    }
}

/// Extending the path by one normal index steps the chain once at the end.
pub proof fn lemma_xpub_chain_snoc(pt: Seq<u8>, cc: Seq<u8>, path: Seq<ChildIndex>, c: ChildIndex)
    requires
        c matches ChildIndex::Normal(_),
    ensures
        xpub_chain(pt, cc, path + seq![c]) == (match xpub_chain(pt, cc, path) {
            Some(end) => ({
                let big = hmac_sha512_of(end.1, end.0 + be_bytes(c.index_spec() as int, 4));
                let il = big.take(32);
                if scalar_ok(il) && point_add_ok(end.0, il) {
                    Some((point_add_of(end.0, il), big.skip(32)))
                } else {
                    None
                }
            }),
            None => None,
        }),
    decreases path.len(),
{
    if path.len() == 0 {
        assert((path + seq![c])[0] == c);
        assert((path + seq![c]).drop_first() =~= Seq::<ChildIndex>::empty());
        assert(xpub_chain(pt, cc, Seq::<ChildIndex>::empty()) == Some((pt, cc)));
        let big = hmac_sha512_of(cc, pt + be_bytes(c.index_spec() as int, 4));
        let il = big.take(32);
        if scalar_ok(il) && point_add_ok(pt, il) {
            assert(xpub_chain(point_add_of(pt, il), big.skip(32), Seq::<ChildIndex>::empty())
                == Some((point_add_of(pt, il), big.skip(32))));
        }
    } else {
        assert((path + seq![c])[0] == path[0]);
        assert((path + seq![c]).drop_first() =~= path.drop_first() + seq![c]);
        if !(path[0] matches ChildIndex::Hardened(_)) {
            let big = hmac_sha512_of(cc, pt + be_bytes(path[0].index_spec() as int, 4));
            let il = big.take(32);
            if scalar_ok(il) && point_add_ok(pt, il) {
                lemma_xpub_chain_snoc(point_add_of(pt, il), big.skip(32), path.drop_first(), c);
            }
        }
    }
}

/// The 78-byte extended public key payload before its checksum.
pub open spec fn xpub_payload(x: BitcoinExtendedPublicKey) -> Seq<u8> {
    (match mainnet_xpub_version(x.format) {
        Some(v) => v,
        None => Seq::<u8>::empty(),
    }) + seq![x.depth] + x.parent_fingerprint@ + be_bytes(x.child_index.index_spec() as int, 4)
        + x.chain_code@ + x.public_key.point_spec()
}

/// The rendered 82 bytes: the payload, then four checksum bytes.
pub open spec fn xpub_bytes(x: BitcoinExtendedPublicKey) -> Seq<u8> {
    xpub_payload(x) + sha256_of(sha256_of(xpub_payload(x))).take(4)
}

impl BitcoinExtendedPublicKey {
    pub open spec fn wf(self) -> bool {
        self.parent_fingerprint@.len() == 4 && self.chain_code@.len() == 32
            && self.public_key.wf() && self.child_index.wf()
    }

    /// Strips the private scalar from an extended private key.
    pub fn from_extended_private_key(
        key: &crate::extended_private_key::BitcoinExtendedPrivateKey,
    ) -> (r: Self)
        requires
            key.wf(),
        ensures
            r.format == key.format,
            r.depth == key.depth,
            r.parent_fingerprint@ == key.parent_fingerprint@,
            r.child_index == key.child_index,
            r.chain_code@ == key.chain_code@,
            r.public_key.point_spec() == pubkey_of(key.private_key.secret_spec()),
            r.public_key.compressed_spec() == key.private_key.compressed_spec(),
            r.wf(),
    {
        Self {
            format: key.format,
            depth: key.depth,
            parent_fingerprint: clone_bytes(&key.parent_fingerprint),
            child_index: key.child_index,
            chain_code: clone_bytes(&key.chain_code),
            public_key: key.to_public_key(),
        }
    }

    /// Derives each child index of `path` along the public branch; a
    /// hardened index is impossible without the private key and is
    /// rejected.
    pub fn derive(&self, path: &BitcoinDerivationPath) -> (r: Result<
        Self,
        ExtendedPublicKeyError,
    >)
        requires
            self.wf(),
            crate::derivation_path::path_wf(*path),
        ensures
            self.depth == 255 ==> r == Err::<
                BitcoinExtendedPublicKey,
                ExtendedPublicKeyError,
            >(ExtendedPublicKeyError::MaximumChildDepthReached(255)),
            self.depth != 255 ==> (match path_to_vec_spec(*path) {
                Err(e) => r == Err::<BitcoinExtendedPublicKey, ExtendedPublicKeyError>(
                    ExtendedPublicKeyError::DerivationPathError(e),
                ),
                Ok(v) => {
                    if self.depth + v.len() > 255 {
                        r matches Err(ExtendedPublicKeyError::MaximumChildDepthReached(_))
                    } else {
                        let h = first_hardened(v);
                        if h < v.len() {
                            match xpub_chain(
                                self.public_key.point_spec(),
                                self.chain_code@,
                                v.take(h),
                            ) {
                                Some(_) => r == Err::<
                                    BitcoinExtendedPublicKey,
                                    ExtendedPublicKeyError,
                                >(
                                    ExtendedPublicKeyError::InvalidChildNumber(
                                        0x8000_0000,
                                        v[h].index_spec(),
                                    ),
                                ),
                                None => r matches Err(ExtendedPublicKeyError::Crate(_, _)),
                            }
                        } else {
                            match xpub_chain(
                                self.public_key.point_spec(),
                                self.chain_code@,
                                v,
                            ) {
                                None => r matches Err(ExtendedPublicKeyError::Crate(_, _)),
                                Some(end) => r matches Ok(k) && ({
                                    &&& k.public_key.point_spec() == end.0
                                    &&& k.public_key.compressed_spec()
                                    &&& k.chain_code@ == end.1
                                    &&& k.depth == self.depth + v.len()
                                    &&& k.format == self.format
                                    &&& (v.len() > 0 ==> ({
                                        let par = xpub_chain(
                                            self.public_key.point_spec(),
                                            self.chain_code@,
                                            v.drop_last(),
                                        );
                                        par matches Some(p) && k.parent_fingerprint@
                                            == hash160_of(p.0).take(4) && k.child_index
                                            == v.last()
                                    }))
                                    &&& (v.len() == 0 ==> k.parent_fingerprint@
                                        == self.parent_fingerprint@ && k.child_index
                                        == self.child_index)
                                    &&& k.wf()
                                }),
                            }
                        }
                    }
                },
            }),
            r matches Ok(k) ==> k.wf(),
    {
        if self.depth == 255 {
            return Err(ExtendedPublicKeyError::MaximumChildDepthReached(self.depth));
        }
        let indices = match path.to_vec() {
            Ok(v) => v,
            Err(e) => {
                return Err(ExtendedPublicKeyError::DerivationPathError(e));
            },
        };
        proof {
            reveal_strlit("libsecp256k1");
            reveal_strlit("invalid child key");
            lemma_first_hardened(indices@);
        }
        let ghost v = indices@;
        if indices.len() > 255 - (self.depth as usize) {
            return Err(ExtendedPublicKeyError::MaximumChildDepthReached(self.depth));
        }
        let mut pt: Vec<u8> = self.public_key.serialize_compressed();
        let mut cc: Vec<u8> = clone_bytes(&self.chain_code);
        let mut depth: u8 = self.depth;
        let mut fingerprint: Vec<u8> = clone_bytes(&self.parent_fingerprint);
        let mut last_index: ChildIndex = self.child_index;
        let n: usize = indices.len();
        let mut i: usize = 0;
        proof {
            assert(v.take(0) =~= Seq::<ChildIndex>::empty());
            assert(xpub_chain(self.public_key.point_spec(), self.chain_code@, v.take(0))
                == Some::<(Seq<u8>, Seq<u8>)>((pt@, cc@)));
            crate::extended_private_key::lemma_path_vec_wf(*path, v);
        }
        while i < n
            invariant
                i <= n,
                n == v.len(),
                indices@ == v,
                self.wf(),
                path_to_vec_spec(*path) == Ok::<Seq<ChildIndex>, DerivationPathError>(v),
                depth == self.depth + i,
                self.depth < 255,
                self.depth + n <= 255,
                point_valid(pt@),
                pt@.len() == 33,
                point_norm_of(pt@) == pt@,
                i <= first_hardened(v),
                xpub_chain(self.public_key.point_spec(), self.chain_code@, v.take(i as int))
                    == Some::<(Seq<u8>, Seq<u8>)>((pt@, cc@)),
                i > 0 ==> ({
                    let par = xpub_chain(
                        self.public_key.point_spec(),
                        self.chain_code@,
                        v.take(i - 1),
                    );
                    par matches Some(p) && fingerprint@ == hash160_of(p.0).take(4)
                        && last_index == v[i - 1]
                }),
                i == 0 ==> fingerprint@ == self.parent_fingerprint@ && last_index
                    == self.child_index,
                fingerprint@.len() == 4,
                cc@.len() == 32,
                forall|j: int| 0 <= j < v.len() ==> (#[trigger] v[j]).wf(),
            decreases n - i,
        {
            let index: ChildIndex = indices[i];
            match index {
                ChildIndex::Hardened(_) => {
                    proof {
                        lemma_first_hardened(v);
                        assert(first_hardened(v) == i) by {
                            if i < first_hardened(v) {
                                assert(v[i as int] matches ChildIndex::Normal(_));
                            }
                        }
                    }
                    return Err(
                        ExtendedPublicKeyError::InvalidChildNumber(
                            0x8000_0000,
                            index.to_index(),
                        ),
                    );
                },
                ChildIndex::Normal(_) => {},
            }
            proof {
                lemma_first_hardened(v);
                if i as int == first_hardened(v) && first_hardened(v) < v.len() {
                    assert(v[first_hardened(v)] matches ChildIndex::Hardened(_));
                    assert(false);
                }
            }
            let mut msg: Vec<u8> = Vec::new();
            crate::address::append_bytes(&mut msg, &pt);
            proof {
                crate::encoding::lemma_pow256_values();
            }
            append_be_bytes(&mut msg, index.to_index() as u64, 4);
            proof {
                assert(msg@ =~= pt@ + be_bytes(index.index_spec() as int, 4));
            }
            let big = hmac_sha512(&cc, &msg);
            let il = crate::transaction::copy_range(&big, 0, 32);
            let new_cc = crate::transaction::copy_range(&big, 32, 64);
            proof {
                assert(big@.take(32) =~= big@.subrange(0, 32));
                assert(big@.skip(32) =~= big@.subrange(32, 64));
            }
            let new_pt = match point_tweak_add(&pt, &il) {
                Some(p) => p,
                None => {
                    proof {
                        lemma_xpub_chain_snoc(
                            self.public_key.point_spec(),
                            self.chain_code@,
                            v.take(i as int),
                            index,
                        );
                        assert(v.take(i as int) + seq![index] =~= v.take(i + 1));
                        lemma_first_hardened(v);
                        let h = first_hardened(v);
                        assert(i < h) by {
                            if i >= h {
                                assert(h < v.len());
                                assert(v[h] matches ChildIndex::Hardened(_));
                                assert(h == i);
                            }
                        }
                        lemma_xpub_chain_none_upto(
                            self.public_key.point_spec(),
                            self.chain_code@,
                            v,
                            i as int,
                            h,
                        );
                        if h == v.len() {
                            assert(v.take(h) =~= v);
                        }
                    }
                    return Err(
                        ExtendedPublicKeyError::Crate(
                            String::from_str("libsecp256k1"),
                            String::from_str("invalid child key"),
                        ),
                    );
                },
            };
            let fp_full = hash160(&pt);
            let fp4 = crate::transaction::copy_range(&fp_full, 0, 4);
            proof {
                lemma_xpub_chain_snoc(
                    self.public_key.point_spec(),
                    self.chain_code@,
                    v.take(i as int),
                    index,
                );
                assert(v.take(i as int) + seq![index] =~= v.take(i + 1));
                assert(v.take(i + 1).drop_last() =~= v.take(i as int));
                assert(fp4@ =~= hash160_of(pt@).take(4));
            }
            pt = new_pt;
            cc = new_cc;
            fingerprint = fp4;
            last_index = index;
            depth = depth + 1;
            i = i + 1;
        }
        proof {
            assert(v.take(n as int) =~= v);
            lemma_first_hardened(v);
            assert(first_hardened(v) == v.len());
            if n > 0 {
                assert(v.take(n - 1) =~= v.drop_last());
                assert(v[n - 1] == v.last());
            }
        }
        Ok(
            Self {
                format: self.format,
                depth,
                parent_fingerprint: fingerprint,
                child_index: last_index,
                chain_code: cc,
                public_key: BitcoinPublicKey::from_normalized_point(pt, true),
            },
        )
    }

    /// The bare public key.
    pub fn to_public_key(&self) -> (r: BitcoinPublicKey)
        requires
            self.wf(),
        ensures
            r.point_spec() == self.public_key.point_spec(),
            r.compressed_spec() == self.public_key.compressed_spec(),
            r.wf(),
    {
        let point = self.public_key.serialize_compressed();
        BitcoinPublicKey::from_normalized_point(point, self.public_key.is_compressed())
    }

    /// The address of the bare key in the requested format.
    pub fn to_address(&self, format: &BitcoinFormat) -> (r: Result<
        BitcoinAddress,
        AddressError,
    >)
        requires
            self.wf(),
        ensures
            match *format {
                BitcoinFormat::P2WSH => r matches Err(AddressError::IncompatibleFormats(_, _)),
                _ => r is Ok,
            },
            r matches Ok(a) ==> a.format == *format,
    {
        BitcoinAddress::from_public_key(&self.public_key, format)
    }

    pub fn format(&self) -> (r: BitcoinFormat)
        ensures
            r == self.format,
    {
        self.format.clone()
    }

    /// Renders the key as Base58Check text.
    pub fn to_text(&self) -> (r: String)
        requires
            self.wf(),
            mainnet_xpub_version(self.format) is Some,
        ensures
            r@ == base58_of(xpub_bytes(*self)),
            base58_bytes_of(r@) == xpub_bytes(*self),
            xpub_bytes(*self).len() == 82,
            r@.len() <= 114,
            forall|i: int| 0 <= i < r@.len() ==> is_base58_char(r@[i]),
    {
        let version = match Mainnet::to_extended_public_key_version_bytes(&self.format) {
            Ok(v) => v,
            Err(_) => {
                proof {
                    assert(false);
                }
                Vec::new()
            },
        };
        let mut payload: Vec<u8> = Vec::new();
        crate::address::append_bytes(&mut payload, &version);
        payload.push(self.depth);
        crate::address::append_bytes(&mut payload, &self.parent_fingerprint);
        proof {
            crate::encoding::lemma_pow256_values();
        }
        append_be_bytes(&mut payload, self.child_index.to_index() as u64, 4);
        crate::address::append_bytes(&mut payload, &self.chain_code);
        let point = self.public_key.serialize_compressed();
        crate::address::append_bytes(&mut payload, &point);
        proof {
            assert(payload@ =~= xpub_payload(*self));
            crate::encoding::lemma_be_bytes_len(self.child_index.index_spec() as int, 4);
            assert(xpub_payload(*self).len() == 78);
        }
        let sum = checksum(&payload);
        let mut full = payload;
        full.push(sum[0]);
        full.push(sum[1]);
        full.push(sum[2]);
        full.push(sum[3]);
        proof {
            assert(sum@.take(4) =~= seq![sum@[0], sum@[1], sum@[2], sum@[3]]);
            assert(full@ =~= xpub_bytes(*self));
        }
        base58_encode(&full)
    }

    /// Parses Base58Check text: the byte length, the network and format
    /// version bytes, the fields, the curve point, and the checksum.
    pub fn from_str(s: &str) -> (r: Result<Self, ExtendedPublicKeyError>)
        ensures
            s@.len() > 132 ==> r == Err::<BitcoinExtendedPublicKey, ExtendedPublicKeyError>(
                ExtendedPublicKeyError::InvalidByteLength(s@.len() as usize),
            ),
            s@.len() <= 132 && (forall|i: int|
                0 <= i < s@.len() ==> is_base58_char(s@[i])) ==> ({
                let d = base58_bytes_of(s@);
                let nn = d.len() as int;
                if nn != 82 {
                    r == Err::<BitcoinExtendedPublicKey, ExtendedPublicKeyError>(
                        ExtendedPublicKeyError::InvalidByteLength(nn as usize),
                    )
                } else if !(d.take(4) == seq![0x04u8, 0x88u8, 0xB2u8, 0x1Eu8] || d.take(4)
                    == seq![0x04u8, 0x9Du8, 0x7Cu8, 0xB2u8]) {
                    r matches Err(ExtendedPublicKeyError::InvalidVersionBytes(_))
                } else if !point_valid(d.subrange(45, 78)) {
                    r matches Err(ExtendedPublicKeyError::Crate(_, _))
                } else if d.skip(78) != sha256_of(sha256_of(d.take(78))).take(4) {
                    r matches Err(ExtendedPublicKeyError::InvalidChecksum(_, _))
                } else {
                    r matches Ok(k) && ({
                        &&& Some(k.format) == format_of_xpub_version(d.take(4))
                        &&& k.depth == d[4]
                        &&& k.parent_fingerprint@ == d.subrange(5, 9)
                        &&& k.child_index == crate::derivation_path::index_from_u32(
                            be_val(d.subrange(9, 13)) as u32,
                        )
                        &&& k.chain_code@ == d.subrange(13, 45)
                        &&& k.public_key.point_spec() == point_norm_of(d.subrange(45, 78))
                        &&& k.public_key.compressed_spec()
                        &&& k.wf()
                    })
                }
            }),
            s@.len() <= 132 && !(forall|i: int|
                0 <= i < s@.len() ==> is_base58_char(s@[i])) ==> (r matches Err(
                ExtendedPublicKeyError::Crate(_, _),
            )),
            r matches Ok(k) ==> k.wf(),
    {
        if s.unicode_len() > 132 {
            return Err(ExtendedPublicKeyError::InvalidByteLength(s.unicode_len()));
        }
        proof {
            reveal_strlit("base58");
            reveal_strlit("invalid base58 string");
            reveal_strlit("libsecp256k1");
            reveal_strlit("invalid public key");
        }
        let data = match base58_decode(s) {
            Some(d) => d,
            None => {
                return Err(
                    ExtendedPublicKeyError::Crate(
                        String::from_str("base58"),
                        String::from_str("invalid base58 string"),
                    ),
                );
            },
        };
        proof {
            assert(data@ == base58_bytes_of(s@));
        }
        if data.len() != 82 {
            return Err(ExtendedPublicKeyError::InvalidByteLength(data.len()));
        }
        let version = crate::transaction::copy_range(&data, 0, 4);
        proof {
            assert(version@ =~= data@.take(4));
            assert(version@.take(4) =~= version@);
        }
        match Mainnet::from_extended_public_key_version_bytes(&version) {
            Ok(_) => {},
            Err(e) => {
                return Err(e);
            },
        }
        let format = match BitcoinFormat::from_extended_public_key_version_bytes(&version) {
            Ok(f) => f,
            Err(e) => {
                return Err(e);
            },
        };
        let depth: u8 = data[4];
        let fingerprint = crate::transaction::copy_range(&data, 5, 9);
        proof {
            crate::encoding::lemma_pow256_values();
        }
        let index_value: u32 = read_be_bytes(&data, 9, 4) as u32;
        let child_index = ChildIndex::from_index(index_value);
        let chain_code = crate::transaction::copy_range(&data, 13, 45);
        let point = crate::transaction::copy_range(&data, 45, 78);
        let public_key = match BitcoinPublicKey::from_secp256k1_public_key(&point, true) {
            Some(k) => k,
            None => {
                return Err(
                    ExtendedPublicKeyError::Crate(
                        String::from_str("libsecp256k1"),
                        String::from_str("invalid public key"),
                    ),
                );
            },
        };
        let body = crate::transaction::copy_range(&data, 0, 78);
        let sum = checksum(&body);
        let matches_checksum: bool = data[78] == sum[0] && data[79] == sum[1] && data[80]
            == sum[2] && data[81] == sum[3];
        proof {
            assert(body@ =~= data@.take(78));
            assert(data@.skip(78) =~= seq![data@[78], data@[79], data@[80], data@[81]]);
            assert(sum@.take(4) =~= seq![sum@[0], sum@[1], sum@[2], sum@[3]]);
            if matches_checksum {
                assert(data@.skip(78) =~= sum@.take(4));
            } else {
                assert(data@.skip(78) != sum@.take(4));
            }
        }
        if !matches_checksum {
            let expected = crate::transaction::copy_range(&data, 78, 82);
            let found = crate::transaction::copy_range(&sum, 0, 4);
            proof {
                assert(expected@ =~= data@.skip(78));
                assert(found@ =~= sum@.take(4));
            }
            return Err(
                ExtendedPublicKeyError::InvalidChecksum(
                    base58_encode(&expected),
                    base58_encode(&found),
                ),
            );
        }
        proof {
            assert(be_val(data@.subrange(9, 13)) < crate::encoding::pow256(4)) by {
                crate::encoding::lemma_be_val_bound(data@.subrange(9, 13));
            }
            crate::encoding::lemma_pow256_values();
        }
        Ok(
            Self {
                format,
                depth,
                parent_fingerprint: fingerprint,
                child_index,
                chain_code,
                public_key,
            },
        )
    }
}

/// A failure extends along any run of normal indices.
proof fn lemma_xpub_chain_none_upto(pt: Seq<u8>, cc: Seq<u8>, v: Seq<ChildIndex>, i: int, m: int)
    requires
        0 <= i < m <= v.len(),
        xpub_chain(pt, cc, v.take(i + 1)) is None,
        forall|j: int| i + 1 <= j < m ==> (#[trigger] v[j] matches ChildIndex::Normal(_)),
    ensures
        xpub_chain(pt, cc, v.take(m)) is None,
    decreases m - i,
{
    if i + 1 == m {
    } else {
        lemma_xpub_chain_snoc(pt, cc, v.take(i + 1), v[i + 1]);
        assert(v.take(i + 1) + seq![v[i + 1]] =~= v.take(i + 2));
        lemma_xpub_chain_none_upto(pt, cc, v, i + 1, m);
    }
}

/// The rendered payload pins every field: rendering is injective, so a
/// parsed extended public key denotes exactly one key.
pub proof fn lemma_xpub_payload_injective(a: BitcoinExtendedPublicKey, b: BitcoinExtendedPublicKey)
    requires
        a.wf(),
        b.wf(),
        mainnet_xpub_version(a.format) is Some,
        mainnet_xpub_version(b.format) is Some,
        xpub_payload(a) == xpub_payload(b),
    ensures
        a.format == b.format,
        a.depth == b.depth,
        a.parent_fingerprint@ == b.parent_fingerprint@,
        a.child_index == b.child_index,
        a.chain_code@ == b.chain_code@,
        a.public_key.point_spec() == b.public_key.point_spec(),
{
    let pa = xpub_payload(a);
    let pb = xpub_payload(b);
    crate::encoding::lemma_be_bytes_len(a.child_index.index_spec() as int, 4);
    crate::encoding::lemma_be_bytes_len(b.child_index.index_spec() as int, 4);
    assert((match mainnet_xpub_version(a.format) {
        Some(v) => v,
        None => Seq::<u8>::empty(),
    }).len() == 4);
    assert((match mainnet_xpub_version(b.format) {
        Some(v) => v,
        None => Seq::<u8>::empty(),
    }).len() == 4);
    assert(pa.len() == 78);
    assert(pb.len() == 78);
    assert(pa.take(4) =~= (match mainnet_xpub_version(a.format) {
        Some(v) => v,
        None => Seq::<u8>::empty(),
    }));
    assert(pb.take(4) =~= (match mainnet_xpub_version(b.format) {
        Some(v) => v,
        None => Seq::<u8>::empty(),
    }));
    assert(a.format == b.format) by {
        if a.format != b.format {
            assert(pa.take(4) != pb.take(4));
        }
    }
    assert(a.depth == b.depth) by {
        assert(pa[4] == a.depth && pb[4] == b.depth);
    }
    assert(a.parent_fingerprint@ =~= pa.subrange(5, 9));
    assert(b.parent_fingerprint@ =~= pb.subrange(5, 9));
    assert(be_bytes(a.child_index.index_spec() as int, 4) =~= pa.subrange(9, 13));
    assert(be_bytes(b.child_index.index_spec() as int, 4) =~= pb.subrange(9, 13));
    assert(a.child_index == b.child_index) by {
        crate::encoding::lemma_pow256_values();
        crate::encoding::lemma_be_val_of_bytes(a.child_index.index_spec() as int, 4);
        crate::encoding::lemma_be_val_of_bytes(b.child_index.index_spec() as int, 4);
        crate::derivation_path::lemma_index_round_trip(a.child_index);
        crate::derivation_path::lemma_index_round_trip(b.child_index);
    }
    assert(a.chain_code@ =~= pa.subrange(13, 45));
    assert(b.chain_code@ =~= pb.subrange(13, 45));
    assert(a.public_key.point_spec() =~= pa.subrange(45, 78));
    assert(b.public_key.point_spec() =~= pb.subrange(45, 78));
}

} // verus!
