//! Private keys over secp256k1 and their WIF rendering.
use vstd::prelude::*;

use crate::format::clone_bytes;
use crate::hashing::checksum;
use crate::hashing::sha256_of;
use crate::public_key::BitcoinPublicKey;
use crate::secp::pubkey_from_secret;
use crate::secp::scalar_ok;
use crate::secp::secret_key_valid;
use crate::text_codec::base58_decode;
use crate::text_codec::base58_encode;
use crate::text_codec::base58_of;
use crate::text_codec::is_base58_char;

verus! {

#[derive(Debug, Clone, PartialEq, Eq)]
pub enum PrivateKeyError {
    Crate(String, String),
    InvalidByteLength(usize),
    InvalidCharacterLength(usize),
    InvalidChecksum(String, String),
    InvalidPrefix(Vec<u8>),
    Message(String),
    UnsupportedFormat,
}

/// A mainnet private key: a valid secret scalar and a compression choice
/// for the derived public key.
#[derive(Debug, Clone, PartialEq, Eq)]
pub struct BitcoinPrivateKey {
    pub secret_key: Vec<u8>,
    pub compressed: bool,
}

/// The WIF payload before its checksum: the network prefix, the scalar, and
/// a trailing 0x01 for compressed keys.
pub open spec fn wif_payload(secret: Seq<u8>, compressed: bool) -> Seq<u8> {
    seq![0x80u8] + secret + (if compressed {
        seq![0x01u8]
    } else {
        Seq::<u8>::empty()
    })
}

/// The full WIF byte string: the payload followed by the first four bytes
/// of its double-SHA-256 checksum.
pub open spec fn wif_bytes(secret: Seq<u8>, compressed: bool) -> Seq<u8> {
    wif_payload(secret, compressed) + sha256_of(sha256_of(wif_payload(secret, compressed))).take(
        4,
    )
}

impl BitcoinPrivateKey {
    /// The held scalar is valid for the curve.
    pub open spec fn wf(self) -> bool {
        scalar_ok(self.secret_key@) && self.secret_key@.len() == 32
    }

    pub open spec fn secret_spec(self) -> Seq<u8> {
        self.secret_key@
    }

    pub open spec fn compressed_spec(self) -> bool {
        self.compressed
    }

    /// Wraps an already-validated secret scalar.
    pub fn from_secp256k1_secret_key(secret_key: &Vec<u8>, compressed: bool) -> (r: Self)
        requires
            scalar_ok(secret_key@),
            secret_key@.len() == 32,
        ensures
            r.secret_key@ == secret_key@,
            r.compressed == compressed,
            r.wf(),
    {
        Self { secret_key: clone_bytes(secret_key), compressed }
    }

    /// The secret scalar bytes.
    pub fn to_secp256k1_secret_key(&self) -> (r: Vec<u8>)
        ensures
            r@ == self.secret_key@,
    {
        clone_bytes(&self.secret_key)
    }

    pub fn is_compressed(&self) -> (r: bool)
        ensures
            r == self.compressed,
    {
        self.compressed
    }

    /// The public key of this private key, with the same compression choice.
    pub fn to_public_key(&self) -> (r: BitcoinPublicKey)
        requires
            self.wf(),
        ensures
            r.point_spec() == crate::secp::pubkey_of(self.secret_key@),
            r.compressed_spec() == self.compressed,
            r.wf(),
    {
        let point = pubkey_from_secret(&self.secret_key);
        BitcoinPublicKey::from_normalized_point(point, self.compressed)
    }

    /// The WIF rendering: Base58 of the prefixed, checksummed scalar.
    pub fn to_wif(&self) -> (r: String)
        requires
            self.wf(),
        ensures
            r@ == base58_of(wif_bytes(self.secret_key@, self.compressed)),
            crate::text_codec::base58_bytes_of(r@) == wif_bytes(
                self.secret_key@,
                self.compressed,
            ),
            wif_bytes(self.secret_key@, self.compressed).len() == (if self.compressed {
                38int
            } else {
                37int
            }),
            r@.len() <= 53,
            forall|i: int| 0 <= i < r@.len() ==> is_base58_char(r@[i]),
    {
        let mut payload: Vec<u8> = Vec::new();
        payload.push(0x80);
        let mut i: usize = 0;
        while i < 32
            invariant
                i <= 32,
                self.secret_key@.len() == 32,
                payload@ == seq![0x80u8] + self.secret_key@.take(i as int),
            decreases 32 - i,
        {
            payload.push(self.secret_key[i]);
            proof {
                assert(payload@ =~= seq![0x80u8] + self.secret_key@.take(i + 1));
            }
            i = i + 1;
        }
        proof {
            assert(self.secret_key@.take(32) =~= self.secret_key@);
        }
        if self.compressed {
            payload.push(0x01);
        }
        proof {
            assert(payload@ =~= wif_payload(self.secret_key@, self.compressed));
        }
        let sum = checksum(&payload);
        let mut full = payload;
        full.push(sum[0]);
        full.push(sum[1]);
        full.push(sum[2]);
        full.push(sum[3]);
        proof {
            assert(sum@.take(4) =~= seq![sum@[0], sum@[1], sum@[2], sum@[3]]);
            assert(full@ =~= wif_bytes(self.secret_key@, self.compressed));
        }
        base58_encode(&full)
    }

    /// Parses a WIF string: Base58-decodes it, checks the byte length, the
    /// checksum, and the network prefix, then validates the scalar.
    pub fn from_str(wif: &str) -> (r: Result<Self, PrivateKeyError>)
        ensures
            wif@.len() > 132 ==> r == Err::<BitcoinPrivateKey, PrivateKeyError>(
                PrivateKeyError::InvalidCharacterLength(wif@.len() as usize),
            ),
            wif@.len() <= 132 && (forall|i: int|
                0 <= i < wif@.len() ==> is_base58_char(wif@[i])) ==> ({
                let d = crate::text_codec::base58_bytes_of(wif@);
                let n = d.len() as int;
                if n != 37 && n != 38 {
                    r == Err::<BitcoinPrivateKey, PrivateKeyError>(
                        PrivateKeyError::InvalidByteLength(n as usize),
                    )
                } else if d.skip(n - 4) != sha256_of(sha256_of(d.take(n - 4))).take(4) {
                    r matches Err(PrivateKeyError::InvalidChecksum(e, f)) && e@ == base58_of(
                        d.skip(n - 4),
                    ) && f@ == base58_of(sha256_of(sha256_of(d.take(n - 4))).take(4))
                } else if d[0] != 0x80 {
                    r matches Err(PrivateKeyError::InvalidPrefix(p)) && p@ == seq![d[0]]
                } else if !scalar_ok(d.subrange(1, 33)) {
                    r matches Err(PrivateKeyError::Crate(_, _))
                } else {
                    r matches Ok(k) && k.secret_key@ == d.subrange(1, 33) && k.compressed
                        == (n == 38) && k.wf()
                }
            }),
            wif@.len() <= 132 && !(forall|i: int|
                0 <= i < wif@.len() ==> is_base58_char(wif@[i])) ==> (r matches Err(
                PrivateKeyError::Crate(_, _),
            )),
            r matches Ok(k) ==> k.wf(),
    {
        if wif.unicode_len() > 132 {
            return Err(PrivateKeyError::InvalidCharacterLength(wif.unicode_len()));
        }
        proof {
            reveal_strlit("base58");
            reveal_strlit("invalid base58 string");
            reveal_strlit("libsecp256k1");
            reveal_strlit("invalid secret key");
        }
        let data = match base58_decode(wif) {
            Some(d) => d,
            None => {
                return Err(
                    PrivateKeyError::Crate(
                        String::from_str("base58"),
                        String::from_str("invalid base58 string"),
                    ),
                );
            },
        };
        let len: usize = data.len();
        if len != 37 && len != 38 {
            return Err(PrivateKeyError::InvalidByteLength(len));
        }
        let mut body: Vec<u8> = Vec::new();
        let mut i: usize = 0;
        while i < len - 4
            invariant
                i <= len - 4,
                len == data@.len(),
                len >= 37,
                body@ == data@.take(i as int),
            decreases len - 4 - i,
        {
            body.push(data[i]);
            proof {
                assert(body@ =~= data@.take(i + 1));
            }
            i = i + 1;
        }
        let sum = checksum(&body);
        let matches_checksum: bool = data[len - 4] == sum[0] && data[len - 3] == sum[1]
            && data[len - 2] == sum[2] && data[len - 1] == sum[3];
        proof {
            assert(body@ =~= data@.take(len - 4));
            assert(data@.skip(len - 4) =~= seq![
                data@[len - 4],
                data@[len - 3],
                data@[len - 2],
                data@[len - 1],
            ]);
            assert(sum@.take(4) =~= seq![sum@[0], sum@[1], sum@[2], sum@[3]]);
            if matches_checksum {
                assert(data@.skip(len - 4) =~= sum@.take(4));
            } else {
                assert(data@.skip(len - 4) != sum@.take(4));
            }
        }
        if !matches_checksum {
            let mut expected: Vec<u8> = Vec::new();
            expected.push(data[len - 4]);
            expected.push(data[len - 3]);
            expected.push(data[len - 2]);
            expected.push(data[len - 1]);
            let mut found: Vec<u8> = Vec::new();
            found.push(sum[0]);
            found.push(sum[1]);
            found.push(sum[2]);
            found.push(sum[3]);
            proof {
                assert(expected@ =~= data@.skip(len - 4));
                assert(found@ =~= sum@.take(4));
            }
            return Err(
                PrivateKeyError::InvalidChecksum(base58_encode(&expected), base58_encode(&found)),
            );
        }
        if data[0] != 0x80 {
            let mut p: Vec<u8> = Vec::new();
            p.push(data[0]);
            proof {
                assert(p@ =~= seq![data@[0]]);
            }
            return Err(PrivateKeyError::InvalidPrefix(p));
        }
        let mut secret: Vec<u8> = Vec::new();
        let mut j: usize = 1;
        while j < 33
            invariant
                1 <= j <= 33,
                len == data@.len(),
                len >= 37,
                secret@ == data@.subrange(1, j as int),
            decreases 33 - j,
        {
            secret.push(data[j]);
            proof {
                assert(secret@ =~= data@.subrange(1, j + 1));
            }
            j = j + 1;
        }
        if !secret_key_valid(&secret) {
            return Err(
                PrivateKeyError::Crate(
                    String::from_str("libsecp256k1"),
                    String::from_str("invalid secret key"),
                ),
            );
        }
        Ok(Self { secret_key: secret, compressed: len == 38 })
    }
}

/// A WIF payload pins down the scalar and the compression flag: rendering
/// is injective, so a parsed WIF string denotes exactly one key.
pub proof fn lemma_wif_payload_injective(a: BitcoinPrivateKey, b: BitcoinPrivateKey)
    requires
        a.wf(),
        b.wf(),
        wif_payload(a.secret_spec(), a.compressed_spec()) == wif_payload(
            b.secret_spec(),
            b.compressed_spec(),
        ),
    ensures
        a.secret_spec() == b.secret_spec(),
        a.compressed_spec() == b.compressed_spec(),
{
    let pa = wif_payload(a.secret_spec(), a.compressed_spec());
    let pb = wif_payload(b.secret_spec(), b.compressed_spec());
    assert(pa.len() == (if a.compressed_spec() {
        34int
    } else {
        33int
    }));
    assert(pb.len() == (if b.compressed_spec() {
        34int
    } else {
        33int
    }));
    assert(a.compressed_spec() == b.compressed_spec());
    assert(a.secret_spec() =~= pa.subrange(1, 33));
    assert(b.secret_spec() =~= pb.subrange(1, 33));
}

} // verus!
