//! Public keys over secp256k1, held in canonical compressed form.
use vstd::prelude::*;

use crate::format::clone_bytes;
use crate::private_key::BitcoinPrivateKey;
use crate::secp::point_norm_of;
use crate::secp::point_valid;
use crate::secp::pubkey_parse;
use crate::secp::pubkey_uncompressed;
use crate::secp::uncompressed_of;

verus! {

#[derive(Debug, Clone, PartialEq, Eq)]
pub enum PublicKeyError {
    Crate(String, String),
    InvalidByteLength(usize),
    InvalidCharacterLength(usize),
    InvalidPrefix(String),
    NoSpendingKey,
    NoViewingKey,
}

/// A public key: a canonical 33-byte compressed curve point and the
/// compression choice its serializations use.
#[derive(Debug, Clone, PartialEq, Eq)]
pub struct BitcoinPublicKey {
    pub public_key: Vec<u8>,
    pub compressed: bool,
}

impl BitcoinPublicKey {
    /// The held bytes are the canonical compressed form of a curve point.
    pub open spec fn wf(self) -> bool {
        point_valid(self.public_key@) && self.public_key@.len() == 33 && point_norm_of(
            self.public_key@,
        ) == self.public_key@
    }

    pub open spec fn point_spec(self) -> Seq<u8> {
        self.public_key@
    }

    pub open spec fn compressed_spec(self) -> bool {
        self.compressed
    }

    /// Wraps a point already in canonical compressed form.
    pub fn from_normalized_point(point: Vec<u8>, compressed: bool) -> (r: Self)
        requires
            point_valid(point@),
            point@.len() == 33,
            point_norm_of(point@) == point@,
        ensures
            r.public_key@ == point@,
            r.compressed == compressed,
            r.wf(),
    {
        Self { public_key: point, compressed }
    }

    /// Normalizes and wraps any valid curve point encoding.
    pub fn from_secp256k1_public_key(public_key: &Vec<u8>, compressed: bool) -> (r: Option<
        Self,
    >)
        ensures
            r is Some <==> point_valid(public_key@),
            r matches Some(k) ==> k.public_key@ == point_norm_of(public_key@) && k.compressed
                == compressed && k.wf(),
    {
        match pubkey_parse(public_key) {
            Some(point) => Some(Self { public_key: point, compressed }),
            None => None,
        }
    }

    /// The public key of a private key, with its compression choice.
    pub fn from_private_key(private_key: &BitcoinPrivateKey) -> (r: Self)
        requires
            private_key.wf(),
        ensures
            r.point_spec() == crate::secp::pubkey_of(private_key.secret_spec()),
            r.compressed_spec() == private_key.compressed_spec(),
            r.wf(),
    {
        private_key.to_public_key()
    }

    /// The canonical compressed point bytes.
    pub fn to_secp256k1_public_key(&self) -> (r: Vec<u8>)
        ensures
            r@ == self.public_key@,
    {
        clone_bytes(&self.public_key)
    }

    pub fn is_compressed(&self) -> (r: bool)
        ensures
            r == self.compressed,
    {
        self.compressed
    }

    /// The serialization the key's compression choice selects: 33 compressed
    /// bytes or the 65-byte uncompressed form.
    pub fn serialize_chosen(&self) -> (r: Vec<u8>)
        requires
            self.wf(),
        ensures
            r@ == (if self.compressed {
                self.public_key@
            } else {
                uncompressed_of(self.public_key@)
            }),
            self.compressed ==> r@.len() == 33,
            !self.compressed ==> r@.len() == 65,
    {
        if self.compressed {
            clone_bytes(&self.public_key)
        } else {
            pubkey_uncompressed(&self.public_key)
        }
    }

    /// The compressed serialization, regardless of the compression choice.
    pub fn serialize_compressed(&self) -> (r: Vec<u8>)
        requires
            self.wf(),
        ensures
            r@ == self.public_key@,
            r@.len() == 33,
    {
        clone_bytes(&self.public_key)
    }
}

} // verus!
