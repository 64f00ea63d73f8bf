//! The secp256k1 curve operations the wallet relies on, behind trusted
//! wrappers over plain byte strings: key validity, public-key derivation,
//! tweak addition for hierarchical derivation, and ECDSA signing.
use vstd::prelude::*;

verus! {

/// Whether 32 bytes encode a valid, nonzero secret scalar.
pub uninterp spec fn scalar_ok(sk: Seq<u8>) -> bool;

/// The 33-byte compressed public key of a secret scalar.
pub uninterp spec fn pubkey_of(sk: Seq<u8>) -> Seq<u8>;

/// Whether bytes parse as a curve point (compressed or uncompressed).
pub uninterp spec fn point_valid(p: Seq<u8>) -> bool;

/// The 33-byte compressed serialization of the point the bytes encode.
pub uninterp spec fn point_norm_of(p: Seq<u8>) -> Seq<u8>;

/// The 65-byte uncompressed serialization of the point the bytes encode.
pub uninterp spec fn uncompressed_of(p: Seq<u8>) -> Seq<u8>;

/// The scalar sum (mod the curve order) of two secret scalars.
pub uninterp spec fn scalar_add_of(a: Seq<u8>, b: Seq<u8>) -> Seq<u8>;

/// Whether the scalar sum is a valid, nonzero scalar.
pub uninterp spec fn scalar_add_ok(a: Seq<u8>, b: Seq<u8>) -> bool;

/// The compressed point `P + t·G` for a point `P` and tweak `t`.
pub uninterp spec fn point_add_of(p: Seq<u8>, t: Seq<u8>) -> Seq<u8>;

/// Whether `P + t·G` lands on a representable (non-infinity) point.
pub uninterp spec fn point_add_ok(p: Seq<u8>, t: Seq<u8>) -> bool;

/// The DER-encoded deterministic ECDSA signature of a 32-byte digest.
pub uninterp spec fn ecdsa_sig_of(digest: Seq<u8>, sk: Seq<u8>) -> Seq<u8>;

/// Relies on libsecp256k1's `SecretKey::parse_slice`: succeeds exactly on a
/// 32-byte, in-range, nonzero scalar.
#[verifier::external_body]
pub fn secret_key_valid(sk: &Vec<u8>) -> (r: bool)
    ensures
        r == scalar_ok(sk@),
        r ==> sk@.len() == 32,
{
    libsecp256k1::SecretKey::parse_slice(sk.as_slice()).is_ok()
}

/// Relies on libsecp256k1's `PublicKey::from_secret_key` and
/// `serialize_compressed`: the compressed public key is a function of the
/// secret scalar alone, and parses back to the same point.
#[verifier::external_body]
pub fn pubkey_from_secret(sk: &Vec<u8>) -> (r: Vec<u8>)
    requires
        scalar_ok(sk@),
    ensures
        r@ == pubkey_of(sk@),
        r@.len() == 33,
        point_valid(r@),
        point_norm_of(r@) == r@,
{
    let secret = libsecp256k1::SecretKey::parse_slice(sk.as_slice()).unwrap();
    libsecp256k1::PublicKey::from_secret_key(&secret).serialize_compressed().to_vec()
}

/// Relies on libsecp256k1's `PublicKey::parse_slice` and
/// `serialize_compressed`: parsing accepts exactly the byte strings that
/// encode a curve point, and compressed serialization is canonical.
#[verifier::external_body]
pub fn pubkey_parse(p: &Vec<u8>) -> (r: Option<Vec<u8>>)
    ensures
        r is Some <==> point_valid(p@),
        r matches Some(q) ==> q@ == point_norm_of(p@) && q@.len() == 33 && point_valid(q@)
            && point_norm_of(q@) == q@,
{
    match libsecp256k1::PublicKey::parse_slice(p.as_slice(), None) {
        Ok(point) => Some(point.serialize_compressed().to_vec()),
        Err(_) => None,
    }
}

/// Relies on libsecp256k1's `PublicKey::serialize`: the 65-byte uncompressed
/// form of the same point.
#[verifier::external_body]
pub fn pubkey_uncompressed(p: &Vec<u8>) -> (r: Vec<u8>)
    requires
        point_valid(p@),
    ensures
        r@ == uncompressed_of(p@),
        r@.len() == 65,
{
    let point = libsecp256k1::PublicKey::parse_slice(p.as_slice(), None).unwrap();
    point.serialize().to_vec()
}

/// Relies on libsecp256k1's `SecretKey::tweak_add_assign`: adds two scalars
/// mod the curve order, failing exactly when the tweak is invalid or the sum
/// is zero.
#[verifier::external_body]
pub fn secret_tweak_add(il: &Vec<u8>, sk: &Vec<u8>) -> (r: Option<Vec<u8>>)
    requires
        scalar_ok(sk@),
    ensures
        r is Some <==> (scalar_ok(il@) && scalar_add_ok(il@, sk@)),
        r matches Some(k) ==> k@ == scalar_add_of(il@, sk@) && scalar_ok(k@) && k@.len()
            == 32,
{
    let mut child = match libsecp256k1::SecretKey::parse_slice(il.as_slice()) {
        Ok(k) => k,
        Err(_) => {
            return None;
        },
    };
    let parent = libsecp256k1::SecretKey::parse_slice(sk.as_slice()).unwrap();
    match child.tweak_add_assign(&parent) {
        Ok(()) => Some(child.serialize().to_vec()),
        Err(_) => None,
    }
}

/// Relies on libsecp256k1's `PublicKey::tweak_add_assign`: adds `t·G` to the
/// point, failing exactly when the tweak is invalid or the sum is the point
/// at infinity.
#[verifier::external_body]
pub fn point_tweak_add(p: &Vec<u8>, il: &Vec<u8>) -> (r: Option<Vec<u8>>)
    requires
        point_valid(p@),
    ensures
        r is Some <==> (scalar_ok(il@) && point_add_ok(p@, il@)),
        r matches Some(q) ==> q@ == point_add_of(p@, il@) && q@.len() == 33 && point_valid(
            q@,
        ) && point_norm_of(q@) == q@,
{
    let tweak = match libsecp256k1::SecretKey::parse_slice(il.as_slice()) {
        Ok(k) => k,
        Err(_) => {
            return None;
        },
    };
    let mut point = libsecp256k1::PublicKey::parse_slice(p.as_slice(), None).unwrap();
    match point.tweak_add_assign(&tweak) {
        Ok(()) => Some(point.serialize_compressed().to_vec()),
        Err(_) => None,
    }
}

/// Relies on libsecp256k1's `sign` and `Signature::serialize_der`: signing is
/// deterministic (RFC 6979), and a DER signature spans 8 to 72 bytes.
#[verifier::external_body]
pub fn ecdsa_sign_der(digest: &Vec<u8>, sk: &Vec<u8>) -> (r: Vec<u8>)
    requires
        digest@.len() == 32,
        scalar_ok(sk@),
    ensures
        r@ == ecdsa_sig_of(digest@, sk@),
        8 <= r@.len() <= 72,
{
    let message = libsecp256k1::Message::parse_slice(digest.as_slice()).unwrap();
    let secret = libsecp256k1::SecretKey::parse_slice(sk.as_slice()).unwrap();
    let (signature, _) = libsecp256k1::sign(&message, &secret);
    signature.serialize_der().as_ref().to_vec()
}

} // verus!
