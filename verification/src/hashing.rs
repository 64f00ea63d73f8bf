//! The hash primitives the wallet relies on, behind trusted wrappers:
//! SHA-256, RIPEMD-160, HMAC-SHA-512 and PBKDF2-HMAC-SHA-512.
use vstd::prelude::*;

use hmac::KeyInit;
use hmac::Mac;
use sha2::Digest;

verus! {

pub uninterp spec fn sha256_of(data: Seq<u8>) -> Seq<u8>;

pub uninterp spec fn ripemd160_of(data: Seq<u8>) -> Seq<u8>;

pub uninterp spec fn hmac_sha512_of(key: Seq<u8>, msg: Seq<u8>) -> Seq<u8>;

pub uninterp spec fn pbkdf2_sha512_of(password: Seq<u8>, salt: Seq<u8>, rounds: u32, len: nat) -> Seq<u8>;

/// Relies on sha2's `Sha256::digest`: a 32-byte digest depending on the
/// input bytes alone.
#[verifier::external_body]
pub fn sha256(data: &Vec<u8>) -> (r: Vec<u8>)
    ensures
        r@ == sha256_of(data@),
        r@.len() == 32,
{
    sha2::Sha256::digest(data.as_slice()).to_vec()
}

/// Relies on ripemd's `Ripemd160::digest`: a 20-byte digest depending on the
/// input bytes alone.
#[verifier::external_body]
pub fn ripemd160(data: &Vec<u8>) -> (r: Vec<u8>)
    ensures
        r@ == ripemd160_of(data@),
        r@.len() == 20,
{
    ripemd::Ripemd160::digest(data.as_slice()).to_vec()
}

/// Relies on hmac's `Hmac::<Sha512>`: a 64-byte code depending on the key
/// and message bytes alone; HMAC accepts keys of any length.
#[verifier::external_body]
pub fn hmac_sha512(key: &Vec<u8>, msg: &Vec<u8>) -> (r: Vec<u8>)
    ensures
        r@ == hmac_sha512_of(key@, msg@),
        r@.len() == 64,
{
    let mut mac = hmac::Hmac::<sha2::Sha512>::new_from_slice(key.as_slice()).unwrap();
    mac.update(msg.as_slice());
    mac.finalize().into_bytes().to_vec()
}

/// Relies on pbkdf2's `pbkdf2_hmac::<Sha512>`: fills the output with key
/// material depending on the password, salt, and round count alone.
#[verifier::external_body]
pub fn pbkdf2_sha512(password: &Vec<u8>, salt: &Vec<u8>, rounds: u32, out_len: usize) -> (r:
    Vec<u8>)
    ensures
        r@ == pbkdf2_sha512_of(password@, salt@, rounds, out_len as nat),
        r@.len() == out_len,
{
    let mut out = vec![0u8; out_len];
    pbkdf2::pbkdf2_hmac::<sha2::Sha512>(password.as_slice(), salt.as_slice(), rounds, &mut out);
    out
}

/// The double-SHA-256 checksum digest; callers take its first four bytes.
pub fn checksum(data: &Vec<u8>) -> (r: Vec<u8>)
    ensures
        r@ == sha256_of(sha256_of(data@)),
        r@.len() == 32,
{
    let first = sha256(data);
    sha256(&first)
}

/// RIPEMD-160 of SHA-256: the public-key and script hash of the wire formats.
pub open spec fn hash160_of(data: Seq<u8>) -> Seq<u8> {
    ripemd160_of(sha256_of(data))
}

pub fn hash160(bytes: &Vec<u8>) -> (r: Vec<u8>)
    ensures
        r@ == hash160_of(bytes@),
        r@.len() == 20,
{
    let first = sha256(bytes);
    ripemd160(&first)
}

} // verus!
