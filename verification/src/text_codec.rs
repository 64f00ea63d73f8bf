//! The checksummed text encodings the wallet relies on, behind trusted
//! wrappers: Base58 and Bech32 (BIP-173).
use vstd::prelude::*;

use base58::FromBase58;
use base58::ToBase58;
use bech32::FromBase32;
use bech32::ToBase32;

verus! {

/// The Base58 rendering of a byte string.
pub uninterp spec fn base58_of(data: Seq<u8>) -> Seq<char>;

/// The byte string a Base58 rendering denotes.
pub uninterp spec fn base58_bytes_of(s: Seq<char>) -> Seq<u8>;

/// Whether `c` belongs to the Base58 alphabet (no `0`, `O`, `I`, or `l`).
pub open spec fn is_base58_char(c: char) -> bool {
    (('1' as int) <= c as int <= ('9' as int)) || (('A' as int) <= c as int <= ('Z' as int)
        && c != 'I' && c != 'O') || (('a' as int) <= c as int <= ('z' as int) && c != 'l')
}

/// Relies on base58's `ToBase58`: the rendering is a function of the bytes,
/// decodes back to them, uses only alphabet characters, and spans at least
/// one character per byte and at most the encoder's own 138% buffer bound.
#[verifier::external_body]
pub fn base58_encode(data: &Vec<u8>) -> (r: String)
    ensures
        r@ == base58_of(data@),
        base58_bytes_of(r@) == data@,
        data@.len() <= r@.len(),
        r@.len() <= (data@.len() * 138) / 100 + 1,
        forall|i: int| 0 <= i < r@.len() ==> is_base58_char(r@[i]),
{
    data.as_slice().to_base58()
}

/// Relies on base58's `FromBase58`: decoding succeeds exactly on strings of
/// alphabet characters, inverts the rendering, and yields at most one byte
/// per character. The decoder works in a fixed 132-byte buffer, so inputs
/// are bounded to 132 characters, within which the decoded length (at most
/// one byte per character) always fits.
#[verifier::external_body]
pub fn base58_decode(s: &str) -> (r: Option<Vec<u8>>)
    requires
        s@.len() <= 132,
    ensures
        r is Some <==> (forall|i: int| 0 <= i < s@.len() ==> is_base58_char(s@[i])),
        r matches Some(b) ==> b@ == base58_bytes_of(s@) && s@ == base58_of(b@) && b@.len()
            <= s@.len(),
{
    match s.from_base58() {
        Ok(b) => Some(b),
        Err(_) => None,
    }
}

/// The number of base-32 characters that `n` bytes occupy.
pub open spec fn base32_len(n: nat) -> int {
    (8 * (n as int) + 4) / 5
}

/// The Bech32 rendering of a witness version and program under a
/// human-readable prefix.
pub uninterp spec fn bech32_addr_of(hrp: Seq<char>, version: u8, program: Seq<u8>) -> Seq<char>;

/// Whether a string carries a valid Bech32 (BIP-173) checksum and shape.
pub uninterp spec fn bech32_valid(s: Seq<char>) -> bool;

/// The lowercase human-readable prefix of a valid Bech32 string.
pub uninterp spec fn bech32_hrp_of(s: Seq<char>) -> Seq<char>;

/// The witness version (first data value) of a valid Bech32 string.
pub uninterp spec fn bech32_ver_of(s: Seq<char>) -> u8;

/// The witness program bytes of a valid Bech32 string.
pub uninterp spec fn bech32_prog_of(s: Seq<char>) -> Seq<u8>;

/// Relies on bech32's `encode` with the BIP-173 variant, `ToBase32`, and
/// `u5::try_from_u8`: a lowercase prefix of at most 83 characters (the
/// crate's prefix bound) encodes to
/// `hrp ∥ '1' ∥ version ∥ base-32 program ∥ six checksum characters`,
/// which `decode` accepts and splits back into the same parts.
#[verifier::external_body]
pub fn bech32_encode(hrp: &str, version: u8, program: &Vec<u8>) -> (r: String)
    requires
        version < 32,
        1 <= hrp@.len() <= 83,
        forall|i: int| 0 <= i < hrp@.len() ==> ('a' as int) <= (#[trigger] hrp@[i]) as int
            <= ('z' as int),
    ensures
        r@ == bech32_addr_of(hrp@, version, program@),
        r@.len() == hrp@.len() + 8 + base32_len(program@.len()),
        forall|i: int| 0 <= i < hrp@.len() ==> r@[i] == hrp@[i],
        bech32_valid(r@),
        bech32_hrp_of(r@) == hrp@,
        bech32_ver_of(r@) == version,
        bech32_prog_of(r@) == program@,
{
    let mut data = vec![bech32::u5::try_from_u8(version).unwrap()];
    data.extend(program.as_slice().to_base32());
    bech32::encode(hrp, data, bech32::Variant::Bech32).unwrap()
}

/// Relies on bech32's `decode` and `FromBase32`: succeeds exactly on valid
/// BIP-173 strings with a nonempty data part whose base-32 payload unpacks
/// to whole bytes, returning the lowercase prefix, the version, and the
/// program.
#[verifier::external_body]
pub fn bech32_decode(s: &str) -> (r: Option<(String, u8, Vec<u8>)>)
    ensures
        r is Some <==> bech32_valid(s@),
        r matches Some(p) ==> p.0@ == bech32_hrp_of(s@) && p.1 == bech32_ver_of(s@) && p.2@
            == bech32_prog_of(s@) && p.1 < 32,
{
    match bech32::decode(s) {
        Ok((hrp, data, bech32::Variant::Bech32)) => {
            if data.is_empty() {
                return None;
            }
            let version = data[0].to_u8();
            match Vec::<u8>::from_base32(&data[1..]) {
                Ok(program) => Some((hrp, version, program)),
                Err(_) => None,
            }
        },
        _ => None,
    }
}

} // verus!
