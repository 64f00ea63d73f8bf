//! BIP39 mnemonic phrases: entropy-to-phrase encoding with a SHA-256
//! checksum, strict phrase parsing by re-encoding, and PBKDF2 seed
//! stretching.
use vstd::prelude::*;

use crate::extended_private_key::BitcoinExtendedPrivateKey;
use crate::extended_private_key::ExtendedPrivateKeyError;
use crate::extended_public_key::BitcoinExtendedPublicKey;
use crate::format::BitcoinFormat;
use crate::hashing::pbkdf2_sha512;
use crate::hashing::pbkdf2_sha512_of;
use crate::hashing::sha256;
use crate::hashing::sha256_of;
use crate::text::join_chars;
use crate::text::split_chars;
use crate::text::split_str;
use crate::text::join_str;
use crate::wordlist::Wordlist;
use crate::wordlist::WordlistError;
use crate::wordlist::word_position;
use crate::wordlist::wordlist_wf;

verus! {

#[derive(Debug, Clone, PartialEq, Eq)]
pub enum MnemonicError {
    AddressError(crate::address::AddressError),
    ExtendedPrivateKeyError(ExtendedPrivateKeyError),
    InvalidDecoding,
    InvalidEntropyLength(usize),
    InvalidIndex(usize),
    InvalidPhrase(String),
    InvalidWord(String),
    InvalidWordCount(u8),
    WordlistError(WordlistError),
}

/// A mnemonic: the entropy it encodes.
#[derive(Debug, Clone, PartialEq, Eq)]
pub struct BitcoinMnemonic {
    pub entropy: Vec<u8>,
}

/// Two raised to `n`.
pub open spec fn p2(n: nat) -> int
    decreases n,
{
    if n == 0 {
        1
    } else {
        2 * p2((n - 1) as nat)
    }
}

pub proof fn lemma_p2_values()
    ensures
        p2(0) == 1,
        p2(1) == 2,
        p2(2) == 4,
        p2(3) == 8,
        p2(4) == 16,
        p2(5) == 32,
        p2(6) == 64,
        p2(7) == 128,
        p2(8) == 256,
        p2(9) == 512,
        p2(10) == 1024,
        p2(11) == 2048,
{
    assert(p2(11) == 2 * p2(10));
    assert(p2(10) == 2 * p2(9));
    assert(p2(9) == 2 * p2(8));
    assert(p2(8) == 2 * p2(7));
    assert(p2(7) == 2 * p2(6));
    assert(p2(6) == 2 * p2(5));
    assert(p2(5) == 2 * p2(4));
    assert(p2(4) == 2 * p2(3));
    assert(p2(3) == 2 * p2(2));
    assert(p2(2) == 2 * p2(1));
    assert(p2(1) == 2 * p2(0));
    assert(p2(0) == 1);
}

/// Bit `k` of a byte, most significant first.
pub open spec fn bit_of(b: u8, k: int) -> bool {
    ((b as int) / p2((7 - k) as nat)) % 2 == 1
}

/// The bits of the entropy, each byte most significant first.
pub open spec fn entropy_bits(e: Seq<u8>) -> Seq<bool> {
    Seq::new((e.len() * 8) as nat, |i: int| bit_of(e[i / 8], i % 8))
}

/// The checksum bits: the first quarter-byte-count bits of the entropy's
/// SHA-256.
pub open spec fn checksum_bits(e: Seq<u8>) -> Seq<bool> {
    Seq::new((e.len() / 4) as nat, |k: int| bit_of(sha256_of(e)[0], k))
}

pub open spec fn full_bits(e: Seq<u8>) -> Seq<bool> {
    entropy_bits(e) + checksum_bits(e)
}

/// The value of a bit string, most significant first.
pub open spec fn bits_val(bs: Seq<bool>) -> int
    decreases bs.len(),
{
    if bs.len() == 0 {
        0
    } else {
        bits_val(bs.drop_last()) * 2 + (if bs.last() {
            1int
        } else {
            0int
        })
    }
}

pub proof fn lemma_bits_val_bound(bs: Seq<bool>)
    ensures
        0 <= bits_val(bs) < p2(bs.len()),
    decreases bs.len(),
{
    if bs.len() > 0 {
        lemma_bits_val_bound(bs.drop_last());
    }
}

/// The supported entropy byte lengths.
pub open spec fn valid_entropy_len(n: nat) -> bool {
    n == 16 || n == 20 || n == 24 || n == 28 || n == 32
}

/// The number of phrase words an entropy length yields.
pub open spec fn word_count_of(n: nat) -> int {
    ((n as int) / 4) * 3
}

/// The table index of word `w` of the phrase: eleven bits of the
/// checksummed entropy.
pub open spec fn word_index_at(e: Seq<u8>, w: int) -> int {
    bits_val(full_bits(e).subrange(11 * w, 11 * w + 11))
}

/// The phrase's words, in order.
pub open spec fn phrase_words(e: Seq<u8>, ws: Seq<Seq<char>>) -> Seq<Seq<char>> {
    Seq::new(word_count_of(e.len()) as nat, |w: int| ws[word_index_at(e, w)])
}

/// The phrase: the words joined with single spaces.
pub open spec fn phrase_of(e: Seq<u8>, ws: Seq<Seq<char>>) -> Seq<char> {
    join_chars(phrase_words(e, ws), seq![' '])
}

/// The eleven bits of a table index, most significant first.
pub open spec fn index_bits11(v: int) -> Seq<bool> {
    Seq::new(11, |t: int| (v / p2((10 - t) as nat)) % 2 == 1)
}

/// The table positions of a phrase's split words.
pub open spec fn split_positions(ps: Seq<Seq<char>>, ws: Seq<Seq<char>>) -> Seq<int> {
    Seq::new(ps.len(), |k: int| word_position(ws, ps[k]))
}

/// The bit stream the word positions pack, eleven bits per word.
pub open spec fn positions_bits(idxs: Seq<int>) -> Seq<bool> {
    Seq::new((idxs.len() * 11) as nat, |i: int| index_bits11(idxs[i / 11])[i % 11])
}

/// The entropy bytes repacked from the leading bits of the stream.
pub open spec fn packed_entropy(bs: Seq<bool>, elen: int) -> Seq<u8> {
    Seq::new(elen as nat, |i: int| bits_val(bs.subrange(8 * i, 8 * i + 8)) as u8)
}

/// The entropy byte length a word count implies, or zero if unsupported.
pub open spec fn phrase_entropy_len(c: int) -> int {
    if c == 12 {
        16
    } else if c == 15 {
        20
    } else if c == 18 {
        24
    } else if c == 21 {
        28
    } else if c == 24 {
        32
    } else {
        0
    }
}

/// The entropy a phrase's words repack to.
pub open spec fn phrase_entropy(s: Seq<char>, ws: Seq<Seq<char>>) -> Seq<u8> {
    let parts = split_chars(s, ' ');
    packed_entropy(
        positions_bits(split_positions(parts, ws)),
        phrase_entropy_len(parts.len() as int),
    )
}

/// What phrase parsing accepts: a supported word count, every word in the
/// table, and a phrase that is exactly the rendering of its own repacked
/// entropy.
pub open spec fn phrase_accepted(s: Seq<char>, ws: Seq<Seq<char>>) -> bool {
    let parts = split_chars(s, ' ');
    let c = parts.len() as int;
    &&& phrase_entropy_len(c) != 0
    &&& (forall|k: int| 0 <= k < c ==> #[trigger] word_position(ws, parts[k]) < 2048)
    &&& s == phrase_of(phrase_entropy(s, ws), ws)
}

/// Bit `k` of a byte, most significant first.
fn byte_bit(b: u8, k: usize) -> (r: bool)
    requires
        k < 8,
    ensures
        r == bit_of(b, k as int),
{
    let d: u8 = if k == 0 {
        128
    } else if k == 1 {
        64
    } else if k == 2 {
        32
    } else if k == 3 {
        16
    } else if k == 4 {
        8
    } else if k == 5 {
        4
    } else if k == 6 {
        2
    } else {
        1
    };
    proof {
        lemma_p2_values();
    }
    (b / d) % 2 == 1
}

/// Bit `t` of an eleven-bit index, most significant first.
fn index_bit(v: u16, t: usize) -> (r: bool)
    requires
        t < 11,
        v < 2048,
    ensures
        r == (((v as int) / p2((10 - t) as nat)) % 2 == 1),
{
    let d: u16 = if t == 0 {
        1024
    } else if t == 1 {
        512
    } else if t == 2 {
        256
    } else if t == 3 {
        128
    } else if t == 4 {
        64
    } else if t == 5 {
        32
    } else if t == 6 {
        16
    } else if t == 7 {
        8
    } else if t == 8 {
        4
    } else if t == 9 {
        2
    } else {
        1
    };
    proof {
        lemma_p2_values();
    }
    (v / d) % 2 == 1
}

impl BitcoinMnemonic {
    pub open spec fn wf(self) -> bool {
        valid_entropy_len(self.entropy@.len())
    }

    /// Wraps the first sixteen of the supplied random bytes as entropy.
    pub fn new(random_bytes: &Vec<u8>) -> (r: Result<Self, MnemonicError>)
        requires
            random_bytes@.len() >= 16,
        ensures
            r matches Ok(m) && m.entropy@ == random_bytes@.take(16) && m.wf(),
    {
        let entropy = crate::transaction::copy_range(random_bytes, 0, 16);
        proof {
            assert(random_bytes@.subrange(0, 16) =~= random_bytes@.take(16));
        }
        Ok(Self { entropy })
    }

    /// Wraps a word-count-sized prefix of the supplied random bytes as
    /// entropy: twelve to twenty-four words in steps of three.
    pub fn new_with_count(random_bytes: &Vec<u8>, word_count: u8) -> (r: Result<
        Self,
        MnemonicError,
    >)
        requires
            random_bytes@.len() >= 32,
        ensures
            ({
                let len: int = (if word_count == 12 {
                    16int
                } else if word_count == 15 {
                    20int
                } else if word_count == 18 {
                    24int
                } else if word_count == 21 {
                    28int
                } else if word_count == 24 {
                    32int
                } else {
                    0int
                });
                if len == 0 {
                    r == Err::<BitcoinMnemonic, MnemonicError>(
                        MnemonicError::InvalidWordCount(word_count),
                    )
                } else {
                    r matches Ok(m) && m.entropy@ == random_bytes@.take(len) && m.wf()
                }
            }),
    {
        let length: usize = match word_count {
            12 => 16,
            15 => 20,
            18 => 24,
            21 => 28,
            24 => 32,
            _ => {
                return Err(MnemonicError::InvalidWordCount(word_count));
            },
        };
        let entropy = crate::transaction::copy_range(random_bytes, 0, length);
        proof {
            assert(random_bytes@.subrange(0, length as int) =~= random_bytes@.take(
                length as int,
            ));
        }
        Ok(Self { entropy })
    }

    /// Renders the phrase: checksummed entropy bits, eleven at a time,
    /// looked up in the word table and joined with spaces.
    pub fn to_phrase(&self, wordlist: &Wordlist) -> (r: Result<String, MnemonicError>)
        requires
            wordlist.wf(),
        ensures
            valid_entropy_len(self.entropy@.len()) ==> (r matches Ok(s) && s@ == phrase_of(
                self.entropy@,
                wordlist.words.deep_view(),
            )),
            !valid_entropy_len(self.entropy@.len()) ==> r == Err::<String, MnemonicError>(
                MnemonicError::InvalidEntropyLength(self.entropy@.len() as usize),
            ),
    {
        let elen: usize = self.entropy.len();
        let word_count: usize = match elen {
            16 => 12,
            20 => 15,
            24 => 18,
            28 => 21,
            32 => 24,
            _ => {
                return Err(MnemonicError::InvalidEntropyLength(elen));
            },
        };
        let ghost e = self.entropy@;
        let ghost ws = wordlist.words.deep_view();
        let mut bits: Vec<bool> = Vec::new();
        let mut i: usize = 0;
        proof {
            assert(bits@ =~= entropy_bits(e).take(0));
        }
        while i < elen
            invariant
                i <= elen,
                elen == e.len(),
                self.entropy@ == e,
                bits@ == entropy_bits(e).take(8 * i),
            decreases elen - i,
        {
            let b: u8 = self.entropy[i];
            let mut k: usize = 0;
            while k < 8
                invariant
                    k <= 8,
                    i < elen == e.len(),
                    self.entropy@ == e,
                    b == e[i as int],
                    bits@ == entropy_bits(e).take(8 * i + k),
                decreases 8 - k,
            {
                let bitv = byte_bit(b, k);
                proof {
                    let pos = 8 * i + k;
                    assert(entropy_bits(e)[pos as int] == bit_of(
                        e[pos as int / 8],
                        pos as int % 8,
                    ));
                    assert(pos as int / 8 == i as int && pos as int % 8 == k as int);
                    assert(bits@ + seq![bitv] =~= entropy_bits(e).take(pos + 1));
                }
                bits.push(bitv);
                k = k + 1;
            }
            i = i + 1;
        }
        proof {
            assert(entropy_bits(e).take(8 * elen) =~= entropy_bits(e));
        }
        let digest = sha256(&self.entropy);
        let check_count: usize = elen / 4;
        let hash0: u8 = digest[0];
        let mut k: usize = 0;
        while k < check_count
            invariant
                k <= check_count,
                check_count == e.len() / 4,
                check_count <= 8,
                self.entropy@ == e,
                hash0 == sha256_of(e)[0],
                bits@ == entropy_bits(e) + checksum_bits(e).take(k as int),
            decreases check_count - k,
        {
            let bitv = byte_bit(hash0, k);
            proof {
                assert(checksum_bits(e)[k as int] == bit_of(sha256_of(e)[0], k as int));
                assert(bits@ + seq![bitv] =~= entropy_bits(e) + checksum_bits(e).take(
                    k + 1,
                ));
            }
            bits.push(bitv);
            k = k + 1;
        }
        proof {
            assert(checksum_bits(e).take((e.len() / 4) as int) =~= checksum_bits(e));
            assert(bits@ =~= full_bits(e));
            assert(full_bits(e).len() == 11 * word_count);
        }
        let mut words: Vec<String> = Vec::new();
        let mut w: usize = 0;
        proof {
            assert(words.deep_view() =~~= phrase_words(e, ws).take(0));
        }
        while w < word_count
            invariant
                w <= word_count,
                word_count <= 24,
                word_count == word_count_of(e.len()),
                bits@ == full_bits(e),
                bits@.len() == 11 * word_count,
                self.entropy@ == e,
                ws == wordlist.words.deep_view(),
                wordlist.wf(),
                words.deep_view() == phrase_words(e, ws).take(w as int),
            decreases word_count - w,
        {
            let ghost chunk = full_bits(e).subrange(11 * w, 11 * w + 11);
            let mut acc: u16 = 0;
            let mut t: usize = 0;
            proof {
                assert(chunk.take(0) =~= Seq::<bool>::empty());
                lemma_p2_values();
            }
            while t < 11
                invariant
                    t <= 11,
                    w < word_count <= 24,
                    bits@ == full_bits(e),
                    bits@.len() == 11 * word_count,
                    chunk == full_bits(e).subrange(11 * w, 11 * w + 11),
                    acc == bits_val(chunk.take(t as int)),
                    acc < 2048,
                decreases 11 - t,
            {
                let bitv: bool = bits[11 * w + t];
                proof {
                    assert(chunk[t as int] == bits@[11 * w + t]);
                    assert(chunk.take(t + 1).drop_last() =~= chunk.take(t as int));
                    assert(chunk.take(t + 1).last() == chunk[t as int]);
                    lemma_bits_val_bound(chunk.take(t + 1));
                    lemma_p2_values();
                    crate::mnemonic::lemma_p2_mono((t + 1) as nat, 11);
                }
                acc = acc * 2 + (if bitv {
                    1
                } else {
                    0
                });
                t = t + 1;
            }
            proof {
                assert(chunk.take(11) =~= chunk);
                assert(acc == word_index_at(e, w as int));
            }
            let word = match wordlist.get(acc as usize) {
                Ok(s) => s,
                Err(_) => {
                    proof {
                        assert(false);
                    }
                    return Err(MnemonicError::InvalidIndex(acc as usize));
                },
            };
            let ghost prev = words.deep_view();
            words.push(word);
            proof {
                assert(words.deep_view() =~~= prev + seq![word@]);
                assert(phrase_words(e, ws).take(w + 1) =~~= phrase_words(e, ws).take(
                    w as int,
                ) + seq![phrase_words(e, ws)[w as int]]);
                assert(words.deep_view() =~~= phrase_words(e, ws).take(w + 1));
            }
            w = w + 1;
        }
        proof {
            assert(phrase_words(e, ws).take(word_count as int) =~~= phrase_words(e, ws));
            reveal_strlit(" ");
            assert((" ")@ =~= seq![' ']);
        }
        Ok(join_str(&words, " "))
    }

    /// Parses a phrase: splits it into words, maps each to its table index,
    /// repacks the leading bits as entropy, and accepts exactly when the
    /// re-rendered phrase equals the input.
    pub fn from_phrase(phrase: &str, wordlist: &Wordlist) -> (r: Result<Self, MnemonicError>)
        requires
            wordlist.wf(),
        ensures
            r is Ok <==> phrase_accepted(phrase@, wordlist.words.deep_view()),
            r matches Ok(m) ==> m.entropy@ == phrase_entropy(
                phrase@,
                wordlist.words.deep_view(),
            ) && m.wf() && phrase_of(m.entropy@, wordlist.words.deep_view()) == phrase@,
            phrase_entropy_len(split_chars(phrase@, ' ').len() as int) == 0 ==> (r matches Err(
                MnemonicError::InvalidWordCount(_),
            )),
            r matches Err(MnemonicError::InvalidPhrase(s2)) ==> s2@ == phrase@,
    {
        let ghost ws = wordlist.words.deep_view();
        let parts: Vec<String> = split_str(phrase, ' ');
        let count: usize = parts.len();
        let elen: usize = match count {
            12 => 16,
            15 => 20,
            18 => 24,
            21 => 28,
            24 => 32,
            _ => {
                // the reported count saturates at the payload's width
                let reported: u8 = if count > 255 {
                    255
                } else {
                    #[verifier::truncate] (count as u8)
                };
                return Err(MnemonicError::InvalidWordCount(reported));
            },
        };
        let ghost positions = split_positions(parts.deep_view(), ws);
        let mut indices: Vec<u16> = Vec::new();
        let mut i: usize = 0;
        proof {
            assert(positions.len() == count);
        }
        while i < count
            invariant
                i <= count,
                count == parts@.len(),
                parts.deep_view() == split_chars(phrase@, ' '),
                positions == split_positions(parts.deep_view(), ws),
                count == 12 || count == 15 || count == 18 || count == 21 || count == 24,
                elen as int == phrase_entropy_len(count as int),
                wordlist.wf(),
                ws == wordlist.words.deep_view(),
                indices@.len() == i,
                forall|k: int|
                    0 <= k < i ==> #[trigger] indices@[k] == positions[k] && indices@[k]
                        < 2048,
            decreases count - i,
        {
            let idx: usize = match wordlist.get_index(parts[i].as_str()) {
                Ok(x) => x,
                Err(WordlistError::InvalidWord(w)) => {
                    proof {
                        assert(parts.deep_view()[i as int] == parts@[i as int]@);
                        assert(word_position(ws, parts.deep_view()[i as int]) >= 2048);
                        assert(!phrase_accepted(phrase@, ws));
                    }
                    return Err(MnemonicError::InvalidWord(w));
                },
                Err(e) => {
                    proof {
                        assert(false);
                    }
                    return Err(MnemonicError::WordlistError(e));
                },
            };
            proof {
                crate::wordlist::lemma_word_position(ws, parts@[i as int]@);
                assert(parts.deep_view()[i as int] == parts@[i as int]@);
                assert(positions[i as int] == idx as int);
            }
            indices.push(idx as u16);
            i = i + 1;
        }
        let ghost all_bits = positions_bits(positions);
        let mut bits: Vec<bool> = Vec::new();
        let mut w: usize = 0;
        proof {
            assert(all_bits.len() == 11 * count);
        }
        while w < count
            invariant
                w <= count,
                count == indices@.len(),
                count <= 24,
                count == parts@.len(),
                wordlist.wf(),
                ws == wordlist.words.deep_view(),
                parts.deep_view() == split_chars(phrase@, ' '),
                positions == split_positions(parts.deep_view(), ws),
                elen as int == phrase_entropy_len(count as int),
                elen == 16 || elen == 20 || elen == 24 || elen == 28 || elen == 32,
                positions.len() == count,
                all_bits == positions_bits(positions),
                all_bits.len() == 11 * count,
                forall|k: int|
                    0 <= k < count ==> #[trigger] indices@[k] == positions[k] && indices@[k]
                        < 2048,
                bits@ == all_bits.take(11 * w),
            decreases count - w,
        {
            let v: u16 = indices[w];
            let mut t: usize = 0;
            while t < 11
                invariant
                    t <= 11,
                    w < count == indices@.len(),
                    count <= 24,
                    positions.len() == count,
                    all_bits == positions_bits(positions),
                    all_bits.len() == 11 * count,
                    forall|k: int|
                        0 <= k < count ==> #[trigger] indices@[k] == positions[k]
                            && indices@[k] < 2048,
                    v == indices@[w as int],
                    v < 2048,
                    bits@ == all_bits.take(11 * w + t),
                decreases 11 - t,
            {
                let bitv = index_bit(v, t);
                proof {
                    let posn = 11 * w + t;
                    assert(all_bits[posn as int] == index_bits11(positions[posn as int
                        / 11])[posn as int % 11]);
                    assert(posn as int / 11 == w as int && posn as int % 11 == t as int);
                    assert(index_bits11(positions[w as int])[t as int] == ((v as int) / p2(
                        (10 - t) as nat,
                    ) % 2 == 1));
                    assert(bits@ + seq![bitv] =~= all_bits.take(posn + 1));
                }
                bits.push(bitv);
                t = t + 1;
            }
            w = w + 1;
        }
        proof {
            assert(all_bits.take(11 * count) =~= all_bits);
        }
        let ghost packed = packed_entropy(all_bits, elen as int);
        let mut entropy: Vec<u8> = Vec::new();
        let mut b: usize = 0;
        proof {
            assert(packed.len() == elen);
            assert(11 * count >= 8 * elen);
            assert forall|k: int| 0 <= k < positions.len() implies #[trigger] positions[k]
                < 2048 by {
                assert(indices@[k] == positions[k]);
            }
        }
        while b < elen
            invariant
                b <= elen,
                elen <= 32,
                bits@ == all_bits,
                8 * elen <= all_bits.len(),
                packed == packed_entropy(all_bits, elen as int),
                packed.len() == elen,
                entropy@ == packed.take(b as int),
                wordlist.wf(),
                ws == wordlist.words.deep_view(),
                parts.deep_view() == split_chars(phrase@, ' '),
                positions == split_positions(parts.deep_view(), ws),
                positions.len() == parts@.len(),
                all_bits == positions_bits(positions),
                elen as int == phrase_entropy_len(parts@.len() as int),
                elen == 16 || elen == 20 || elen == 24 || elen == 28 || elen == 32,
                forall|k: int| 0 <= k < positions.len() ==> #[trigger] positions[k] < 2048,
            decreases elen - b,
        {
            let ghost chunk = all_bits.subrange(8 * b, 8 * b + 8);
            let mut acc: u8 = 0;
            let mut t: usize = 0;
            proof {
                assert(chunk.take(0) =~= Seq::<bool>::empty());
                lemma_p2_values();
            }
            while t < 8
                invariant
                    t <= 8,
                    b < elen <= 32,
                    bits@ == all_bits,
                    8 * elen <= all_bits.len(),
                    chunk == all_bits.subrange(8 * b, 8 * b + 8),
                    acc == bits_val(chunk.take(t as int)),
                    (acc as int) < p2(t as nat),
                decreases 8 - t,
            {
                let bitv: bool = bits[8 * b + t];
                proof {
                    assert(chunk[t as int] == all_bits[8 * b + t]);
                    assert(chunk.take(t + 1).drop_last() =~= chunk.take(t as int));
                    assert(chunk.take(t + 1).last() == chunk[t as int]);
                    lemma_bits_val_bound(chunk.take(t + 1));
                    lemma_p2_values();
                    lemma_p2_mono((t + 1) as nat, 8);
                }
                acc = acc * 2 + (if bitv {
                    1
                } else {
                    0
                });
                t = t + 1;
            }
            proof {
                assert(chunk.take(8) =~= chunk);
                assert(packed[b as int] == bits_val(chunk) as u8);
                assert(entropy@ + seq![acc] =~= packed.take(b + 1));
            }
            entropy.push(acc);
            b = b + 1;
        }
        proof {
            assert(packed.take(elen as int) =~= packed);
        }
        let candidate = Self { entropy };
        proof {
            assert(candidate.entropy@ == phrase_entropy(phrase@, ws));
        }
        let rendered = match candidate.to_phrase(wordlist) {
            Ok(s2) => s2,
            Err(e) => {
                proof {
                    assert(false);
                }
                return Err(e);
            },
        };
        let supplied: String = String::from_str(phrase);
        if supplied == rendered {
            proof {
                let parts_s = split_chars(phrase@, ' ');
                assert forall|k: int|
                    0 <= k < parts_s.len() implies #[trigger] word_position(ws, parts_s[k])
                    < 2048 by {
                    assert(positions[k] == word_position(ws, parts.deep_view()[k]));
                    assert(positions[k] < 2048);
                }
                assert(phrase@ == phrase_of(phrase_entropy(phrase@, ws), ws));
                assert(phrase_accepted(phrase@, ws));
            }
            Ok(candidate)
        } else {
            proof {
                assert(phrase@ != phrase_of(phrase_entropy(phrase@, ws), ws));
                assert(!phrase_accepted(phrase@, ws));
            }
            Err(MnemonicError::InvalidPhrase(supplied))
        }
    }

    /// Whether a phrase parses under the table.
    pub fn verify_phrase(phrase: &str, wordlist: &Wordlist) -> (r: bool)
        requires
            wordlist.wf(),
        ensures
            r == phrase_accepted(phrase@, wordlist.words.deep_view()),
            r ==> (exists|e: Seq<u8>|
                valid_entropy_len(e.len()) && #[trigger] phrase_of(
                    e,
                    wordlist.words.deep_view(),
                ) == phrase@),
    {
        match Self::from_phrase(phrase, wordlist) {
            Ok(m) => {
                proof {
                    assert(valid_entropy_len(m.entropy@.len()) && phrase_of(
                        m.entropy@,
                        wordlist.words.deep_view(),
                    ) == phrase@);
                }
                true
            },
            Err(_) => false,
        }
    }

    /// Stretches the phrase into a 64-byte seed with PBKDF2-HMAC-SHA-512
    /// over the salt `mnemonic` followed by the password.
    pub fn to_seed(&self, password: Option<&str>, wordlist: &Wordlist) -> (r: Result<
        Vec<u8>,
        MnemonicError,
    >)
        requires
            wordlist.wf(),
        ensures
            valid_entropy_len(self.entropy@.len()) ==> (r matches Ok(seed) && seed@.len()
                == 64 && seed@ == pbkdf2_sha512_of(
                vstd::utf8::encode_utf8(
                    phrase_of(self.entropy@, wordlist.words.deep_view()),
                ),
                vstd::utf8::encode_utf8(
                    seq!['m', 'n', 'e', 'm', 'o', 'n', 'i', 'c'] + (match password {
                        Some(p) => p@,
                        None => Seq::<char>::empty(),
                    }),
                ),
                2048,
                64,
            )),
            !valid_entropy_len(self.entropy@.len()) ==> r matches Err(
                MnemonicError::InvalidEntropyLength(_),
            ),
    {
        let phrase = match self.to_phrase(wordlist) {
            Ok(s) => s,
            Err(e) => {
                return Err(e);
            },
        };
        proof {
            reveal_strlit("mnemonic");
            assert(("mnemonic")@ =~= seq!['m', 'n', 'e', 'm', 'o', 'n', 'i', 'c']);
        }
        let mut salt: String = String::from_str("mnemonic");
        match password {
            Some(p) => {
                salt.append(p);
            },
            None => {},
        }
        proof {
            assert(salt@ =~= seq!['m', 'n', 'e', 'm', 'o', 'n', 'i', 'c'] + (
            match password {
                Some(p) => p@,
                None => Seq::<char>::empty(),
            }));
        }
        let password_bytes = phrase.as_str().as_bytes_vec();
        let salt_bytes = salt.as_str().as_bytes_vec();
        let seed = pbkdf2_sha512(&password_bytes, &salt_bytes, 2048, 64);
        Ok(seed)
    }

    /// The master extended private key of the stretched seed.
    pub fn to_extended_private_key(&self, password: Option<&str>, wordlist: &Wordlist) -> (r:
        Result<BitcoinExtendedPrivateKey, MnemonicError>)
        requires
            wordlist.wf(),
        ensures
            r matches Ok(k) ==> k.wf(),
    {
        let seed = match self.to_seed(password, wordlist) {
            Ok(s) => s,
            Err(e) => {
                return Err(e);
            },
        };
        match BitcoinExtendedPrivateKey::new_master(&seed, &BitcoinFormat::P2PKH) {
            Ok(k) => Ok(k),
            Err(e) => Err(MnemonicError::ExtendedPrivateKeyError(e)),
        }
    }

    /// The bare private key of the stretched seed's master key.
    pub fn to_private_key(&self, password: Option<&str>, wordlist: &Wordlist) -> (r: Result<
        crate::private_key::BitcoinPrivateKey,
        MnemonicError,
    >)
        requires
            wordlist.wf(),
        ensures
            r matches Ok(k) ==> k.wf(),
    {
        let xprv = match self.to_extended_private_key(password, wordlist) {
            Ok(k) => k,
            Err(e) => {
                return Err(e);
            },
        };
        Ok(xprv.to_private_key())
    }

    /// The bare public key of the stretched seed's master key.
    pub fn to_public_key(&self, password: Option<&str>, wordlist: &Wordlist) -> (r: Result<
        crate::public_key::BitcoinPublicKey,
        MnemonicError,
    >)
        requires
            wordlist.wf(),
        ensures
            r matches Ok(k) ==> k.wf(),
    {
        let xprv = match self.to_extended_private_key(password, wordlist) {
            Ok(k) => k,
            Err(e) => {
                return Err(e);
            },
        };
        Ok(xprv.to_public_key())
    }

    /// The address of the stretched seed's master key in the requested
    /// format.
    pub fn to_address(
        &self,
        password: Option<&str>,
        format: &BitcoinFormat,
        wordlist: &Wordlist,
    ) -> (r: Result<crate::address::BitcoinAddress, MnemonicError>)
        requires
            wordlist.wf(),
        ensures
            r matches Ok(a) ==> a.format == *format,
    {
        let xprv = match self.to_extended_private_key(password, wordlist) {
            Ok(k) => k,
            Err(e) => {
                return Err(e);
            },
        };
        match xprv.to_address(format) {
            Ok(a) => Ok(a),
            Err(e) => Err(MnemonicError::AddressError(e)),
        }
    }

    /// The master extended public key of the stretched seed.
    pub fn to_extended_public_key(&self, password: Option<&str>, wordlist: &Wordlist) -> (r:
        Result<BitcoinExtendedPublicKey, MnemonicError>)
        requires
            wordlist.wf(),
        ensures
            r matches Ok(k) ==> k.wf(),
    {
        let xprv = match self.to_extended_private_key(password, wordlist) {
            Ok(k) => k,
            Err(e) => {
                return Err(e);
            },
        };
        Ok(xprv.to_extended_public_key())
    }
}

pub proof fn lemma_p2_mono(a: nat, b: nat)
    requires
        a <= b,
    ensures
        p2(a) <= p2(b),
    decreases b,
{
    if a < b {
        lemma_p2_mono(a, (b - 1) as nat);
        lemma_p2_pos((b - 1) as nat);
    }
}

pub proof fn lemma_p2_pos(n: nat)
    ensures
        p2(n) >= 1,
    decreases n,
{
    if n > 0 {
        lemma_p2_pos((n - 1) as nat);
    }
}


/// Equal-length bit strings with the same value are the same bits.
pub proof fn lemma_bits_val_injective(a: Seq<bool>, b: Seq<bool>)
    requires
        a.len() == b.len(),
        bits_val(a) == bits_val(b),
    ensures
        a == b,
    decreases a.len(),
{
    if a.len() == 0 {
        assert(a =~= b);
    } else {
        let va = bits_val(a.drop_last());
        let vb = bits_val(b.drop_last());
        let la: int = if a.last() {
            1
        } else {
            0
        };
        let lb: int = if b.last() {
            1
        } else {
            0
        };
        lemma_bits_val_bound(a.drop_last());
        lemma_bits_val_bound(b.drop_last());
        assert((2 * va + la) % 2 == la);
        assert((2 * vb + lb) % 2 == lb);
        assert(la == lb);
        assert(va == vb);
        lemma_bits_val_injective(a.drop_last(), b.drop_last());
        assert(a =~= a.drop_last() + seq![a.last()]);
        assert(b =~= b.drop_last() + seq![b.last()]);
        assert(a =~= b);
    }
}

/// Bytes whose eight quotient-parities agree are equal.
proof fn lemma_byte_bits_pin_arith(a: u8, b: u8)
    by (bit_vector)
    requires
        (a / 128) % 2 == (b / 128) % 2,
        (a / 64) % 2 == (b / 64) % 2,
        (a / 32) % 2 == (b / 32) % 2,
        (a / 16) % 2 == (b / 16) % 2,
        (a / 8) % 2 == (b / 8) % 2,
        (a / 4) % 2 == (b / 4) % 2,
        (a / 2) % 2 == (b / 2) % 2,
        a % 2 == b % 2,
    ensures
        a == b,
{
}

/// Bytes with identical bit decompositions are equal.
pub proof fn lemma_byte_bits_pin(a: u8, b: u8)
    requires
        forall|k: int| 0 <= k < 8 ==> bit_of(a, k) == bit_of(b, k),
    ensures
        a == b,
{
    lemma_p2_values();
    assert(bit_of(a, 0) == bit_of(b, 0) && bit_of(a, 1) == bit_of(b, 1) && bit_of(a, 2)
        == bit_of(b, 2) && bit_of(a, 3) == bit_of(b, 3) && bit_of(a, 4) == bit_of(b, 4)
        && bit_of(a, 5) == bit_of(b, 5) && bit_of(a, 6) == bit_of(b, 6) && bit_of(a, 7)
        == bit_of(b, 7));
    assert(((a as int) / 128) % 2 == ((b as int) / 128) % 2 && ((a as int) / 64) % 2 == ((
    b as int) / 64) % 2 && ((a as int) / 32) % 2 == ((b as int) / 32) % 2 && ((a as int) / 16)
        % 2 == ((b as int) / 16) % 2 && ((a as int) / 8) % 2 == ((b as int) / 8) % 2 && ((
    a as int) / 4) % 2 == ((b as int) / 4) % 2 && ((a as int) / 2) % 2 == ((b as int) / 2) % 2
        && ((a as int) / 1) % 2 == ((b as int) / 1) % 2) by {
        assert(forall|x: int| #![trigger x % 2] 0 <= x ==> (x % 2 == 0 || x % 2 == 1));
    }
    assert((a / 128) % 2 == (b / 128) % 2 && (a / 64) % 2 == (b / 64) % 2 && (a / 32) % 2 == (
    b / 32) % 2 && (a / 16) % 2 == (b / 16) % 2 && (a / 8) % 2 == (b / 8) % 2 && (a / 4) % 2
        == (b / 4) % 2 && (a / 2) % 2 == (b / 2) % 2 && a % 2 == b % 2);
    lemma_byte_bits_pin_arith(a, b);
}

/// The checksummed bit string spans eleven bits per word.
pub proof fn lemma_full_bits_len(e: Seq<u8>)
    requires
        valid_entropy_len(e.len()),
    ensures
        full_bits(e).len() == 11 * word_count_of(e.len()),
        word_count_of(e.len()) >= 12,
{
}

/// Every word index of a phrase fits the 2048-entry table.
pub proof fn lemma_word_index_range(e: Seq<u8>, w: int)
    requires
        valid_entropy_len(e.len()),
        0 <= w < word_count_of(e.len()),
    ensures
        0 <= word_index_at(e, w) < 2048,
{
    lemma_full_bits_len(e);
    let chunk = full_bits(e).subrange(11 * w, 11 * w + 11);
    lemma_bits_val_bound(chunk);
    lemma_p2_values();
}

/// A phrase determines its entropy: under one well-formed word table,
/// rendering distinct entropies yields distinct phrases, so parsing a
/// rendered phrase recovers exactly the entropy that produced it.
pub proof fn lemma_phrase_of_injective(e1: Seq<u8>, e2: Seq<u8>, ws: Seq<Seq<char>>)
    requires
        wordlist_wf(ws),
        valid_entropy_len(e1.len()),
        valid_entropy_len(e2.len()),
        phrase_of(e1, ws) == phrase_of(e2, ws),
    ensures
        e1 == e2,
{
    let w1 = phrase_words(e1, ws);
    let w2 = phrase_words(e2, ws);
    lemma_full_bits_len(e1);
    lemma_full_bits_len(e2);
    assert forall|k: int| 0 <= k < w1.len() implies (#[trigger] w1[k]).len() >= 1 && (forall|
        j: int,
    |
        0 <= j < w1[k].len() ==> w1[k][j] != ' ') by {
        lemma_word_index_range(e1, k);
        assert(w1[k] == ws[word_index_at(e1, k)]);
    }
    assert forall|k: int| 0 <= k < w2.len() implies (#[trigger] w2[k]).len() >= 1 && (forall|
        j: int,
    |
        0 <= j < w2[k].len() ==> w2[k][j] != ' ') by {
        lemma_word_index_range(e2, k);
        assert(w2[k] == ws[word_index_at(e2, k)]);
    }
    assert(forall|k: int, j: int|
        0 <= k < w1.len() && 0 <= j < w1[k].len() ==> #[trigger] w1[k][j] != ' ');
    assert(forall|k: int, j: int|
        0 <= k < w2.len() && 0 <= j < w2[k].len() ==> #[trigger] w2[k][j] != ' ');
    crate::text::lemma_split_join(w1, ' ');
    crate::text::lemma_split_join(w2, ' ');
    assert(w1 == w2);
    assert(word_count_of(e1.len()) == word_count_of(e2.len()));
    assert(e1.len() == e2.len());
    let n = e1.len();
    assert forall|w: int| 0 <= w < word_count_of(n) implies word_index_at(e1, w)
        == word_index_at(e2, w) by {
        lemma_word_index_range(e1, w);
        lemma_word_index_range(e2, w);
        assert(w1[w] == ws[word_index_at(e1, w)]);
        assert(w2[w] == ws[word_index_at(e2, w)]);
        let i1 = word_index_at(e1, w);
        let i2 = word_index_at(e2, w);
        if i1 < i2 {
            assert(ws[i1] != ws[i2]);
            assert(false);
        }
        if i2 < i1 {
            assert(ws[i2] != ws[i1]);
            assert(false);
        }
    }
    assert forall|i: int| 0 <= i < full_bits(e1).len() implies full_bits(e1)[i] == full_bits(
        e2,
    )[i] by {
        let w = i / 11;
        let t = i % 11;
        assert(0 <= w < word_count_of(n));
        assert(word_index_at(e1, w) == word_index_at(e2, w));
        lemma_bits_val_injective(
            full_bits(e1).subrange(11 * w, 11 * w + 11),
            full_bits(e2).subrange(11 * w, 11 * w + 11),
        );
        assert(full_bits(e1).subrange(11 * w, 11 * w + 11)[t] == full_bits(e1)[i]);
        assert(full_bits(e2).subrange(11 * w, 11 * w + 11)[t] == full_bits(e2)[i]);
    }
    assert forall|i: int| 0 <= i < n implies e1[i] == e2[i] by {
        assert forall|k: int| 0 <= k < 8 implies bit_of(e1[i], k) == bit_of(e2[i], k) by {
            let pos = 8 * i + k;
            assert(0 <= pos < 8 * n <= full_bits(e1).len());
            assert(full_bits(e1)[pos] == entropy_bits(e1)[pos]);
            assert(full_bits(e2)[pos] == entropy_bits(e2)[pos]);
            assert(entropy_bits(e1)[pos] == bit_of(e1[pos / 8], pos % 8));
            assert(entropy_bits(e2)[pos] == bit_of(e2[pos / 8], pos % 8));
            assert(pos / 8 == i && pos % 8 == k);
        }
        lemma_byte_bits_pin(e1[i], e2[i]);
    }
    assert(e1 =~= e2);
}


/// Reading a bit back out of a packed value gives the bit that went in.
proof fn lemma_bits_val_extract(s: Seq<bool>, t: int)
    requires
        0 <= t < s.len(),
    ensures
        ((bits_val(s) / p2((s.len() - 1 - t) as nat)) % 2 == 1) == s[t],
    decreases s.len(),
{
    let v = bits_val(s);
    let l = s.len() as int;
    let vp = bits_val(s.drop_last());
    let lb: int = if s.last() {
        1
    } else {
        0
    };
    lemma_bits_val_bound(s.drop_last());
    assert(v == 2 * vp + lb);
    if t == l - 1 {
        assert(p2(0) == 1);
        assert(v / 1 == v);
        assert(v % 2 == lb);
    } else {
        let k = (l - 1 - t) as nat;
        assert(v / 2 == vp);
        lemma_p2_pos((k - 1) as nat);
        vstd::arithmetic::div_mod::lemma_div_denominator(v, 2, p2((k - 1) as nat));
        assert(p2(k) == 2 * p2((k - 1) as nat));
        assert(v / p2(k) == vp / p2((k - 1) as nat));
        lemma_bits_val_extract(s.drop_last(), t);
        assert(s.drop_last()[t] == s[t]);
    }
}

/// Parsing accepts every rendered phrase and recovers exactly the entropy
/// that rendered it: the round trip law of the mnemonic codec.
pub proof fn lemma_phrase_round_trip(e: Seq<u8>, ws: Seq<Seq<char>>)
    requires
        wordlist_wf(ws),
        valid_entropy_len(e.len()),
    ensures
        phrase_accepted(phrase_of(e, ws), ws),
        phrase_entropy(phrase_of(e, ws), ws) == e,
{
    let s = phrase_of(e, ws);
    let words = phrase_words(e, ws);
    lemma_full_bits_len(e);
    assert forall|k: int| 0 <= k < words.len() implies (#[trigger] words[k]).len() >= 1 && (
    forall|j: int| 0 <= j < words[k].len() ==> words[k][j] != ' ') by {
        lemma_word_index_range(e, k);
        assert(words[k] == ws[word_index_at(e, k)]);
    }
    assert(forall|k: int, j: int|
        0 <= k < words.len() && 0 <= j < words[k].len() ==> #[trigger] words[k][j] != ' ');
    crate::text::lemma_split_join(words, ' ');
    let parts = split_chars(s, ' ');
    assert(parts == words);
    let c = parts.len() as int;
    assert(c == word_count_of(e.len()));
    assert(phrase_entropy_len(c) == e.len());
    assert forall|k: int| 0 <= k < c implies #[trigger] word_position(ws, parts[k])
        == word_index_at(e, k) && word_position(ws, parts[k]) < 2048 by {
        lemma_word_index_range(e, k);
        assert(parts[k] == ws[word_index_at(e, k)]);
        crate::wordlist::lemma_word_position_entry(ws, word_index_at(e, k));
    }
    let positions = split_positions(parts, ws);
    let bs = positions_bits(positions);
    assert(bs.len() == 11 * c);
    assert forall|i: int| 0 <= i < 11 * c implies #[trigger] bs[i] == full_bits(e)[i] by {
        let w = i / 11;
        let t = i % 11;
        assert(0 <= w < c);
        assert(positions[w] == word_index_at(e, w));
        let chunk = full_bits(e).subrange(11 * w, 11 * w + 11);
        lemma_bits_val_extract(chunk, t);
        assert(chunk[t] == full_bits(e)[11 * w + t]);
        assert(11 * w + t == i);
        assert(index_bits11(bits_val(chunk))[t] == chunk[t]);
        assert(bs[i] == index_bits11(positions[w])[t]);
    }
    let elen = e.len() as int;
    let packed = packed_entropy(bs, elen);
    assert forall|i: int| 0 <= i < elen implies #[trigger] packed[i] == e[i] by {
        let chunk8 = bs.subrange(8 * i, 8 * i + 8);
        assert forall|k: int| 0 <= k < 8 implies #[trigger] chunk8[k] == bit_of(e[i], k) by {
            let pos = 8 * i + k;
            assert(chunk8[k] == bs[pos]);
            assert(bs[pos] == full_bits(e)[pos]) by {
                assert(0 <= pos < 8 * elen <= 11 * c);
            }
            assert(full_bits(e)[pos] == entropy_bits(e)[pos]);
            assert(entropy_bits(e)[pos] == bit_of(e[pos / 8], pos % 8));
            assert(pos / 8 == i && pos % 8 == k);
        }
        lemma_bits_val_bound(chunk8);
        lemma_p2_values();
        let acc: u8 = bits_val(chunk8) as u8;
        assert forall|k: int| 0 <= k < 8 implies #[trigger] bit_of(acc, k) == bit_of(
            e[i],
            k,
        ) by {
            lemma_bits_val_extract(chunk8, k);
            assert(((bits_val(chunk8) / p2((7 - k) as nat)) % 2 == 1) == chunk8[k]);
            assert(acc as int == bits_val(chunk8));
        }
        lemma_byte_bits_pin(acc, e[i]);
        assert(packed[i] == acc);
    }
    assert(packed =~= e);
    assert(phrase_entropy(s, ws) == packed);
    assert(phrase_accepted(s, ws));
}

} // verus!
