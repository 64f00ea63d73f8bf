//! Child indices and derivation paths for hierarchical key derivation.
use vstd::prelude::*;

use crate::text::parse_u32_dec;
use crate::text::split_chars;
use crate::text::split_str;
use crate::text::u32_dec_parse;

verus! {

#[derive(Debug, Clone, PartialEq, Eq)]
pub enum DerivationPathError {
    ExpectedBIP32Path,
    ExpectedBIP44Path,
    ExpectedBIP49Path,
    ExpectedHardenedPath,
    ExpectedNormalPath,
    InvalidChildNumber(u32),
    InvalidChildNumberFormat,
    InvalidDerivationPath(String),
}

/// A single derivation step: a normal or a hardened child index, each
/// holding a value below 2^31.
#[derive(Debug, Clone, Copy, PartialEq, Eq, Hash, Structural)]
pub enum ChildIndex {
    Normal(u32),
    Hardened(u32),
}

impl ChildIndex {
    /// The held value is below 2^31, so the combined index fits in 32 bits.
    pub open spec fn wf(self) -> bool {
        match self {
            ChildIndex::Normal(i) => i < 0x8000_0000,
            ChildIndex::Hardened(i) => i < 0x8000_0000,
        }
    }

    /// The 32-bit wire value: hardened indices have the top bit set.
    pub open spec fn index_spec(self) -> u32 {
        match self {
            ChildIndex::Normal(i) => i,
            ChildIndex::Hardened(i) => (i + 0x8000_0000) as u32,
        }
    }

    pub fn normal(index: u32) -> (r: Result<Self, DerivationPathError>)
        ensures
            r == (if index < 0x8000_0000 {
                Ok::<ChildIndex, DerivationPathError>(ChildIndex::Normal(index))
            } else {
                Err::<ChildIndex, DerivationPathError>(
                    DerivationPathError::InvalidChildNumber(index),
                )
            }),
            r matches Ok(c) ==> c.wf(),
    {
        if index < 0x8000_0000 {
            Ok(ChildIndex::Normal(index))
        } else {
            Err(DerivationPathError::InvalidChildNumber(index))
        }
    }

    pub fn hardened(index: u32) -> (r: Result<Self, DerivationPathError>)
        ensures
            r == (if index < 0x8000_0000 {
                Ok::<ChildIndex, DerivationPathError>(ChildIndex::Hardened(index))
            } else {
                Err::<ChildIndex, DerivationPathError>(
                    DerivationPathError::InvalidChildNumber(index),
                )
            }),
            r matches Ok(c) ==> c.wf(),
    {
        if index < 0x8000_0000 {
            Ok(ChildIndex::Hardened(index))
        } else {
            Err(DerivationPathError::InvalidChildNumber(index))
        }
    }

    pub fn is_normal(&self) -> (r: bool)
        ensures
            r == (self matches ChildIndex::Normal(_)),
    {
        !self.is_hardened()
    }

    pub fn is_hardened(&self) -> (r: bool)
        ensures
            r == (self matches ChildIndex::Hardened(_)),
    {
        match *self {
            ChildIndex::Hardened(_) => true,
            ChildIndex::Normal(_) => false,
        }
    }

    /// The 32-bit wire value of the index.
    pub fn to_index(&self) -> (r: u32)
        requires
            self.wf(),
        ensures
            r == self.index_spec(),
    {
        match self {
            ChildIndex::Hardened(i) => *i + 0x8000_0000,
            ChildIndex::Normal(i) => *i,
        }
    }

    /// The index a 32-bit wire value denotes: the top bit selects hardened.
    pub fn from_index(number: u32) -> (r: Self)
        ensures
            r == index_from_u32(number),
            r.wf(),
            r.index_spec() == number,
    {
        if number >= 0x8000_0000 {
            ChildIndex::Hardened(number - 0x8000_0000)
        } else {
            ChildIndex::Normal(number)
        }
    }

    /// Parses a child index: decimal digits, with a trailing `'` or `h`
    /// selecting a hardened index.
    pub fn from_str(inp: &str) -> (r: Result<Self, DerivationPathError>)
        ensures
            r == child_index_parse(inp@),
            r matches Ok(c) ==> c.wf(),
    {
        let n: usize = inp.unicode_len();
        let hardened_suffix: bool = if n > 0 {
            let last: char = inp.get_char(n - 1);
            last == '\'' || last == 'h'
        } else {
            false
        };
        if hardened_suffix {
            let body: &str = inp.substring_char(0, n - 1);
            proof {
                assert(body@ =~= inp@.drop_last());
            }
            match parse_u32_dec(body) {
                Some(v) => Self::hardened(v),
                None => Err(DerivationPathError::InvalidChildNumberFormat),
            }
        } else {
            match parse_u32_dec(inp) {
                Some(v) => Self::normal(v),
                None => Err(DerivationPathError::InvalidChildNumberFormat),
            }
        }
    }
}

/// The index a 32-bit wire value denotes.
pub open spec fn index_from_u32(number: u32) -> ChildIndex {
    if number >= 0x8000_0000 {
        ChildIndex::Hardened((number - 0x8000_0000) as u32)
    } else {
        ChildIndex::Normal(number)
    }
}

/// What `ChildIndex::from_str` returns on a given string.
pub open spec fn child_index_parse(s: Seq<char>) -> Result<ChildIndex, DerivationPathError> {
    if s.len() > 0 && (s.last() == '\'' || s.last() == 'h') {
        match u32_dec_parse(s.drop_last()) {
            Some(v) => if v < 0x8000_0000 {
                Ok(ChildIndex::Hardened(v))
            } else {
                Err(DerivationPathError::InvalidChildNumber(v))
            },
            None => Err(DerivationPathError::InvalidChildNumberFormat),
        }
    } else {
        match u32_dec_parse(s) {
            Some(v) => if v < 0x8000_0000 {
                Ok(ChildIndex::Normal(v))
            } else {
                Err(DerivationPathError::InvalidChildNumber(v))
            },
            None => Err(DerivationPathError::InvalidChildNumberFormat),
        }
    }
}

/// The wire value round-trips through `from_index`.
pub proof fn lemma_index_round_trip(c: ChildIndex)
    requires
        c.wf(),
    ensures
        index_from_u32(c.index_spec()) == c,
{
}

/// The mainnet BIP44 coin type.
pub fn hd_coin_type() -> (r: ChildIndex)
    ensures
        r == ChildIndex::Hardened(0u32),
{
    ChildIndex::Hardened(0)
}

/// A derivation path: a free-form BIP32 index list, or the three
/// account/change/index steps of a BIP44 or BIP49 path.
#[derive(Debug, Clone, PartialEq, Eq)]
pub enum BitcoinDerivationPath {
    BIP32(Vec<ChildIndex>),
    BIP44(ChildIndex, ChildIndex, ChildIndex),
    BIP49(ChildIndex, ChildIndex, ChildIndex),
}

/// Every index a path holds is within the 2^31 range.
pub open spec fn path_wf(p: BitcoinDerivationPath) -> bool {
    match p {
        BitcoinDerivationPath::BIP32(w) => forall|j: int|
            0 <= j < w@.len() ==> (#[trigger] w@[j]).wf(),
        BitcoinDerivationPath::BIP44(a, b, c) => a.wf() && b.wf() && c.wf(),
        BitcoinDerivationPath::BIP49(a, b, c) => a.wf() && b.wf() && c.wf(),
    }
}

/// Whether a five-step index list is a mainnet BIP44 path.
pub open spec fn is_bip44_vec(v: Seq<ChildIndex>) -> bool {
    v.len() == 5 && v[0] == ChildIndex::Hardened(44u32) && v[1] == ChildIndex::Hardened(0u32)
        && (v[2] matches ChildIndex::Hardened(_)) && (v[3] matches ChildIndex::Normal(_)) && (
    v[4] matches ChildIndex::Normal(_))
}

/// Whether a five-step index list is a mainnet BIP49 path.
pub open spec fn is_bip49_vec(v: Seq<ChildIndex>) -> bool {
    v.len() == 5 && v[0] == ChildIndex::Hardened(49u32) && v[1] == ChildIndex::Hardened(0u32)
        && (v[2] matches ChildIndex::Hardened(_)) && (v[3] matches ChildIndex::Normal(_)) && (
    v[4] matches ChildIndex::Normal(_))
}

/// The index list a path denotes, or the error for a malformed path.
pub open spec fn path_to_vec_spec(p: BitcoinDerivationPath) -> Result<
    Seq<ChildIndex>,
    DerivationPathError,
> {
    match p {
        BitcoinDerivationPath::BIP32(w) => if w@.len() < 256 {
            Ok(w@)
        } else {
            Err(DerivationPathError::ExpectedBIP32Path)
        },
        BitcoinDerivationPath::BIP44(a, b, c) => if (a matches ChildIndex::Hardened(_)) && (
        b matches ChildIndex::Normal(_)) && (c matches ChildIndex::Normal(_)) {
            Ok(
                seq![
                    ChildIndex::Hardened(44u32),
                    ChildIndex::Hardened(0u32),
                    a,
                    b,
                    c,
                ],
            )
        } else {
            Err(DerivationPathError::ExpectedBIP44Path)
        },
        BitcoinDerivationPath::BIP49(a, b, c) => if (a matches ChildIndex::Hardened(_)) && (
        b matches ChildIndex::Normal(_)) && (c matches ChildIndex::Normal(_)) {
            Ok(
                seq![
                    ChildIndex::Hardened(49u32),
                    ChildIndex::Hardened(0u32),
                    a,
                    b,
                    c,
                ],
            )
        } else {
            Err(DerivationPathError::ExpectedBIP49Path)
        },
    }
}

impl BitcoinDerivationPath {
    /// The child index list this path walks, in order.
    pub fn to_vec(&self) -> (r: Result<Vec<ChildIndex>, DerivationPathError>)
        ensures
            match path_to_vec_spec(*self) {
                Ok(v) => r matches Ok(w) && w@ == v,
                Err(e) => r == Err::<Vec<ChildIndex>, DerivationPathError>(e),
            },
    {
        match self {
            BitcoinDerivationPath::BIP32(path) => {
                if path.len() < 256 {
                    let mut out: Vec<ChildIndex> = Vec::new();
                    let n: usize = path.len();
                    let mut i: usize = 0;
                    while i < n
                        invariant
                            i <= n,
                            n == path@.len(),
                            out@ == path@.take(i as int),
                        decreases n - i,
                    {
                        out.push(path[i]);
                        proof {
                            assert(out@ =~= path@.take(i + 1));
                        }
                        i = i + 1;
                    }
                    proof {
                        assert(path@.take(n as int) =~= path@);
                    }
                    Ok(out)
                } else {
                    Err(DerivationPathError::ExpectedBIP32Path)
                }
            },
            BitcoinDerivationPath::BIP44(a, b, c) => {
                if a.is_hardened() && b.is_normal() && c.is_normal() {
                    let mut out: Vec<ChildIndex> = Vec::new();
                    out.push(ChildIndex::Hardened(44));
                    out.push(hd_coin_type());
                    out.push(*a);
                    out.push(*b);
                    out.push(*c);
                    proof {
                        assert(out@ =~= seq![
                            ChildIndex::Hardened(44u32),
                            ChildIndex::Hardened(0u32),
                            *a,
                            *b,
                            *c,
                        ]);
                    }
                    Ok(out)
                } else {
                    Err(DerivationPathError::ExpectedBIP44Path)
                }
            },
            BitcoinDerivationPath::BIP49(a, b, c) => {
                if a.is_hardened() && b.is_normal() && c.is_normal() {
                    let mut out: Vec<ChildIndex> = Vec::new();
                    out.push(ChildIndex::Hardened(49));
                    out.push(hd_coin_type());
                    out.push(*a);
                    out.push(*b);
                    out.push(*c);
                    proof {
                        assert(out@ =~= seq![
                            ChildIndex::Hardened(49u32),
                            ChildIndex::Hardened(0u32),
                            *a,
                            *b,
                            *c,
                        ]);
                    }
                    Ok(out)
                } else {
                    Err(DerivationPathError::ExpectedBIP49Path)
                }
            },
        }
    }

    /// Classifies an index list as BIP44, BIP49, or free-form BIP32.
    pub fn from_vec(path: &Vec<ChildIndex>) -> (r: Result<Self, DerivationPathError>)
        ensures
            r is Ok,
            is_bip44_vec(path@) ==> r == Ok::<BitcoinDerivationPath, DerivationPathError>(
                BitcoinDerivationPath::BIP44(path@[2], path@[3], path@[4]),
            ),
            !is_bip44_vec(path@) && is_bip49_vec(path@) ==> r == Ok::<
                BitcoinDerivationPath,
                DerivationPathError,
            >(BitcoinDerivationPath::BIP49(path@[2], path@[3], path@[4])),
            !is_bip44_vec(path@) && !is_bip49_vec(path@) ==> (r matches Ok(
                BitcoinDerivationPath::BIP32(w),
            ) && w@ == path@),
    {
        if path.len() == 5 {
            let c0: ChildIndex = path[0];
            let c1: ChildIndex = path[1];
            if c0 == ChildIndex::Hardened(44) && c1 == hd_coin_type() && path[2].is_hardened()
                && path[3].is_normal() && path[4].is_normal() {
                return Ok(BitcoinDerivationPath::BIP44(path[2], path[3], path[4]));
            }
            if c0 == ChildIndex::Hardened(49) && c1 == hd_coin_type() && path[2].is_hardened()
                && path[3].is_normal() && path[4].is_normal() {
                return Ok(BitcoinDerivationPath::BIP49(path[2], path[3], path[4]));
            }
        }
        let mut out: Vec<ChildIndex> = Vec::new();
        let n: usize = path.len();
        let mut i: usize = 0;
        while i < n
            invariant
                i <= n,
                n == path@.len(),
                out@ == path@.take(i as int),
            decreases n - i,
        {
            out.push(path[i]);
            proof {
                assert(out@ =~= path@.take(i + 1));
            }
            i = i + 1;
        }
        proof {
            assert(path@.take(n as int) =~= path@);
        }
        Ok(BitcoinDerivationPath::BIP32(out))
    }

    /// Parses a `m/…` path string: a leading `m`, then `/`-separated child
    /// indices.
    pub fn from_str(path: &str) -> (r: Result<Self, DerivationPathError>)
        ensures
            ({
                let parts = split_chars(path@, '/');
                if parts[0] != seq!['m'] {
                    r matches Err(DerivationPathError::InvalidDerivationPath(m)) && m@
                        == path@
                } else {
                    match indices_parse(parts.drop_first()) {
                        Err(e) => r == Err::<BitcoinDerivationPath, DerivationPathError>(e),
                        Ok(v) => {
                            r is Ok && (is_bip44_vec(v) ==> r == Ok::<
                                BitcoinDerivationPath,
                                DerivationPathError,
                            >(BitcoinDerivationPath::BIP44(v[2], v[3], v[4]))) && (!is_bip44_vec(
                                v,
                            ) && is_bip49_vec(v) ==> r == Ok::<
                                BitcoinDerivationPath,
                                DerivationPathError,
                            >(BitcoinDerivationPath::BIP49(v[2], v[3], v[4]))) && (!is_bip44_vec(
                                v,
                            ) && !is_bip49_vec(v) ==> (r matches Ok(
                                BitcoinDerivationPath::BIP32(w),
                            ) && w@ == v))
                        },
                    }
                }
            }),
    {
        let parts: Vec<String> = split_str(path, '/');
        proof {
            reveal_strlit("m");
            assert(("m")@ =~= seq!['m']);
            assert(parts.deep_view()[0] == parts@[0]@);
        }
        if !(parts[0] == String::from_str("m")) {
            return Err(DerivationPathError::InvalidDerivationPath(String::from_str(path)));
        }
        let mut indices: Vec<ChildIndex> = Vec::new();
        let n: usize = parts.len();
        let mut i: usize = 1;
        proof {
            let ps = parts.deep_view().drop_first();
            assert(ps.skip(0) =~~= ps);
            match indices_parse(ps) {
                Ok(rest) => {
                    assert(Seq::<ChildIndex>::empty() + rest =~= rest);
                },
                Err(_) => {},
            }
        }
        while i < n
            invariant
                1 <= i <= n,
                n == parts@.len(),
                parts.deep_view() == split_chars(path@, '/'),
                parts.deep_view()[0] == seq!['m'],
                ({
                    let ps = parts.deep_view().drop_first();
                    child_parse_ok(indices@, ps, (i - 1) as int)
                }),
            decreases n - i,
        {
            proof {
                let ps = parts.deep_view().drop_first();
                assert(ps[i - 1] == parts.deep_view()[i as int]);
                assert(parts.deep_view()[i as int] == parts@[i as int]@);
            }
            match ChildIndex::from_str(parts[i].as_str()) {
                Ok(ci) => {
                    proof {
                        let ps = parts.deep_view().drop_first();
                        lemma_indices_parse_step(indices@, ps, (i - 1) as int, ci);
                    }
                    let ghost prev = indices@;
                    indices.push(ci);
                    proof {
                        assert(indices@ =~= prev + seq![ci]);
                    }
                },
                Err(e) => {
                    proof {
                        let ps = parts.deep_view().drop_first();
                        lemma_indices_parse_err(indices@, ps, (i - 1) as int, e);
                    }
                    return Err(e);
                },
            }
            i = i + 1;
        }
        proof {
            let ps = parts.deep_view().drop_first();
            lemma_indices_parse_done(indices@, ps);
        }
        Self::from_vec(&indices)
    }
}

/// The loop state of a piecewise parse: the first `k` pieces parsed into
/// `acc`, and the outcome on the rest deciding the outcome on the whole.
pub open spec fn child_parse_ok(acc: Seq<ChildIndex>, ps: Seq<Seq<char>>, k: int) -> bool {
    0 <= k <= ps.len() && (match indices_parse(ps.skip(k)) {
        Ok(rest) => indices_parse(ps) == Ok::<Seq<ChildIndex>, DerivationPathError>(
            acc + rest,
        ),
        Err(e) => indices_parse(ps) == Err::<Seq<ChildIndex>, DerivationPathError>(e),
    })
}

/// Parses each piece as a child index, stopping at the first failure.
pub open spec fn indices_parse(ps: Seq<Seq<char>>) -> Result<
    Seq<ChildIndex>,
    DerivationPathError,
>
    decreases ps.len(),
{
    if ps.len() == 0 {
        Ok(Seq::empty())
    } else {
        match child_index_parse(ps[0]) {
            Err(e) => Err(e),
            Ok(c) => match indices_parse(ps.drop_first()) {
                Err(e) => Err(e),
                Ok(rest) => Ok(seq![c] + rest),
            },
        }
    }
}

/// A prefix of successfully parsed indices extends by one more success.
proof fn lemma_indices_parse_step(
    acc: Seq<ChildIndex>,
    ps: Seq<Seq<char>>,
    k: int,
    c: ChildIndex,
)
    requires
        child_parse_ok(acc, ps, k),
        0 <= k < ps.len(),
        child_index_parse(ps[k]) == Ok::<ChildIndex, DerivationPathError>(c),
    ensures
        child_parse_ok(acc + seq![c], ps, k + 1),
{
    assert(ps.skip(k)[0] == ps[k]);
    assert(ps.skip(k).drop_first() =~~= ps.skip(k + 1));
    match indices_parse(ps.skip(k + 1)) {
        Err(e) => {
            assert(indices_parse(ps.skip(k)) == Err::<Seq<ChildIndex>, DerivationPathError>(
                e,
            ));
        },
        Ok(rest) => {
            assert(indices_parse(ps.skip(k)) == Ok::<Seq<ChildIndex>, DerivationPathError>(
                seq![c] + rest,
            ));
            assert((acc + seq![c]) + rest =~= acc + (seq![c] + rest));
        },
    }
}

/// A failure at position `k` makes the whole parse fail with that error.
proof fn lemma_indices_parse_err(
    acc: Seq<ChildIndex>,
    ps: Seq<Seq<char>>,
    k: int,
    e: DerivationPathError,
)
    requires
        child_parse_ok(acc, ps, k),
        0 <= k < ps.len(),
        child_index_parse(ps[k]) == Err::<ChildIndex, DerivationPathError>(e),
    ensures
        indices_parse(ps) == Err::<Seq<ChildIndex>, DerivationPathError>(e),
{
    assert(ps.skip(k)[0] == ps[k]);
    assert(indices_parse(ps.skip(k)) == Err::<Seq<ChildIndex>, DerivationPathError>(e));
}

/// A full prefix means the whole parse succeeded with the accumulator.
proof fn lemma_indices_parse_done(acc: Seq<ChildIndex>, ps: Seq<Seq<char>>)
    requires
        child_parse_ok(acc, ps, ps.len() as int),
    ensures
        indices_parse(ps) == Ok::<Seq<ChildIndex>, DerivationPathError>(acc),
{
    assert(ps.skip(ps.len() as int) =~~= Seq::<Seq<char>>::empty());
    assert(indices_parse(ps.skip(ps.len() as int)) == Ok::<
        Seq<ChildIndex>,
        DerivationPathError,
    >(Seq::empty()));
    assert(acc + Seq::<ChildIndex>::empty() =~= acc);
}

} // verus!
