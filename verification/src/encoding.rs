//! Little- and big-endian byte encodings of unsigned integers, with the
//! round-trip lemmas the transaction and key codecs rely on.
use vstd::prelude::*;

verus! {

/// 256 raised to `n`.
pub open spec fn pow256(n: nat) -> int
    decreases n,
{
    if n == 0 {
        1
    } else {
        256 * pow256((n - 1) as nat)
    }
}

/// The `n`-byte little-endian encoding of `v` (modulo 256^n).
pub open spec fn le_bytes(v: int, n: nat) -> Seq<u8>
    decreases n,
{
    if n == 0 {
        Seq::empty()
    } else {
        seq![(v % 256) as u8] + le_bytes(v / 256, (n - 1) as nat)
    }
}

/// The value of a little-endian byte string.
pub open spec fn le_val(s: Seq<u8>) -> int
    decreases s.len(),
{
    if s.len() == 0 {
        0
    } else {
        s[0] + 256 * le_val(s.drop_first())
    }
}

/// The `n`-byte big-endian encoding of `v` (modulo 256^n).
pub open spec fn be_bytes(v: int, n: nat) -> Seq<u8>
    decreases n,
{
    if n == 0 {
        Seq::empty()
    } else {
        be_bytes(v / 256, (n - 1) as nat) + seq![(v % 256) as u8]
    }
}

/// The value of a big-endian byte string.
pub open spec fn be_val(s: Seq<u8>) -> int
    decreases s.len(),
{
    if s.len() == 0 {
        0
    } else {
        be_val(s.drop_last()) * 256 + s.last()
    }
}

pub proof fn lemma_pow256_pos(n: nat)
    ensures
        pow256(n) >= 1,
    decreases n,
{
    if n > 0 {
        lemma_pow256_pos((n - 1) as nat);
    }
}

pub proof fn lemma_le_bytes_len(v: int, n: nat)
    ensures
        le_bytes(v, n).len() == n,
    decreases n,
{
    if n > 0 {
        lemma_le_bytes_len(v / 256, (n - 1) as nat);
    }
}

pub proof fn lemma_be_bytes_len(v: int, n: nat)
    ensures
        be_bytes(v, n).len() == n,
    decreases n,
{
    if n > 0 {
        lemma_be_bytes_len(v / 256, (n - 1) as nat);
    }
}

/// A little-endian byte string of length n holds a value below 256^n.
pub proof fn lemma_le_val_bound(s: Seq<u8>)
    ensures
        0 <= le_val(s) < pow256(s.len()),
    decreases s.len(),
{
    if s.len() > 0 {
        lemma_le_val_bound(s.drop_first());
    }
}

pub proof fn lemma_be_val_bound(s: Seq<u8>)
    ensures
        0 <= be_val(s) < pow256(s.len()),
    decreases s.len(),
{
    if s.len() > 0 {
        lemma_be_val_bound(s.drop_last());
    }
}

/// Decoding the little-endian encoding of a value in range gives the value back.
pub proof fn lemma_le_val_of_bytes(v: int, n: nat)
    requires
        0 <= v < pow256(n),
    ensures
        le_val(le_bytes(v, n)) == v,
    decreases n,
{
    if n > 0 {
        lemma_le_bytes_len(v / 256, (n - 1) as nat);
        assert(le_bytes(v, n).drop_first() =~= le_bytes(v / 256, (n - 1) as nat));
        lemma_le_val_of_bytes(v / 256, (n - 1) as nat);
    }
}

/// Encoding the value of a little-endian byte string gives the bytes back.
pub proof fn lemma_le_bytes_of_val(s: Seq<u8>)
    ensures
        le_bytes(le_val(s), s.len()) == s,
    decreases s.len(),
{
    if s.len() > 0 {
        let v = le_val(s);
        lemma_le_val_bound(s.drop_first());
        assert(v % 256 == s[0] && v / 256 == le_val(s.drop_first())) by {
            assert(v == s[0] + 256 * le_val(s.drop_first()));
        }
        lemma_le_bytes_of_val(s.drop_first());
        assert(le_bytes(v, s.len()) =~= s);
    }
}

pub proof fn lemma_be_val_of_bytes(v: int, n: nat)
    requires
        0 <= v < pow256(n),
    ensures
        be_val(be_bytes(v, n)) == v,
    decreases n,
{
    if n > 0 {
        lemma_be_bytes_len(v / 256, (n - 1) as nat);
        assert(be_bytes(v, n).drop_last() =~= be_bytes(v / 256, (n - 1) as nat));
        lemma_be_val_of_bytes(v / 256, (n - 1) as nat);
    }
}

pub proof fn lemma_be_bytes_of_val(s: Seq<u8>)
    ensures
        be_bytes(be_val(s), s.len()) == s,
    decreases s.len(),
{
    if s.len() > 0 {
        let v = be_val(s);
        lemma_be_val_bound(s.drop_last());
        assert(v % 256 == s.last() && v / 256 == be_val(s.drop_last())) by {
            assert(v == be_val(s.drop_last()) * 256 + s.last());
        }
        lemma_be_bytes_of_val(s.drop_last());
        assert(be_bytes(v, s.len()) =~= s);
    }
}

/// Appends the `width`-byte little-endian encoding of `v` to `out`.
pub fn append_le_bytes(out: &mut Vec<u8>, v: u64, width: usize)
    requires
        width <= 8,
        v < pow256(width as nat),
    ensures
        final(out)@ == old(out)@ + le_bytes(v as int, width as nat),
{
    let mut cur: u64 = v;
    let mut i: usize = 0;
    proof {
        assert(old(out)@ + le_bytes(v as int, width as nat) =~= old(out)@ + le_bytes(
            v as int,
            width as nat,
        ));
    }
    while i < width
        invariant
            i <= width,
            out@ + le_bytes(cur as int, (width - i) as nat) == old(out)@ + le_bytes(
                v as int,
                width as nat,
            ),
        decreases width - i,
    {
        let b: u8 = (cur % 256) as u8;
        proof {
            assert(le_bytes(cur as int, (width - i) as nat) == seq![b] + le_bytes(
                cur as int / 256,
                (width - i - 1) as nat,
            ));
            assert(out@ + le_bytes(cur as int, (width - i) as nat) =~= (out@ + seq![b])
                + le_bytes(cur as int / 256, (width - i - 1) as nat));
        }
        out.push(b);
        cur = cur / 256;
        i = i + 1;
    }
    proof {
        lemma_le_bytes_len(cur as int, 0);
        assert(out@ + le_bytes(cur as int, 0) =~= out@);
    }
}

/// Appends the `width`-byte big-endian encoding of `v` to `out`.
pub fn append_be_bytes(out: &mut Vec<u8>, v: u64, width: usize)
    requires
        width <= 8,
        v < pow256(width as nat),
    ensures
        final(out)@ == old(out)@ + be_bytes(v as int, width as nat),
{
    let mut tmp: Vec<u8> = Vec::new();
    append_le_bytes(&mut tmp, v, width);
    proof {
        lemma_le_rev_is_be(v as int, width as nat);
        lemma_le_bytes_len(v as int, width as nat);
    }
    let mut i: usize = tmp.len();
    while i > 0
        invariant
            i <= tmp.len(),
            tmp@ == le_bytes(v as int, width as nat),
            tmp@.len() == width,
            out@ == old(out)@ + be_bytes(v as int, width as nat).take(
                (tmp@.len() - i) as int,
            ),
        decreases i,
    {
        i = i - 1;
        let b: u8 = tmp[i];
        proof {
            let n = width as nat;
            let k = (tmp@.len() - i - 1) as int;
            lemma_le_rev_is_be(v as int, n);
            lemma_le_bytes_len(v as int, n);
            assert(be_bytes(v as int, n)[k] == le_bytes(v as int, n)[n - 1 - k]);
            assert(n - 1 - k == i as int);
            assert(b == be_bytes(v as int, n)[k]);
            assert(be_bytes(v as int, n).take(k + 1) =~= be_bytes(v as int, n).take(k)
                + seq![b]);
            assert(out@ + seq![b] =~= old(out)@ + be_bytes(v as int, n).take(k + 1));
        }
        out.push(b);
    }
    proof {
        lemma_be_bytes_len(v as int, width as nat);
        assert(be_bytes(v as int, width as nat).take(tmp@.len() as int) =~= be_bytes(
            v as int,
            width as nat,
        ));
    }
}

/// The big-endian encoding is the little-endian one reversed.
pub proof fn lemma_le_rev_is_be(v: int, n: nat)
    ensures
        be_bytes(v, n).len() == n,
        forall|i: int|
            0 <= i < n ==> be_bytes(v, n)[i] == le_bytes(v, n)[n - 1 - i],
    decreases n,
{
    lemma_be_bytes_len(v, n);
    lemma_le_bytes_len(v, n);
    if n > 0 {
        lemma_le_rev_is_be(v / 256, (n - 1) as nat);
        lemma_be_bytes_len(v / 256, (n - 1) as nat);
        lemma_le_bytes_len(v / 256, (n - 1) as nat);
    }
}

/// Reads the `width`-byte little-endian value at `pos`.
pub fn read_le_bytes(data: &Vec<u8>, pos: usize, width: usize) -> (r: u64)
    requires
        width <= 8,
        pos + width <= data@.len(),
    ensures
        r == le_val(data@.subrange(pos as int, pos + width)),
        r < pow256(width as nat),
{
    let ghost full = data@.subrange(pos as int, pos + width);
    proof {
        lemma_le_val_bound(full);
    }
    let n: usize = data.len();
    let mut acc: u64 = 0;
    let mut i: usize = width;
    while i > 0
        invariant
            i <= width,
            width <= 8,
            n == data@.len(),
            pos + width <= data@.len(),
            full == data@.subrange(pos as int, pos + width),
            acc == le_val(data@.subrange(pos + i, pos + width)),
            acc < pow256((width - i) as nat),
        decreases i,
    {
        i = i - 1;
        let b: u8 = data[pos + i];
        proof {
            let sub = data@.subrange(pos + i, pos + width);
            assert(sub[0] == b);
            assert(sub.drop_first() =~= data@.subrange(pos + i + 1, pos + width));
            lemma_le_val_bound(sub);
            lemma_pow256_mono((width - i) as nat, 8);
            lemma_pow256_bounds(8);
            assert(le_val(sub) == b + 256 * acc);
        }
        acc = acc * 256 + (b as u64);
    }
    proof {
        assert(data@.subrange(pos as int, pos + width) == full);
    }
    acc
}

/// Reads the `width`-byte big-endian value at `pos`.
pub fn read_be_bytes(data: &Vec<u8>, pos: usize, width: usize) -> (r: u64)
    requires
        width <= 8,
        pos + width <= data@.len(),
    ensures
        r == be_val(data@.subrange(pos as int, pos + width)),
        r < pow256(width as nat),
{
    let ghost full = data@.subrange(pos as int, pos + width);
    proof {
        lemma_be_val_bound(full);
    }
    let n: usize = data.len();
    let mut acc: u64 = 0;
    let mut i: usize = 0;
    while i < width
        invariant
            i <= width,
            width <= 8,
            n == data@.len(),
            pos + width <= data@.len(),
            full == data@.subrange(pos as int, pos + width),
            acc == be_val(data@.subrange(pos as int, pos + i)),
            acc < pow256(i as nat),
        decreases width - i,
    {
        let b: u8 = data[pos + i];
        proof {
            let sub = data@.subrange(pos as int, pos + i + 1);
            assert(sub.last() == b);
            assert(sub.drop_last() =~= data@.subrange(pos as int, pos + i));
            lemma_be_val_bound(sub);
            lemma_pow256_mono((i + 1) as nat, 8);
            lemma_pow256_bounds(8);
            assert(be_val(sub) == acc * 256 + b);
        }
        acc = acc * 256 + (b as u64);
        i = i + 1;
    }
    acc
}

/// The powers of 256 the wire formats use.
pub proof fn lemma_pow256_values()
    ensures
        pow256(2) == 0x1_0000,
        pow256(4) == 0x1_0000_0000,
        pow256(8) == 0x1_0000_0000_0000_0000,
{
    assert(pow256(8) == 256 * pow256(7));
    assert(pow256(7) == 256 * pow256(6));
    assert(pow256(6) == 256 * pow256(5));
    assert(pow256(5) == 256 * pow256(4));
    assert(pow256(4) == 256 * pow256(3));
    assert(pow256(3) == 256 * pow256(2));
    assert(pow256(2) == 256 * pow256(1));
    assert(pow256(1) == 256 * pow256(0));
    assert(pow256(0) == 1);
}

/// pow256 of any width up to 8 fits strictly inside the u64 range or equals it.
pub proof fn lemma_pow256_bounds(n: nat)
    requires
        n <= 8,
    ensures
        pow256(n) <= 0x1_0000_0000_0000_0000,
{
    assert(pow256(8) == 256 * pow256(7));
    assert(pow256(7) == 256 * pow256(6));
    assert(pow256(6) == 256 * pow256(5));
    assert(pow256(5) == 256 * pow256(4));
    assert(pow256(4) == 256 * pow256(3));
    assert(pow256(3) == 256 * pow256(2));
    assert(pow256(2) == 256 * pow256(1));
    assert(pow256(1) == 256 * pow256(0));
    assert(pow256(0) == 1);
    if n < 8 {
        lemma_pow256_mono(n, 8);
    }
}

pub proof fn lemma_pow256_mono(a: nat, b: nat)
    requires
        a <= b,
    ensures
        pow256(a) <= pow256(b),
    decreases b,
{
    if a < b {
        lemma_pow256_mono(a, (b - 1) as nat);
        lemma_pow256_pos((b - 1) as nat);
    }
}

} // verus!
