//! Character-level text helpers: splitting on a separator, joining words,
//! and strict decimal parsing.
use vstd::prelude::*;

verus! {

/// Index of the first occurrence of `sep` in `s`, or `s.len()` if absent.
pub open spec fn first_sep(s: Seq<char>, sep: char) -> int
    decreases s.len(),
{
    if s.len() == 0 {
        0
    } else if s[0] == sep {
        0
    } else {
        1 + first_sep(s.drop_first(), sep)
    }
}

pub proof fn lemma_first_sep(s: Seq<char>, sep: char)
    ensures
        0 <= first_sep(s, sep) <= s.len(),
        first_sep(s, sep) < s.len() ==> s[first_sep(s, sep)] == sep,
        forall|j: int| 0 <= j < first_sep(s, sep) ==> s[j] != sep,
    decreases s.len(),
{
    if s.len() > 0 && s[0] != sep {
        lemma_first_sep(s.drop_first(), sep);
        assert forall|j: int| 0 <= j < first_sep(s, sep) implies s[j] != sep by {
            if j > 0 {
                assert(s.drop_first()[j - 1] == s[j]);
            }
        }
    }
}

/// A separator-free prefix ending at `i` (with a separator or the end there)
/// pins down `first_sep`.
pub proof fn lemma_first_sep_at(s: Seq<char>, sep: char, i: int)
    requires
        0 <= i <= s.len(),
        forall|j: int| 0 <= j < i ==> s[j] != sep,
        i < s.len() ==> s[i] == sep,
    ensures
        first_sep(s, sep) == i,
    decreases s.len(),
{
    if s.len() > 0 && s[0] != sep {
        lemma_first_sep_at(s.drop_first(), sep, i - 1);
    }
}

/// The pieces of `s` between occurrences of `sep`, as `str::split` yields
/// them: always at least one piece, with empty pieces kept.
pub open spec fn split_chars(s: Seq<char>, sep: char) -> Seq<Seq<char>>
    decreases s.len(),
{
    if s.len() == 0 {
        seq![Seq::<char>::empty()]
    } else if s[0] == sep {
        seq![Seq::<char>::empty()] + split_chars(s.drop_first(), sep)
    } else {
        let rest = split_chars(s.drop_first(), sep);
        seq![seq![s[0]] + rest[0]] + rest.drop_first()
    }
}

pub proof fn lemma_split_len(s: Seq<char>, sep: char)
    ensures
        split_chars(s, sep).len() >= 1,
    decreases s.len(),
{
    if s.len() > 0 {
        lemma_split_len(s.drop_first(), sep);
    }
}

/// Splitting steps over the first piece: the part before the first separator
/// is the head, and the rest splits independently.
pub proof fn lemma_split_step(s: Seq<char>, sep: char)
    ensures
        first_sep(s, sep) == s.len() ==> split_chars(s, sep) == seq![s],
        first_sep(s, sep) < s.len() ==> split_chars(s, sep) == seq![
            s.take(first_sep(s, sep)),
        ] + split_chars(s.skip(first_sep(s, sep) + 1), sep),
    decreases s.len(),
{
    lemma_first_sep(s, sep);
    lemma_split_len(s, sep);
    let i = first_sep(s, sep);
    if s.len() == 0 {
        assert(split_chars(s, sep) =~~= seq![s]);
    } else if s[0] == sep {
        assert(s.skip(1) =~= s.drop_first());
        assert(seq![Seq::<char>::empty()] + split_chars(s.drop_first(), sep) =~~= seq![
            s.take(0),
        ] + split_chars(s.skip(1), sep));
    } else {
        lemma_split_step(s.drop_first(), sep);
        lemma_split_len(s.drop_first(), sep);
        let rest = split_chars(s.drop_first(), sep);
        let it = first_sep(s.drop_first(), sep);
        lemma_first_sep(s.drop_first(), sep);
        if it == s.drop_first().len() {
            assert(i == s.len());
            assert(rest == seq![s.drop_first()]);
            assert(split_chars(s, sep) =~~= seq![s]) by {
                assert(seq![s[0]] + s.drop_first() =~= s);
            }
        } else {
            assert(i == it + 1);
            assert(rest[0] == s.drop_first().take(it));
            assert(seq![s[0]] + s.drop_first().take(it) =~= s.take(i));
            assert(s.drop_first().skip(it + 1) =~= s.skip(i + 1));
            assert(rest.drop_first() =~~= split_chars(s.skip(i + 1), sep));
            assert(split_chars(s, sep) =~~= seq![s.take(i)] + split_chars(
                s.skip(i + 1),
                sep,
            ));
        }
    }
}

/// The words joined with `sep` between consecutive words.
pub open spec fn join_chars(ws: Seq<Seq<char>>, sep: Seq<char>) -> Seq<char>
    decreases ws.len(),
{
    if ws.len() == 0 {
        Seq::empty()
    } else if ws.len() == 1 {
        ws[0]
    } else {
        ws[0] + sep + join_chars(ws.drop_first(), sep)
    }
}

/// Splitting undoes joining, provided no word contains the separator.
pub proof fn lemma_split_join(ws: Seq<Seq<char>>, sep: char)
    requires
        ws.len() >= 1,
        forall|k: int, j: int|
            0 <= k < ws.len() && 0 <= j < ws[k].len() ==> ws[k][j] != sep,
    ensures
        split_chars(join_chars(ws, seq![sep]), sep) == ws,
    decreases ws.len(),
{
    let s = join_chars(ws, seq![sep]);
    if ws.len() == 1 {
        assert(forall|j: int| 0 <= j < s.len() ==> s[j] != sep);
        lemma_first_sep_at(s, sep, s.len() as int);
        lemma_split_step(s, sep);
        assert(split_chars(s, sep) =~~= ws);
    } else {
        let w0 = ws[0];
        let tail = join_chars(ws.drop_first(), seq![sep]);
        assert(s == w0 + seq![sep] + tail);
        assert(forall|j: int| 0 <= j < w0.len() ==> s[j] != sep) by {
            assert(forall|j: int| 0 <= j < w0.len() ==> s[j] == w0[j]);
        }
        assert(s[w0.len() as int] == sep);
        lemma_first_sep_at(s, sep, w0.len() as int);
        lemma_split_step(s, sep);
        assert(s.take(w0.len() as int) =~= w0);
        assert(s.skip(w0.len() as int + 1) =~= tail);
        lemma_split_join(ws.drop_first(), sep);
        assert(split_chars(s, sep) =~~= ws);
    }
}

/// Splits `s` at every occurrence of `sep`, keeping empty pieces.
pub fn split_str(s: &str, sep: char) -> (r: Vec<String>)
    ensures
        r.deep_view() == split_chars(s@, sep),
        r@.len() >= 1,
{
    let n: usize = s.unicode_len();
    let mut result: Vec<String> = Vec::new();
    let mut start: usize = 0;
    let mut i: usize = 0;
    proof {
        lemma_split_len(s@, sep);
        assert(s@.skip(0) =~= s@);
    }
    while i < n
        invariant
            start <= i <= n,
            n == s@.len(),
            result.deep_view() + split_chars(s@.skip(start as int), sep) =~~= split_chars(
                s@,
                sep,
            ),
            forall|j: int| start <= j < i ==> s@[j] != sep,
        decreases n - i,
    {
        let c: char = s.get_char(i);
        if c == sep {
            let w: String = s.substring_char(start, i).to_owned();
            proof {
                let rem = s@.skip(start as int);
                assert(forall|j: int| 0 <= j < i - start ==> rem[j] != sep);
                assert(rem[i - start] == sep);
                lemma_first_sep_at(rem, sep, i - start);
                lemma_split_step(rem, sep);
                assert(rem.take(i - start) =~= s@.subrange(start as int, i as int));
                assert(rem.skip(i - start + 1) =~= s@.skip(i + 1));
                assert((result.deep_view() + seq![w@]) + split_chars(s@.skip(i + 1), sep)
                    =~~= result.deep_view() + split_chars(rem, sep));
            }
            result.push(w);
            proof {
                assert(result.deep_view() =~~= result.deep_view().take(
                    result.deep_view().len() - 1,
                ) + seq![w@]);
            }
            start = i + 1;
        }
        i = i + 1;
    }
    let w: String = s.substring_char(start, n).to_owned();
    proof {
        let rem = s@.skip(start as int);
        assert(forall|j: int| 0 <= j < rem.len() ==> rem[j] != sep);
        lemma_first_sep_at(rem, sep, rem.len() as int);
        lemma_split_step(rem, sep);
        assert(rem =~= s@.subrange(start as int, n as int));
        assert((result.deep_view() + seq![w@]) =~~= result.deep_view() + split_chars(
            rem,
            sep,
        ));
    }
    result.push(w);
    proof {
        assert(result.deep_view() =~~= result.deep_view().take(
            result.deep_view().len() - 1,
        ) + seq![w@]);
    }
    result
}

/// Joins `words` with `sep` between consecutive words.
pub fn join_str(words: &Vec<String>, sep: &str) -> (r: String)
    ensures
        r@ == join_chars(words.deep_view(), sep@),
{
    let mut out = String::new();
    let n: usize = words.len();
    if n == 0 {
        return out;
    }
    let mut i: usize = 0;
    proof {
        assert(words.deep_view().skip(0) =~~= words.deep_view());
    }
    while i < n
        invariant
            i <= n,
            n == words@.len(),
            join_chars(words.deep_view(), sep@) == out@ + join_chars(
                words.deep_view().skip(i as int),
                sep@,
            ),
        decreases n - i,
    {
        proof {
            let rest = words.deep_view().skip(i as int);
            assert(rest[0] == words.deep_view()[i as int]);
            if i + 1 < n {
                assert(rest.drop_first() =~~= words.deep_view().skip(i + 1));
                assert(join_chars(rest, sep@) == rest[0] + sep@ + join_chars(
                    words.deep_view().skip(i + 1),
                    sep@,
                ));
            } else {
                assert(rest.len() == 1);
                assert(join_chars(rest, sep@) == rest[0]);
            }
        }
        out.append(words[i].as_str());
        if i + 1 < n {
            out.append(sep);
        }
        i = i + 1;
    }
    proof {
        assert(words.deep_view().skip(n as int) =~~= Seq::<Seq<char>>::empty());
        assert(join_chars(words.deep_view(), sep@) =~= out@);
    }
    out
}

/// Whether `c` is a decimal digit.
pub open spec fn is_dec_digit(c: char) -> bool {
    ('0' as int) <= c as int <= ('9' as int)
}

/// The value of a digit string, most significant digit first.
pub open spec fn dec_val(s: Seq<char>) -> int
    decreases s.len(),
{
    if s.len() == 0 {
        0
    } else {
        dec_val(s.drop_last()) * 10 + (s.last() as int - ('0' as int))
    }
}

/// Every character is a decimal digit.
pub open spec fn all_dec_digits(s: Seq<char>) -> bool
    decreases s.len(),
{
    if s.len() == 0 {
        true
    } else {
        is_dec_digit(s[0]) && all_dec_digits(s.drop_first())
    }
}

/// What `u32::from_str` accepts: an optional leading plus sign, then one or
/// more decimal digits whose value fits in a `u32`.
pub open spec fn u32_dec_parse(s: Seq<char>) -> Option<u32> {
    let t = if s.len() > 0 && s[0] == '+' {
        s.drop_first()
    } else {
        s
    };
    if t.len() > 0 && all_dec_digits(t) && dec_val(t) <= u32::MAX {
        Some(dec_val(t) as u32)
    } else {
        None
    }
}

/// Every position of an all-digit string holds a digit.
pub proof fn lemma_all_digits_at(s: Seq<char>, i: int)
    requires
        all_dec_digits(s),
        0 <= i < s.len(),
    ensures
        is_dec_digit(s[i]),
    decreases i,
{
    if i > 0 {
        lemma_all_digits_at(s.drop_first(), i - 1);
    }
}

/// A non-digit at some position refutes `all_dec_digits`.
pub proof fn lemma_not_all_digits(s: Seq<char>, i: int)
    requires
        0 <= i < s.len(),
        !is_dec_digit(s[i]),
    ensures
        !all_dec_digits(s),
    decreases i,
{
    if i > 0 && all_dec_digits(s) {
        lemma_not_all_digits(s.drop_first(), i - 1);
    }
}

/// Extending an all-digit prefix by one digit keeps it all digits.
pub proof fn lemma_all_digits_push(s: Seq<char>, c: char)
    requires
        all_dec_digits(s),
        is_dec_digit(c),
    ensures
        all_dec_digits(s + seq![c]),
    decreases s.len(),
{
    if s.len() == 0 {
        assert((s + seq![c])[0] == c);
        assert(all_dec_digits(Seq::<char>::empty()));
        assert((s + seq![c]).drop_first() =~= Seq::<char>::empty());
    } else {
        lemma_all_digits_push(s.drop_first(), c);
        assert((s + seq![c]).drop_first() =~= s.drop_first() + seq![c]);
    }
}



/// A non-digit after the optional sign makes the parse fail.
proof fn lemma_u32_parse_none_at(s: Seq<char>, k: int)
    requires
        ({
            let t = if s.len() > 0 && s[0] == '+' {
                s.drop_first()
            } else {
                s
            };
            0 <= k < t.len() && !is_dec_digit(t[k])
        }),
    ensures
        u32_dec_parse(s) is None,
{
    let t = if s.len() > 0 && s[0] == '+' {
        s.drop_first()
    } else {
        s
    };
    lemma_not_all_digits(t, k);
}

/// A digit-string value above `u32::MAX` makes the parse fail.
proof fn lemma_u32_parse_none_big(s: Seq<char>)
    requires
        ({
            let t = if s.len() > 0 && s[0] == '+' {
                s.drop_first()
            } else {
                s
            };
            dec_val(t) > u32::MAX
        }),
    ensures
        u32_dec_parse(s) is None,
{
}

/// Once some prefix of an all-digit string exceeds `u32::MAX`, the whole
/// string does.
proof fn lemma_dec_val_extend_exceeds(t: Seq<char>, k: int)
    requires
        0 < k <= t.len(),
        all_dec_digits(t),
        dec_val(t.take(k)) > u32::MAX,
    ensures
        dec_val(t) > u32::MAX,
    decreases t.len() - k,
{
    if k == t.len() {
        assert(t.take(k) =~= t);
    } else {
        assert(t.take(k + 1).drop_last() =~= t.take(k));
        assert(is_dec_digit(t.take(k + 1).last())) by {
            assert(t.take(k + 1).last() == t[k]);
            lemma_all_digits_at(t, k);
        }
        assert(dec_val(t.take(k + 1)) == dec_val(t.take(k)) * 10 + (t[k] as int - ('0' as int)));
        lemma_dec_val_extend_exceeds(t, k + 1);
    }
}

/// Parses a decimal `u32` from `s`, exactly as `u32::from_str` would.
pub fn parse_u32_dec(s: &str) -> (r: Option<u32>)
    ensures
        r == u32_dec_parse(s@),
{
    let n: usize = s.unicode_len();
    if n == 0 {
        return None;
    }
    let first: char = s.get_char(0);
    let start: usize = if first == '+' {
        1
    } else {
        0
    };
    let ghost t = if s@[0] == '+' {
        s@.drop_first()
    } else {
        s@
    };
    if n == start {
        return None;
    }
    let mut acc: u32 = 0;
    let mut i: usize = start;
    proof {
        assert(t.take(0) =~= Seq::<char>::empty());
    }
    while i < n
        invariant
            start <= i <= n,
            n == s@.len(),
            start == (if s@[0] == '+' {
                1int
            } else {
                0int
            }),
            t == (if s@[0] == '+' {
                s@.drop_first()
            } else {
                s@
            }),
            all_dec_digits(t.take((i - start) as int)),
            acc == dec_val(t.take((i - start) as int)),
        decreases n - i,
    {
        let c: char = s.get_char(i);
        let cv: u32 = c as u32;
        if cv < 48 || cv > 57 {
            proof {
                assert(t[i - start] == s@[i as int]);
                assert(!is_dec_digit(t[i - start]));
                lemma_u32_parse_none_at(s@, i - start);
            }
            return None;
        }
        let d: u32 = cv - 48;
        proof {
            assert(t[i - start] == s@[i as int]);
            assert(is_dec_digit(t[i - start]));
            assert(t.take((i - start) + 1) =~= t.take((i - start) as int) + seq![
                t[i - start],
            ]);
            lemma_all_digits_push(t.take((i - start) as int), t[i - start]);
            assert(t.take((i - start) + 1).drop_last() =~= t.take((i - start) as int));
            assert(t.take((i - start) + 1).last() == t[i - start]);
        }
        if acc > (0xFFFF_FFFFu32 - d) / 10 {
            proof {
                let m: int = 0xFFFF_FFFFu32 - d;
                assert(m == 10 * (m / 10) + m % 10);
                assert(m % 10 <= 9);
                assert(acc as int >= m / 10 + 1);
                assert(acc as int * 10 + d > u32::MAX);
                assert(dec_val(t.take((i - start) + 1)) == acc as int * 10 + (t[i - start]
                    as int - ('0' as int)));
                assert(t[i - start] as int - ('0' as int) == d);
                if all_dec_digits(t) {
                    lemma_dec_val_extend_exceeds(t, (i - start) + 1);
                    lemma_u32_parse_none_big(s@);
                }
            }
            return None;
        }
        acc = acc * 10 + d;
        i = i + 1;
    }
    proof {
        assert(t.take((n as int) - start) =~= t);
    }
    Some(acc)
}

} // verus!
