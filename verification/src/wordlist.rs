//! Word tables for mnemonic phrases: exactly 2048 distinct, nonempty,
//! space-free words with indexed and reverse lookup.
use vstd::prelude::*;

verus! {

#[derive(Debug, Clone, PartialEq, Eq)]
pub enum WordlistError {
    InvalidIndex(usize),
    InvalidWord(String),
}

/// The well-formedness of a word table: 2048 entries, each nonempty and
/// free of the separator, no two alike.
pub open spec fn wordlist_wf(ws: Seq<Seq<char>>) -> bool {
    ws.len() == 2048 && (forall|i: int| 0 <= i < ws.len() ==> (#[trigger] ws[i]).len() >= 1)
        && (forall|i: int, j: int|
        0 <= i < ws.len() && 0 <= j < ws[i].len() ==> #[trigger] ws[i][j] != ' ') && (forall|
        i: int,
        j: int,
    |
        0 <= i < j < ws.len() ==> #[trigger] ws[i] != #[trigger] ws[j])
}

/// The first position of `w` in the table, or the length if absent.
pub open spec fn word_position(ws: Seq<Seq<char>>, w: Seq<char>) -> int
    decreases ws.len(),
{
    if ws.len() == 0 {
        0
    } else if ws[0] == w {
        0
    } else {
        1 + word_position(ws.drop_first(), w)
    }
}

pub proof fn lemma_word_position(ws: Seq<Seq<char>>, w: Seq<char>)
    ensures
        0 <= word_position(ws, w) <= ws.len(),
        word_position(ws, w) < ws.len() ==> ws[word_position(ws, w)] == w,
        forall|j: int| 0 <= j < word_position(ws, w) ==> ws[j] != w,
    decreases ws.len(),
{
    if ws.len() > 0 && ws[0] != w {
        lemma_word_position(ws.drop_first(), w);
        assert forall|j: int| 0 <= j < word_position(ws, w) implies ws[j] != w by {
            if j > 0 {
                assert(ws.drop_first()[j - 1] == ws[j]);
            }
        }
    }
}

/// A word table held as a value, validated once at construction.
#[derive(Debug, Clone, PartialEq, Eq)]
pub struct Wordlist {
    pub words: Vec<String>,
}

impl Wordlist {
    pub open spec fn wf(self) -> bool {
        wordlist_wf(self.words.deep_view())
    }

    /// Accepts a table of exactly 2048 distinct, nonempty, space-free
    /// words.
    pub fn new(words: Vec<String>) -> (r: Result<Self, WordlistError>)
        ensures
            r is Ok <==> wordlist_wf(words.deep_view()),
            r matches Ok(w) ==> w.wf() && w.words.deep_view() == words.deep_view(),
    {
        let n: usize = words.len();
        if n != 2048 {
            return Err(WordlistError::InvalidIndex(n));
        }
        proof {
            assert(words.deep_view().len() == 2048);
        }
        let mut i: usize = 0;
        while i < n
            invariant
                i <= n,
                n == words@.len(),
                n == 2048,
                forall|x: int|
                    0 <= x < i ==> (#[trigger] words.deep_view()[x]).len() >= 1,
                forall|x: int, y: int|
                    0 <= x < i && 0 <= y < words.deep_view()[x].len()
                        ==> #[trigger] words.deep_view()[x][y] != ' ',
            decreases n - i,
        {
            let word: &String = &words[i];
            let len_w: usize = word.as_str().unicode_len();
            if len_w == 0 {
                proof {
                    assert(words.deep_view()[i as int] == words@[i as int]@);
                    assert((words.deep_view()[i as int]).len() == 0);
                    assert(!wordlist_wf(words.deep_view()));
                }
                return Err(WordlistError::InvalidWord(word.clone()));
            }
            let mut c: usize = 0;
            while c < len_w
                invariant
                    c <= len_w,
                    len_w == word@.len(),
                    word == &words@[i as int],
                    i < words@.len(),
                    forall|y: int| 0 <= y < c ==> word@[y] != ' ',
                decreases len_w - c,
            {
                if word.as_str().get_char(c) == ' ' {
                    proof {
                        assert(words.deep_view()[i as int] == words@[i as int]@);
                        assert(words.deep_view()[i as int][c as int] == ' ');
                        assert(!wordlist_wf(words.deep_view()));
                    }
                    return Err(WordlistError::InvalidWord(word.clone()));
                }
                c = c + 1;
            }
            proof {
                assert(words.deep_view()[i as int] == words@[i as int]@);
            }
            i = i + 1;
        }
        let mut a: usize = 0;
        while a < n
            invariant
                a <= n,
                n == words@.len(),
                n == 2048,
                forall|x: int|
                    0 <= x < words.deep_view().len() ==> (#[trigger] words.deep_view()[x]).len() >= 1,
                forall|x: int, y: int|
                    0 <= x < words.deep_view().len() && 0 <= y < words.deep_view()[x].len()
                        ==> #[trigger] words.deep_view()[x][y] != ' ',
                forall|x: int, y: int|
                    0 <= x < y < words.deep_view().len() && x < a
                        ==> #[trigger] words.deep_view()[x] != #[trigger] words.deep_view()[y],
            decreases n - a,
        {
            let mut b: usize = a + 1;
            while b < n
                invariant
                    a < b <= n,
                    n == words@.len(),
                    forall|y: int|
                        a < y < b ==> words.deep_view()[a as int]
                            != #[trigger] words.deep_view()[y],
                decreases n - b,
            {
                if words[a] == words[b] {
                    proof {
                        assert(words.deep_view()[a as int] == words@[a as int]@);
                        assert(words.deep_view()[b as int] == words@[b as int]@);
                        assert(words.deep_view()[a as int] == words.deep_view()[b as int]);
                        assert(!wordlist_wf(words.deep_view()));
                    }
                    return Err(WordlistError::InvalidWord(words[b].clone()));
                }
                proof {
                    assert(words.deep_view()[a as int] == words@[a as int]@);
                    assert(words.deep_view()[b as int] == words@[b as int]@);
                }
                b = b + 1;
            }
            a = a + 1;
        }
        Ok(Self { words })
    }

    /// The word at `index`, or an error beyond the table.
    pub fn get(&self, index: usize) -> (r: Result<String, WordlistError>)
        requires
            self.wf(),
        ensures
            index < 2048 ==> (r matches Ok(w) && w@ == self.words.deep_view()[index as int]),
            index >= 2048 ==> r == Err::<String, WordlistError>(
                WordlistError::InvalidIndex(index),
            ),
    {
        if index >= 2048 {
            return Err(WordlistError::InvalidIndex(index));
        }
        proof {
            assert(self.words.deep_view()[index as int] == self.words@[index as int]@);
        }
        Ok(self.words[index].clone())
    }

    /// The position of `word` in the table, or an error if absent.
    pub fn get_index(&self, word: &str) -> (r: Result<usize, WordlistError>)
        requires
            self.wf(),
        ensures
            ({
                let pos = word_position(self.words.deep_view(), word@);
                if pos < self.words.deep_view().len() {
                    r matches Ok(i) && i == pos
                } else {
                    r matches Err(WordlistError::InvalidWord(w)) && w@ == word@
                }
            }),
    {
        let n: usize = self.words.len();
        let owned: String = String::from_str(word);
        let mut i: usize = 0;
        proof {
            lemma_word_position(self.words.deep_view(), word@);
        }
        while i < n
            invariant
                i <= n,
                n == self.words@.len(),
                self.wf(),
                owned@ == word@,
                forall|j: int| 0 <= j < i ==> self.words.deep_view()[j] != word@,
            decreases n - i,
        {
            if words_match(&self.words[i], &owned) {
                proof {
                    assert(self.words.deep_view()[i as int] == word@);
                    lemma_word_position_at(self.words.deep_view(), word@, i as int);
                }
                return Ok(i);
            }
            proof {
                assert(self.words.deep_view()[i as int] == self.words@[i as int]@);
            }
            i = i + 1;
        }
        proof {
            lemma_word_position(self.words.deep_view(), word@);
            if word_position(self.words.deep_view(), word@) < self.words.deep_view().len() {
                assert(self.words.deep_view()[word_position(self.words.deep_view(), word@)]
                    == word@);
                assert(false);
            }
        }
        Err(WordlistError::InvalidWord(owned))
    }
}

fn words_match(a: &String, b: &String) -> (r: bool)
    ensures
        r == (a@ == b@),
{
    *a == *b
}

/// In a table without repeats, every entry is found at its own position.
pub proof fn lemma_word_position_entry(ws: Seq<Seq<char>>, idx: int)
    requires
        wordlist_wf(ws),
        0 <= idx < ws.len(),
    ensures
        word_position(ws, ws[idx]) == idx,
{
    lemma_word_position(ws, ws[idx]);
    let p = word_position(ws, ws[idx]);
    if p < idx {
        assert(ws[p] != ws[idx]);
        assert(false);
    }
    if p > idx {
        assert(ws[idx] != ws[idx]);
        assert(false);
    }
}

/// A match at `i` after a match-free prefix pins down `word_position`.
proof fn lemma_word_position_at(ws: Seq<Seq<char>>, w: Seq<char>, i: int)
    requires
        0 <= i < ws.len(),
        ws[i] == w,
        forall|j: int| 0 <= j < i ==> ws[j] != w,
    ensures
        word_position(ws, w) == i,
    decreases ws.len(),
{
    if ws.len() > 0 && ws[0] != w {
        assert forall|j: int| 0 <= j < i - 1 implies ws.drop_first()[j] != w by {
            assert(ws.drop_first()[j] == ws[j + 1]);
        }
        lemma_word_position_at(ws.drop_first(), w, i - 1);
    }
}

} // verus!
