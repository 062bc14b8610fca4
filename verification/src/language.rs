//! The alphabet of the automaton: an ordered, fixed set of recognized
//! characters, and the mapping from a character to its symbol index.

use vstd::prelude::*;

verus! {

/// The first position of `c` in `alphabet`, or `None` if `c` does not occur.
pub open spec fn sym_index(alphabet: Seq<char>, c: char) -> Option<int>
    decreases alphabet.len(),
{
    if alphabet.len() == 0 {
        None
    } else if alphabet[0] == c {
        Some(0int)
    } else {
        match sym_index(alphabet.drop_first(), c) {
            None => None,
            Some(i) => Some(i + 1),
        }
    }
}

/// `sym_index` finds exactly the first occurrence.
pub proof fn lemma_sym_index_first(alphabet: Seq<char>, c: char, i: int)
    requires
        0 <= i < alphabet.len(),
        alphabet[i] == c,
        forall|j: int| 0 <= j < i ==> alphabet[j] != c,
    ensures
        sym_index(alphabet, c) == Some(i),
    decreases i,
{
    if i > 0 {
        lemma_sym_index_first(alphabet.drop_first(), c, i - 1);
    }
}

/// `sym_index` reports `None` exactly when `c` occurs nowhere in the alphabet.
pub proof fn lemma_sym_index_none(alphabet: Seq<char>, c: char)
    requires
        forall|j: int| 0 <= j < alphabet.len() ==> alphabet[j] != c,
    ensures
        sym_index(alphabet, c) is None,
    decreases alphabet.len(),
{
    if alphabet.len() > 0 {
        lemma_sym_index_none(alphabet.drop_first(), c);
    }
}

/// A found index is in range and names an occurrence of `c`.
pub proof fn lemma_sym_index_in_range(alphabet: Seq<char>, c: char)
    ensures
        match sym_index(alphabet, c) {
            Some(i) => 0 <= i < alphabet.len() && alphabet[i] == c,
            None => true,
        },
    decreases alphabet.len(),
{
    if alphabet.len() > 0 && alphabet[0] != c {
        lemma_sym_index_in_range(alphabet.drop_first(), c);
    }
}

/// The recognized alphabet, kept in order. Symbol indices are positions in it.
pub struct Language {
    alphabet: Vec<char>,
}

impl View for Language {
    type V = Seq<char>;

    closed spec fn view(&self) -> Seq<char> {
        self.alphabet@
    }
}

impl Language {
    /// All symbols are distinct, so each recognized character has one index.
    pub open spec fn wf(&self) -> bool {
        forall|i: int, j: int| 0 <= i < j < self@.len() ==> self@[i] != self@[j]
    }

    pub fn new(alphabet: Vec<char>) -> (r: Language)
        requires
            forall|i: int, j: int| 0 <= i < j < alphabet@.len() ==> alphabet@[i] != alphabet@[j],
        ensures
            r@ == alphabet@,
            r.wf(),
    {
        Language { alphabet }
    }

    /// The number of symbols in the alphabet.
    pub fn size(&self) -> (r: usize)
        ensures
            r == self@.len(),
    {
        self.alphabet.len()
    }

    /// Maps a character to its zero-based symbol index, or `None` for a
    /// character outside the alphabet. The first matching position wins.
    pub fn resolve(&self, c: char) -> (r: Option<usize>)
        ensures
            match r {
                Some(k) => sym_index(self@, c) == Some(k as int),
                None => sym_index(self@, c) is None,
            },
    {
        let mut i: usize = 0;
        while i < self.alphabet.len()
            invariant
                i <= self.alphabet@.len(),
                forall|j: int| 0 <= j < i ==> self.alphabet@[j] != c,
            decreases self.alphabet@.len() - i,
        {
            if self.alphabet[i] == c {
                proof {
                    lemma_sym_index_first(self@, c, i as int);
                }
                return Some(i);
            }
            i = i + 1;
        }
        proof {
            lemma_sym_index_none(self@, c);
        }
        None
    }
}

} // verus!
