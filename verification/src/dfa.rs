//! The table-driven DFA engine: a transition table, a start state and an
//! accepting state, and one operation that consumes a string and reports
//! whether it is accepted.

use vstd::prelude::*;
use crate::language::{Language, sym_index, lemma_sym_index_in_range};

verus! {

/// Why an input string was not accepted.
#[derive(Clone, Copy, Debug, PartialEq, Eq, Structural)]
pub enum RejectReason {
    /// A character outside the alphabet was encountered; matching stopped there.
    UnrecognizedSymbol,
    /// Every character was recognized, but the walk did not end in the
    /// accepting state.
    NotInAcceptingState,
}

/// The verdict of matching one input string.
#[derive(Clone, Copy, Debug, PartialEq, Eq, Structural)]
pub enum MatchResult {
    Accepted,
    Rejected(RejectReason),
}

/// The state reached from `q` after consuming all of `s`, or `None` as soon
/// as a character of `s` has no symbol index in `alphabet`.
pub open spec fn run_from(
    table: Seq<Seq<usize>>,
    alphabet: Seq<char>,
    q: int,
    s: Seq<char>,
) -> Option<int>
    decreases s.len(),
{
    if s.len() == 0 {
        Some(q)
    } else {
        match sym_index(alphabet, s[0]) {
            None => None,
            Some(k) => run_from(table, alphabet, table[q][k] as int, s.drop_first()),
        }
    }
}

/// The verdict read off the final state: the walk is judged only at
/// end-of-input, and an unrecognized character rejects outright.
pub open spec fn decide(outcome: Option<int>, halt: int) -> MatchResult {
    match outcome {
        None => MatchResult::Rejected(RejectReason::UnrecognizedSymbol),
        Some(q) => if q == halt {
            MatchResult::Accepted
        } else {
            MatchResult::Rejected(RejectReason::NotInAcceptingState)
        },
    }
}

/// A deterministic finite automaton: an alphabet, a transition table indexed
/// by state and symbol index, a start state and one accepting state. The
/// configuration is fixed at construction; each match walks it afresh.
pub struct Dfa {
    language: Language,
    table: Vec<Vec<usize>>,
    start: usize,
    halt: usize,
}

impl Dfa {
    pub closed spec fn spec_table(&self) -> Seq<Seq<usize>> {
        self.table@.map_values(|row: Vec<usize>| row@)
    }

    pub closed spec fn spec_language(&self) -> Language {
        self.language
    }

    pub open spec fn spec_alphabet(&self) -> Seq<char> {
        self.spec_language()@
    }

    pub closed spec fn spec_start(&self) -> int {
        self.start as int
    }

    pub closed spec fn spec_halt(&self) -> int {
        self.halt as int
    }

    /// Structural invariant: one row per state, one column per symbol, every
    /// entry a valid state index, and start and accepting states in range.
    pub open spec fn wf(&self) -> bool {
        &&& self.spec_table().len() > 0
        &&& forall|q: int| 0 <= q < self.spec_table().len()
            ==> (#[trigger] self.spec_table()[q]).len() == self.spec_alphabet().len()
        &&& forall|q: int, k: int|
            0 <= q < self.spec_table().len() && 0 <= k < self.spec_table()[q].len()
                ==> (#[trigger] self.spec_table()[q][k]) < self.spec_table().len()
        &&& 0 <= self.spec_start() < self.spec_table().len()
        &&& 0 <= self.spec_halt() < self.spec_table().len()
        &&& self.spec_language().wf()
    }

    /// The verdict this automaton gives to the character sequence `s`.
    pub open spec fn spec_matches(&self, s: Seq<char>) -> MatchResult {
        decide(run_from(self.spec_table(), self.spec_alphabet(), self.spec_start(), s), self.spec_halt())
    }

    pub fn new(language: Language, table: Vec<Vec<usize>>, start: usize, halt: usize) -> (r: Dfa)
        requires
            table@.len() > 0,
            forall|q: int| 0 <= q < table@.len()
                ==> (#[trigger] table@[q])@.len() == language@.len(),
            forall|q: int, k: int|
                0 <= q < table@.len() && 0 <= k < table@[q]@.len()
                    ==> (#[trigger] table@[q]@[k]) < table@.len(),
            start < table@.len(),
            halt < table@.len(),
            language.wf(),
        ensures
            r.wf(),
            r.spec_table() == table@.map_values(|row: Vec<usize>| row@),
            r.spec_alphabet() == language@,
            r.spec_start() == start as int,
            r.spec_halt() == halt as int,
    {
        Dfa { language, table, start, halt }
    }

    /// Walks the table over `input`, one character at a time, and reports the
    /// verdict evaluated at end-of-input. A character outside the alphabet
    /// rejects immediately; the remaining characters are not examined.
    pub fn matches(&self, input: &str) -> (r: MatchResult)
        requires
            self.wf(),
        ensures
            r == self.spec_matches(input@),
    {
        let n = input.unicode_len();
        let mut state: usize = self.start;
        let mut i: usize = 0;
        proof {
            assert(input@.skip(0) =~= input@);
        }
        while i < n
            invariant
                self.wf(),
                i <= n,
                n == input@.len(),
                state < self.table@.len(),
                run_from(self.spec_table(), self.spec_alphabet(), self.spec_start(), input@)
                    == run_from(self.spec_table(), self.spec_alphabet(), state as int, input@.skip(i as int)),
            decreases n - i,
        {
            let ch = input.get_char(i);
            let ghost rest = input@.skip(i as int);
            assert(rest[0] == ch);
            match self.language.resolve(ch) {
                None => {
                    assert(run_from(self.spec_table(), self.spec_alphabet(), state as int, rest) is None);
                    return MatchResult::Rejected(RejectReason::UnrecognizedSymbol);
                },
                Some(k) => {
                    proof {
                        lemma_sym_index_in_range(self.spec_alphabet(), ch);
                        assert(rest.drop_first() =~= input@.skip(i + 1));
                    }
                    state = self.table[state][k];
                    i = i + 1;
                },
            }
        }
        proof {
            assert(input@.skip(n as int) =~= Seq::<char>::empty());
        }
        if state == self.halt {
            MatchResult::Accepted
        } else {
            MatchResult::Rejected(RejectReason::NotInAcceptingState)
        }
    }
}

/// Running over `s.push(c)` is running over `s`, then one more step on `c`.
pub proof fn lemma_run_snoc(
    table: Seq<Seq<usize>>,
    alphabet: Seq<char>,
    q: int,
    s: Seq<char>,
    c: char,
)
    ensures
        run_from(table, alphabet, q, s.push(c)) == (match run_from(table, alphabet, q, s) {
            None => None::<int>,
            Some(p) => match sym_index(alphabet, c) {
                None => None::<int>,
                Some(k) => Some(table[p][k] as int),
            },
        }),
    decreases s.len(),
{
    if s.len() == 0 {
        assert(s.push(c)[0] == c);
        assert(s.push(c).drop_first() =~= Seq::<char>::empty());
    } else {
        assert(s.push(c)[0] == s[0]);
        assert(s.push(c).drop_first() =~= s.drop_first().push(c));
        match sym_index(alphabet, s[0]) {
            None => {},
            Some(k) => {
                lemma_run_snoc(table, alphabet, table[q][k] as int, s.drop_first(), c);
            },
        }
    }
}

/// One unrecognized character anywhere makes the whole run fail, whatever
/// came before it or follows it.
pub proof fn lemma_run_unrecognized(
    table: Seq<Seq<usize>>,
    alphabet: Seq<char>,
    q: int,
    s: Seq<char>,
    i: int,
)
    requires
        0 <= i < s.len(),
        sym_index(alphabet, s[i]) is None,
    ensures
        run_from(table, alphabet, q, s) is None,
    decreases s.len(),
{
    if i > 0 {
        match sym_index(alphabet, s[0]) {
            None => {},
            Some(k) => {
                assert(s.drop_first()[i - 1] == s[i]);
                lemma_run_unrecognized(table, alphabet, table[q][k] as int, s.drop_first(), i - 1);
            },
        }
    }
}

/// Matching is pure and instances share no state: two automata with the same
/// configuration give the same input string the same verdict, so matching a
/// string twice with independent instances yields the same result.
pub proof fn lemma_matches_deterministic(d1: &Dfa, d2: &Dfa, s: Seq<char>)
    requires
        d1.spec_table() == d2.spec_table(),
        d1.spec_alphabet() == d2.spec_alphabet(),
        d1.spec_start() == d2.spec_start(),
        d1.spec_halt() == d2.spec_halt(),
    ensures
        d1.spec_matches(s) == d2.spec_matches(s),
{
}

} // verus!
