//! The concrete automaton for the regular expression `(a|b)*abb`: its
//! alphabet, its transition table, and the matching entry points.

use vstd::prelude::*;
use crate::dfa::{
    Dfa, MatchResult, RejectReason, decide, lemma_run_snoc, lemma_run_unrecognized, run_from,
};
use crate::language::{Language, sym_index, lemma_sym_index_none};

verus! {

/// The recognized characters, in symbol-index order: `'a'` is 0, `'b'` is 1.
pub open spec fn abb_alphabet() -> Seq<char> {
    seq!['a', 'b']
}

/// The transition table, one row per state and one column per symbol.
pub open spec fn abb_table() -> Seq<Seq<usize>> {
    seq![
        seq![1usize, 0usize],
        seq![1usize, 2usize],
        seq![1usize, 3usize],
        seq![1usize, 0usize],
    ]
}

/// The state the walk begins in.
pub open spec fn abb_start() -> int {
    0
}

/// The accepting state. It is not absorbing: further input can leave it.
pub open spec fn abb_halt() -> int {
    3
}

/// The verdict of the `(a|b)*abb` automaton on the character sequence `s`.
pub open spec fn abb_spec_matches(s: Seq<char>) -> MatchResult {
    decide(run_from(abb_table(), abb_alphabet(), abb_start(), s), abb_halt())
}

/// The symbol index of `c` in the fixed alphabet, spelled out per character.
pub proof fn lemma_abb_sym_index(c: char)
    ensures
        sym_index(abb_alphabet(), c) == (if c == 'a' {
            Some(0int)
        } else if c == 'b' {
            Some(1int)
        } else {
            None
        }),
{
    let alphabet = abb_alphabet();
    let tail = alphabet.drop_first();
    assert(tail =~= seq!['b']);
    if c == 'b' {
        assert(sym_index(tail, c) == Some(0int));
    } else if c != 'a' {
        assert(forall|j: int| 0 <= j < alphabet.len() ==> alphabet[j] != c);
        lemma_sym_index_none(alphabet, c);
    }
}

/// The fixed two-symbol language `{'a', 'b'}`.
pub fn abb_language() -> (r: Language)
    ensures
        r@ == abb_alphabet(),
        r.wf(),
{
    let mut alphabet: Vec<char> = Vec::new();
    alphabet.push('a');
    alphabet.push('b');
    proof {
        assert(alphabet@ =~= abb_alphabet());
    }
    Language::new(alphabet)
}

/// A fresh automaton for `(a|b)*abb`, with nothing carried over from any
/// earlier match.
pub fn abb_automaton() -> (r: Dfa)
    ensures
        r.wf(),
        r.spec_table() == abb_table(),
        r.spec_alphabet() == abb_alphabet(),
        r.spec_start() == abb_start(),
        r.spec_halt() == abb_halt(),
{
    let language = abb_language();
    let mut row0: Vec<usize> = Vec::new();
    row0.push(1);
    row0.push(0);
    let mut row1: Vec<usize> = Vec::new();
    row1.push(1);
    row1.push(2);
    let mut row2: Vec<usize> = Vec::new();
    row2.push(1);
    row2.push(3);
    let mut row3: Vec<usize> = Vec::new();
    row3.push(1);
    row3.push(0);
    let mut table: Vec<Vec<usize>> = Vec::new();
    table.push(row0);
    table.push(row1);
    table.push(row2);
    table.push(row3);
    proof {
        assert(table@.map_values(|row: Vec<usize>| row@) =~~= abb_table());
    }
    Dfa::new(language, table, 0, 3)
}

/// Maps a character to its transition-table column: the symbol index within
/// the alphabet, or `None` for a character outside it.
pub fn get_transition_value(input_ch: char) -> (r: Option<usize>)
    ensures
        r == (if input_ch == 'a' {
            Some(0usize)
        } else if input_ch == 'b' {
            Some(1usize)
        } else {
            None
        }),
{
    proof {
        lemma_abb_sym_index(input_ch);
    }
    let language = abb_language();
    language.resolve(input_ch)
}

/// Every character of `s` is drawn from the alphabet `{'a', 'b'}`.
pub open spec fn all_ab(s: Seq<char>) -> bool {
    forall|i: int| 0 <= i < s.len() ==> (s[i] == 'a' || s[i] == 'b')
}

/// `suffix` stands, character for character, at the end of `s`.
pub open spec fn ends_with(s: Seq<char>, suffix: Seq<char>) -> bool {
    suffix.len() <= s.len() && s.subrange(s.len() - suffix.len(), s.len() as int) == suffix
}

/// The state reached after reading `s`, read off the longest relevant suffix:
/// 3 after `"abb"`, 2 after `"ab"`, 1 after `"a"`, 0 otherwise.
spec fn abb_state_of(s: Seq<char>) -> int {
    if s.len() >= 3 && s[s.len() - 3] == 'a' && s[s.len() - 2] == 'b' && s[s.len() - 1] == 'b' {
        3
    } else if s.len() >= 2 && s[s.len() - 2] == 'a' && s[s.len() - 1] == 'b' {
        2
    } else if s.len() >= 1 && s[s.len() - 1] == 'a' {
        1
    } else {
        0
    }
}

/// Over the alphabet, the run never fails and its state tracks the suffix.
proof fn lemma_abb_run_state(s: Seq<char>)
    requires
        all_ab(s),
    ensures
        run_from(abb_table(), abb_alphabet(), abb_start(), s) == Some(abb_state_of(s)),
    decreases s.len(),
{
    if s.len() > 0 {
        let s0 = s.drop_last();
        let c = s.last();
        assert(all_ab(s0));
        lemma_abb_run_state(s0);
        lemma_run_snoc(abb_table(), abb_alphabet(), abb_start(), s0, c);
        lemma_abb_sym_index(c);
        assert(s0.push(c) =~= s);
    }
}

/// A string over the alphabet `{'a', 'b'}` is accepted exactly when it ends
/// with the literal suffix `"abb"`; otherwise it is rejected for not ending
/// in the accepting state.
pub proof fn lemma_abb_accepts_iff_suffix(s: Seq<char>)
    requires
        all_ab(s),
    ensures
        abb_spec_matches(s) == MatchResult::Accepted <==> ends_with(s, seq!['a', 'b', 'b']),
        !ends_with(s, seq!['a', 'b', 'b']) ==> abb_spec_matches(s)
            == MatchResult::Rejected(RejectReason::NotInAcceptingState),
{
    lemma_abb_run_state(s);
    if s.len() >= 3 && s[s.len() - 3] == 'a' && s[s.len() - 2] == 'b' && s[s.len() - 1] == 'b' {
        assert(s.subrange(s.len() - 3, s.len() as int) =~= seq!['a', 'b', 'b']);
    }
    if ends_with(s, seq!['a', 'b', 'b']) {
        let sub = s.subrange(s.len() - 3, s.len() as int);
        assert(s[s.len() - 3] == sub[0] && s[s.len() - 2] == sub[1] && s[s.len() - 1] == sub[2]);
    }
}

/// A string holding any character outside `{'a', 'b'}` is rejected as
/// unrecognized, wherever that character stands, even after a prefix that
/// had already reached the accepting state.
pub proof fn lemma_abb_rejects_unrecognized(s: Seq<char>)
    requires
        !all_ab(s),
    ensures
        abb_spec_matches(s) == MatchResult::Rejected(RejectReason::UnrecognizedSymbol),
{
    let i = choose|i: int| 0 <= i < s.len() && !(s[i] == 'a' || s[i] == 'b');
    lemma_abb_sym_index(s[i]);
    lemma_run_unrecognized(abb_table(), abb_alphabet(), abb_start(), s, i);
}

/// Table consistency: the table has one row per state, one column per symbol,
/// and every entry is a valid state index.
pub proof fn lemma_abb_table_consistent()
    ensures
        abb_table().len() == 4,
        forall|q: int| 0 <= q < abb_table().len()
            ==> (#[trigger] abb_table()[q]).len() == abb_alphabet().len(),
        forall|q: int, k: int|
            0 <= q < abb_table().len() && 0 <= k < abb_alphabet().len()
                ==> (#[trigger] abb_table()[q][k]) < abb_table().len(),
{
}

/// Decides whether `input_string` belongs to the language of `(a|b)*abb`.
/// Each call walks a fresh automaton, so no state leaks between matches.
pub fn regex_match(input_string: &str) -> (r: MatchResult)
    ensures
        r == abb_spec_matches(input_string@),
{
    let automata = abb_automaton();
    automata.matches(input_string)
}

} // verus!
