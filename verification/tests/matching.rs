use table_dfa::abb::{abb_automaton, abb_language, get_transition_value, regex_match};
use table_dfa::dfa::{MatchResult, RejectReason};

#[test]
fn accepts_abb() {
    assert_eq!(regex_match("abb"), MatchResult::Accepted);
}

#[test]
fn accepts_aabb() {
    assert_eq!(regex_match("aabb"), MatchResult::Accepted);
}

#[test]
fn accepts_babb() {
    assert_eq!(regex_match("babb"), MatchResult::Accepted);
}

#[test]
fn accepts_ababb() {
    assert_eq!(regex_match("ababb"), MatchResult::Accepted);
}

#[test]
fn rejects_ab_not_in_accepting_state() {
    assert_eq!(
        regex_match("ab"),
        MatchResult::Rejected(RejectReason::NotInAcceptingState)
    );
}

#[test]
fn rejects_abc_unrecognized() {
    assert_eq!(
        regex_match("abc"),
        MatchResult::Rejected(RejectReason::UnrecognizedSymbol)
    );
}

#[test]
fn rejects_empty_string() {
    assert_eq!(
        regex_match(""),
        MatchResult::Rejected(RejectReason::NotInAcceptingState)
    );
}

#[test]
fn rejects_unrecognized_after_accepting_prefix() {
    // "abb" alone is accepted, but an unrecognized character after it still
    // rejects: the short-circuit does not keep an earlier acceptance.
    assert_eq!(
        regex_match("abbx"),
        MatchResult::Rejected(RejectReason::UnrecognizedSymbol)
    );
}

#[test]
fn rejects_unrecognized_at_front() {
    assert_eq!(
        regex_match("xabb"),
        MatchResult::Rejected(RejectReason::UnrecognizedSymbol)
    );
}

#[test]
fn rejects_non_ascii_character() {
    assert_eq!(
        regex_match("äbb"),
        MatchResult::Rejected(RejectReason::UnrecognizedSymbol)
    );
}

#[test]
fn accepting_state_is_not_absorbing() {
    // The table can leave state 3 on further input; only the final state counts.
    assert_eq!(
        regex_match("abbb"),
        MatchResult::Rejected(RejectReason::NotInAcceptingState)
    );
    assert_eq!(
        regex_match("abba"),
        MatchResult::Rejected(RejectReason::NotInAcceptingState)
    );
    assert_eq!(regex_match("abbabb"), MatchResult::Accepted);
}

#[test]
fn matching_twice_with_independent_instances_agrees() {
    let inputs = ["abb", "ab", "", "abc", "ababb", "bbbb"];
    for s in inputs {
        let first = abb_automaton().matches(s);
        let second = abb_automaton().matches(s);
        assert_eq!(first, second);
        assert_eq!(regex_match(s), first);
    }
}

#[test]
fn one_instance_matches_many_strings_without_leakage() {
    let dfa = abb_automaton();
    assert_eq!(dfa.matches("abb"), MatchResult::Accepted);
    // A second match starts from the start state again.
    assert_eq!(dfa.matches("abb"), MatchResult::Accepted);
    assert_eq!(
        dfa.matches("b"),
        MatchResult::Rejected(RejectReason::NotInAcceptingState)
    );
    assert_eq!(dfa.matches("babb"), MatchResult::Accepted);
}

#[test]
fn transition_value_of_alphabet_characters() {
    assert_eq!(get_transition_value('a'), Some(0));
    assert_eq!(get_transition_value('b'), Some(1));
}

#[test]
fn transition_value_of_outside_characters() {
    assert_eq!(get_transition_value('c'), None);
    assert_eq!(get_transition_value('A'), None);
    assert_eq!(get_transition_value(' '), None);
    assert_eq!(get_transition_value('~'), None);
    assert_eq!(get_transition_value('ß'), None);
}

#[test]
fn language_resolves_first_match() {
    let language = abb_language();
    assert_eq!(language.size(), 2);
    assert_eq!(language.resolve('a'), Some(0));
    assert_eq!(language.resolve('b'), Some(1));
    assert_eq!(language.resolve('z'), None);
}
