//! A table-driven deterministic finite automaton that decides membership in
//! the regular language `(a|b)*abb`.
//!
//! The engine is generic over its configuration: an ordered alphabet
//! ([`language::Language`]), a transition table with a start and an accepting
//! state ([`dfa::Dfa`]), and one operation that consumes a string and reports
//! an accept-or-reject verdict evaluated at end-of-input. The concrete
//! automaton for `(a|b)*abb`, together with the proofs that it accepts
//! exactly the strings over `{'a', 'b'}` ending in `"abb"`, lives in
//! [`abb`].

pub mod abb;
pub mod dfa;
pub mod language;
