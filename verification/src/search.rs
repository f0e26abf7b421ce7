//! Line constraints: a closed tagged union of a pattern-based constraint,
//! evaluated by an external automaton with partial-match ("not dead")
//! semantics, and a callback-based constraint for predicates outside the
//! regular languages (back-reference style equalities).
//!
//! The automaton work is delegated to `regex_automata` dense DFAs through
//! trusted wrappers; the results of the automaton queries are pure functions
//! of the pattern text and the probed string, and are given names
//! (`pattern_valid`, `partial_match`, `full_match`) that the wrappers'
//! contracts and the verified callers share.

use regex_automata::dfa::Automaton;
use vstd::prelude::*;

verus! {

/// Whether the pattern text compiles into an automaton.
pub uninterp spec fn pattern_valid(pattern: Seq<char>) -> bool;

/// Whether the automaton of `pattern`, after consuming `candidate` from its
/// start state, is still alive: some completion may still match.
pub uninterp spec fn partial_match(pattern: Seq<char>, candidate: Seq<char>) -> bool;

/// Whether the automaton of `pattern` accepts exactly `candidate`.
pub uninterp spec fn full_match(pattern: Seq<char>, candidate: Seq<char>) -> bool;

/// Relies on `regex_automata::dfa::dense::DFA::new`: whether a pattern text
/// compiles depends on the pattern text alone.
#[verifier::external_body]
fn dfa_compiles(pattern: &str) -> (r: bool)
    ensures
        r == pattern_valid(pattern@),
{
    regex_automata::dfa::dense::DFA::new(pattern).is_ok()
}

/// Relies on `regex_automata` dense DFAs (`DFA::new`, `start_state_forward`,
/// `next_state`, `is_dead_state`): stepping the compiled automaton over the
/// string's bytes and asking whether the final state is dead is a pure
/// function of pattern and string. `start_state_forward` cannot fail for a
/// search starting at offset zero, so the unwrap cannot panic.
#[verifier::external_body]
fn dfa_partial_match(pattern: &str, string: &str) -> (r: bool)
    ensures
        r == (pattern_valid(pattern@) && partial_match(pattern@, string@)),
{
    let Ok(dfa) = regex_automata::dfa::dense::DFA::new(pattern) else {
        return false;
    };
    let mut state = dfa.start_state_forward(&regex_automata::Input::new(string)).unwrap();
    for &b in string.as_bytes().iter() {
        state = dfa.next_state(state, b);
    }
    !dfa.is_dead_state(state)
}

/// Relies on `regex_automata` dense DFAs (`DFA::new`, `start_state_forward`,
/// `next_state`, `next_eoi_state`, `is_match_state`): stepping the compiled
/// automaton over the string's bytes, closing it with the end-of-input
/// transition and asking for acceptance is a pure function of pattern and
/// string. `start_state_forward` cannot fail for a search starting at offset
/// zero, so the unwrap cannot panic.
#[verifier::external_body]
fn dfa_full_match(pattern: &str, string: &str) -> (r: bool)
    ensures
        r == (pattern_valid(pattern@) && full_match(pattern@, string@)),
{
    let Ok(dfa) = regex_automata::dfa::dense::DFA::new(pattern) else {
        return false;
    };
    let mut state = dfa.start_state_forward(&regex_automata::Input::new(string)).unwrap();
    for &b in string.as_bytes().iter() {
        state = dfa.next_state(state, b);
    }
    state = dfa.next_eoi_state(state);
    dfa.is_match_state(state)
}

/// Whether `expression` compiles into an automaton; malformed patterns are
/// rejected at configuration time, never in the matching loop.
pub fn expression_compiles(expression: &str) -> (r: bool)
    ensures
        r == pattern_valid(expression@),
{
    dfa_compiles(expression)
}

/// The pruning query on a pattern constraint: true when, after consuming
/// `string`, the automaton of `expression` is not dead, so some completion
/// of `string` may still match. False for a malformed pattern.
pub fn partial_match_forward(expression: &str, string: &str) -> (r: bool)
    ensures
        r == (pattern_valid(expression@) && partial_match(expression@, string@)),
{
    dfa_partial_match(expression, string)
}

/// The acceptance query on a pattern constraint: true when the automaton of
/// `expression` accepts exactly `string`. False for a malformed pattern.
pub fn full_match_forward(expression: &str, string: &str) -> (r: bool)
    ensures
        r == (pattern_valid(expression@) && full_match(expression@, string@)),
{
    dfa_full_match(expression, string)
}

/// The closed set of callback predicates available to configurations, for
/// constraints that are not regular languages.
#[derive(Clone, Copy, Debug, PartialEq, Eq, Structural)]
pub enum Callback {
    /// `(.)\1`-like: any first character, and a second character, if
    /// present, equal to the first.
    TwoSameChars,
    /// `(.)\1\1`-like: if the first two characters are equal, a third
    /// character, if present, must equal them as well.
    ThreeSameChars,
}

pub open spec fn two_same_spec(s: Seq<char>) -> bool {
    s.len() < 2 || s[0] == s[1]
}

pub open spec fn three_same_spec(s: Seq<char>) -> bool {
    !(s.len() >= 3 && s[0] == s[1] && s[0] != s[2])
}

/// What a callback predicate holds of a candidate string.
pub open spec fn callback_holds(c: Callback, s: Seq<char>) -> bool {
    match c {
        Callback::TwoSameChars => two_same_spec(s),
        Callback::ThreeSameChars => three_same_spec(s),
    }
}

/// `(.)\1`: accepts strings of fewer than two characters, and otherwise
/// exactly those whose first two characters are equal.
pub fn backreference_two_same_chars(input: &str) -> (r: bool)
    ensures
        r == two_same_spec(input@),
{
    let n = input.unicode_len();
    if n < 2 {
        true
    } else {
        input.get_char(0) == input.get_char(1)
    }
}

/// `(.)\1\1`: allows zero or one character; once the first two characters
/// are equal, a third character must equal them as well.
pub fn backreference_three_same_chars(input: &str) -> (r: bool)
    ensures
        r == three_same_spec(input@),
{
    let n = input.unicode_len();
    if n >= 3 && input.get_char(0) == input.get_char(1) {
        input.get_char(0) == input.get_char(2)
    } else {
        true
    }
}

/// Evaluates a callback predicate on a candidate string.
pub fn callback_matches(c: Callback, input: &str) -> (r: bool)
    ensures
        r == callback_holds(c, input@),
{
    match c {
        Callback::TwoSameChars => backreference_two_same_chars(input),
        Callback::ThreeSameChars => backreference_three_same_chars(input),
    }
}

/// A line's constraint: a closed tagged union of the two constraint kinds.
#[derive(Debug)]
pub enum Search {
    /// An anchored regular-language pattern, matched by the automaton.
    Expression(String),
    /// One of the fixed callback predicates.
    Function(Callback),
}

/// The mathematical value of a constraint: the pattern's text, or the
/// callback's tag.
pub enum SearchView {
    Expression(Seq<char>),
    Function(Callback),
}

impl View for Search {
    type V = SearchView;

    open spec fn view(&self) -> SearchView {
        match self {
            Search::Expression(e) => SearchView::Expression(e@),
            Search::Function(c) => SearchView::Function(*c),
        }
    }
}

impl Clone for Search {
    /// A copy with the same mathematical value.
    fn clone(&self) -> (r: Self)
        ensures
            r@ == self@,
    {
        match self {
            Search::Expression(e) => Search::Expression(e.clone()),
            Search::Function(c) => Search::Function(*c),
        }
    }
}

/// The pruning predicate of a constraint: whether some completion of
/// `candidate` may still satisfy it. A malformed pattern accepts nothing.
pub open spec fn accepts(s: SearchView, candidate: Seq<char>) -> bool {
    match s {
        SearchView::Expression(e) => pattern_valid(e) && partial_match(e, candidate),
        SearchView::Function(c) => callback_holds(c, candidate),
    }
}

/// The final-acceptance predicate of a constraint. The callback variant does
/// not distinguish partial from final semantics.
pub open spec fn accepts_fully(s: SearchView, candidate: Seq<char>) -> bool {
    match s {
        SearchView::Expression(e) => pattern_valid(e) && full_match(e, candidate),
        SearchView::Function(c) => callback_holds(c, candidate),
    }
}

impl Search {
    /// True when some completion of `candidate` (zero or more further
    /// characters) may still satisfy this constraint; false only on a
    /// proven dead end. A pure query: never fails.
    pub fn partially_matches(&self, candidate: &str) -> (r: bool)
        ensures
            r == accepts(self@, candidate@),
    {
        match self {
            Search::Expression(e) => partial_match_forward(e.as_str(), candidate),
            Search::Function(c) => callback_matches(*c, candidate),
        }
    }

    /// True when `candidate`, taken as complete, satisfies this constraint.
    pub fn fully_matches(&self, candidate: &str) -> (r: bool)
        ensures
            r == accepts_fully(self@, candidate@),
    {
        match self {
            Search::Expression(e) => full_match_forward(e.as_str(), candidate),
            Search::Function(c) => callback_matches(*c, candidate),
        }
    }
}

} // verus!
