use regex_automata::dfa::{dense, Automaton};
use regex_automata::{Anchored, Input};

use hexword::search::{
    backreference_three_same_chars, backreference_two_same_chars, expression_compiles,
    full_match_forward, partial_match_forward,
};

#[test]
fn forward() {
    // expression, matches, non-matches
    let fixtures = vec![
        (
            "^(A|DC)*$",
            vec!["A", "DC", "AAADCD"],
            vec!["ADD", "DCDDC", "Z"],
        ),
        ("^.(A|D)*.$", vec!["A", "AA"], vec!["ADZZ", "DZC"]),
    ];

    for fixture in &fixtures {
        for string in &fixture.1 {
            assert!(
                partial_match_forward(fixture.0, string),
                "{:?} {:?}",
                fixture,
                string
            );
        }
        for string in &fixture.2 {
            assert!(
                !partial_match_forward(fixture.0, string),
                "{:?} {:?}",
                fixture,
                string
            );
        }
    }
}

#[test]
fn test_dense_dfa() {
    let pattern = r"^(A|DC)*$";
    let dfa = dense::DFA::new(pattern).unwrap();
    let haystack = "AAAAAAADC";

    let mut state = dfa
        .start_state_reverse(&Input::new(&haystack).anchored(Anchored::No))
        .unwrap();

    for &b in haystack.as_bytes().iter().rev() {
        state = dfa.next_state(state, b);

        let s = state;
        println!(
            "char: {:?}, is_match: {}, is_special: {}, is_dead: {}",
            b as char,
            dfa.is_match_state(s),
            dfa.is_special_state(s),
            dfa.is_dead_state(s)
        );
    }

    state = dfa.next_eoi_state(state);
    println!(
        "is_match: {}, is_special: {}, is_dead: {}",
        dfa.is_match_state(state),
        dfa.is_special_state(state),
        dfa.is_dead_state(state)
    );
}

#[test]
fn full_match_distinguishes_complete_from_extendable() {
    // complete matches are also partial matches
    assert!(full_match_forward("^(A|DC)*$", "A"));
    assert!(full_match_forward("^(A|DC)*$", "DC"));
    assert!(full_match_forward("^(A|DC)*$", ""));
    // still extendable, but not complete: the trailing D awaits a C
    assert!(partial_match_forward("^(A|DC)*$", "AAADCD"));
    assert!(!full_match_forward("^(A|DC)*$", "AAADCD"));
    // dead ends match neither way
    assert!(!full_match_forward("^(A|DC)*$", "Z"));
}

#[test]
fn malformed_patterns_are_rejected_up_front() {
    assert!(expression_compiles("^(A|DC)*$"));
    assert!(!expression_compiles("("));
    // a malformed pattern accepts nothing at matching time
    assert!(!partial_match_forward("(", "A"));
    assert!(!full_match_forward("(", "A"));
}

#[test]
fn backreference_two_same_chars_compares_the_first_two() {
    assert!(backreference_two_same_chars("A"));
    assert!(backreference_two_same_chars("AA"));
    assert!(backreference_two_same_chars("AAB"));
    assert!(!backreference_two_same_chars("AB"));
    assert!(!backreference_two_same_chars("BAA"));
}

#[test]
fn backreference_three_same_chars_allows_short_prefixes() {
    assert!(backreference_three_same_chars("A"));
    assert!(backreference_three_same_chars("AA"));
    assert!(backreference_three_same_chars("AAA"));
    assert!(!backreference_three_same_chars("AAB"));
    // once the first two differ the predicate no longer constrains
    assert!(backreference_three_same_chars("ABA"));
}
