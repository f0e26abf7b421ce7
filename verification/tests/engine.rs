use hexword::alphabet::az;
use hexword::crossword::{Crossword, CrosswordError};
use hexword::geometry::{distance_from_center, hexagon_area, Hex, HexDirection, Line};
use hexword::propagate::{permutate, LineTask, Task};
use hexword::puzzles::{basic_crossword_1, basic_crossword_2};
use hexword::search::{Callback, Search};

fn line(x: i32, y: i32, d: HexDirection) -> Line {
    Line { start: Hex { x, y }, direction: d }
}

#[test]
fn alphabet_is_the_uppercase_letters_in_order() {
    let a = az();
    assert_eq!(a.len(), 26);
    assert_eq!(a[0], 'A');
    assert_eq!(a[3], 'D');
    assert_eq!(a[25], 'Z');
}

#[test]
fn lines_step_along_their_direction() {
    let l = line(0, -1, HexDirection::Right);
    assert_eq!(l.at(0), Hex { x: 0, y: -1 });
    assert_eq!(l.at(1), Hex { x: 1, y: -1 });
    assert_eq!(l.cells(1), vec![Hex { x: 0, y: -1 }, Hex { x: 1, y: -1 }]);

    let c = line(-1, 0, HexDirection::Right);
    assert_eq!(
        c.cells(1),
        vec![Hex { x: -1, y: 0 }, Hex { x: 0, y: 0 }, Hex { x: 1, y: 0 }]
    );

    // the start cell is always included, even outside the bound
    let far = line(5, 5, HexDirection::Right);
    assert_eq!(far.cells(1), vec![Hex { x: 5, y: 5 }]);
}

#[test]
fn geometry_counts_cells_and_distances() {
    assert_eq!(hexagon_area(0).len(), 1);
    assert_eq!(hexagon_area(1).len(), 7);
    assert_eq!(hexagon_area(2).len(), 19);
    assert_eq!(distance_from_center(Hex { x: 2, y: -1 }), 2);
    assert_eq!(distance_from_center(Hex { x: 0, y: 0 }), 0);

    let cw = Crossword::new(2);
    assert_eq!(cw.hex_border(0).len(), 1);
    assert_eq!(cw.hex_border(1).len(), 6);
    assert_eq!(cw.hex_border(2).len(), 12);
}

#[test]
fn configuration_errors_identify_the_line() {
    let mut cw = Crossword::new(1);
    let l = line(0, -1, HexDirection::Right);
    assert_eq!(cw.add_expression(l, "^.A$".to_string()), Ok(()));
    assert_eq!(
        cw.add_expression(l, "^B$".to_string()),
        Err(CrosswordError::DuplicateLine(l))
    );
    let m = line(1, 0, HexDirection::TopLeft);
    assert_eq!(
        cw.add_expression(m, "(".to_string()),
        Err(CrosswordError::InvalidPattern(m))
    );
    assert_eq!(cw.add(m, Search::Function(Callback::TwoSameChars)), Ok(()));
}

#[test]
fn propagator_intersects_accepted_letters() {
    // two lines share a cell; individually they accept {A, B} and {B, C},
    // so only B survives for both
    let t = Task {
        cell: Hex { x: 0, y: -1 },
        lines: vec![
            LineTask {
                line: line(0, -1, HexDirection::Right),
                search: Search::Expression("^[AB]C$".to_string()),
                string_permutations: vec![String::new()],
            },
            LineTask {
                line: line(0, -1, HexDirection::BottomLeft),
                search: Search::Expression("^[BC]X$".to_string()),
                string_permutations: vec![String::new()],
            },
        ],
        index: 1,
    };
    let changes = permutate(&t);
    assert_eq!(changes.len(), 2);
    assert_eq!(changes[0].strings, vec!["B".to_string()]);
    assert_eq!(changes[1].strings, vec!["B".to_string()]);
    // every emitted string grew by exactly one character
    for change in &changes {
        for s in &change.strings {
            assert_eq!(s.len(), 1);
        }
    }
}

#[test]
fn propagator_keeps_prefix_order_within_letter_buckets() {
    let t = Task {
        cell: Hex { x: 0, y: 0 },
        lines: vec![LineTask {
            line: line(0, 0, HexDirection::Right),
            search: Search::Expression("^(AB|BB|AC)$".to_string()),
            string_permutations: vec!["A".to_string(), "B".to_string()],
        }],
        index: 0,
    };
    let changes = permutate(&t);
    assert_eq!(changes.len(), 1);
    // letters in alphabet order, prefixes in order within each letter
    assert_eq!(
        changes[0].strings,
        vec!["AB".to_string(), "BB".to_string(), "AC".to_string()]
    );
}

#[test]
fn empty_intersection_collapses_without_error() {
    // mutually exclusive constraints across the shared start cell
    let mut cw = Crossword::new(1);
    let a = line(0, -1, HexDirection::Right);
    let b = line(0, -1, HexDirection::BottomLeft);
    cw.add_expression(a, "^A.*$".to_string()).unwrap();
    cw.add_expression(b, "^B.*$".to_string()).unwrap();
    // an independent pair at another cell keeps its candidates
    let c = line(1, 0, HexDirection::BottomLeft);
    let d = line(1, 0, HexDirection::TopLeft);
    cw.add_expression(c, "^Q.$".to_string()).unwrap();
    cw.add_expression(d, "^Q.$".to_string()).unwrap();
    cw.solve();
    assert_eq!(cw.candidates_of(a), Vec::<String>::new());
    assert_eq!(cw.candidates_of(b), Vec::<String>::new());
    assert_eq!(cw.candidates_of(c), vec!["Q".to_string()]);
    assert_eq!(cw.candidates_of(d), vec!["Q".to_string()]);
}

#[test]
fn collapsed_lines_stay_empty_forever() {
    // the line through the center collapses at ring 1 and must not restart
    // from the empty prefix at ring 0
    let mut cw = Crossword::new(1);
    let a = line(-1, 0, HexDirection::Right);
    let b = line(-1, 0, HexDirection::BottomLeft);
    cw.add_expression(a, "^X.*$".to_string()).unwrap();
    cw.add_expression(b, "^Y.*$".to_string()).unwrap();
    cw.solve();
    assert_eq!(cw.candidates_of(a), Vec::<String>::new());
    assert_eq!(cw.candidates_of(b), Vec::<String>::new());
}

#[test]
fn two_direction_hexagon_agrees_at_shared_cells() {
    // a two-direction radius-1 hexagon: a `.A`-type pattern on one axis,
    // a `BC`-type pattern on the other, sharing the start cell
    let mut cw = Crossword::new(1);
    let a = line(0, -1, HexDirection::Right);
    let b = line(0, -1, HexDirection::BottomLeft);
    cw.add_expression(a, "^.A$".to_string()).unwrap();
    cw.add_expression(b, "^BC$".to_string()).unwrap();
    cw.solve();
    // the shared cell admits only B: any first letter satisfies `.A`, but
    // `BC` demands B; candidates violating either axis are absent
    assert_eq!(cw.candidates_of(a), vec!["B".to_string()]);
    assert_eq!(cw.candidates_of(b), vec!["B".to_string()]);
}

#[test]
fn solving_twice_gives_identical_candidates() {
    let mut first = basic_crossword_1().unwrap();
    let mut second = basic_crossword_1().unwrap();
    first.solve();
    second.solve();
    let lines = first.lines();
    assert_eq!(lines.len(), 9);
    for l in &lines {
        assert_eq!(first.candidates_of(*l), second.candidates_of(*l));
    }
}

#[test]
fn sample_configurations_register_their_lines() {
    let one = basic_crossword_1().unwrap();
    assert_eq!(one.lines().len(), 9);
    let two = basic_crossword_2().unwrap();
    assert_eq!(two.lines().len(), 15);
}

#[test]
fn final_candidates_keep_only_complete_matches() {
    // a single line through the center of a radius-0 hexagon
    let mut cw = Crossword::new(0);
    let a = line(0, 0, HexDirection::Right);
    cw.add_expression(a, "^A$".to_string()).unwrap();
    cw.solve();
    assert_eq!(cw.candidates_of(a), vec!["A".to_string()]);
    assert_eq!(cw.final_candidates(a), vec!["A".to_string()]);

    // a surviving prefix that is not a complete match is excluded
    let mut cw2 = Crossword::new(1);
    let b = line(0, -1, HexDirection::Right);
    let c = line(0, -1, HexDirection::BottomLeft);
    cw2.add_expression(b, "^.A$".to_string()).unwrap();
    cw2.add_expression(c, "^BC$".to_string()).unwrap();
    cw2.solve();
    assert_eq!(cw2.candidates_of(b), vec!["B".to_string()]);
    assert_eq!(cw2.final_candidates(b), Vec::<String>::new());
}

#[test]
fn update_candidates_replaces_only_registered_lines() {
    let mut cw = Crossword::new(1);
    let a = line(0, -1, HexDirection::Right);
    cw.add_expression(a, "^.A$".to_string()).unwrap();
    assert!(cw.update_candidates(a, vec!["XA".to_string()]));
    assert_eq!(cw.candidates_of(a), vec!["XA".to_string()]);
    let stranger = line(5, 5, HexDirection::Left);
    assert!(!cw.update_candidates(stranger, vec!["Z".to_string()]));
    assert_eq!(cw.candidates_of(stranger), Vec::<String>::new());
}

#[test]
fn multiplicity_validation_reports_the_offending_cell() {
    // a single line through the center of a radius-0 hexagon: every cell
    // is crossed by exactly one line
    let mut cw = Crossword::new(0);
    cw.add_expression(line(0, 0, HexDirection::Right), "^A$".to_string())
        .unwrap();
    assert_eq!(cw.validate_multiplicity(1), Ok(()));
    assert_eq!(
        cw.validate_multiplicity(2),
        Err(CrosswordError::CellMultiplicity(Hex { x: 0, y: 0 }))
    );

    // a radius-1 pair sharing one start cell leaves other border cells
    // uncrossed, so no uniform multiplicity fits
    let mut cw2 = Crossword::new(1);
    cw2.add_expression(line(0, -1, HexDirection::Right), "^.A$".to_string())
        .unwrap();
    cw2.add_expression(line(0, -1, HexDirection::BottomLeft), "^BC$".to_string())
        .unwrap();
    assert!(matches!(
        cw2.validate_multiplicity(2),
        Err(CrosswordError::CellMultiplicity(_))
    ));
}

#[test]
fn radius_one_puzzle_end_to_end() {
    let mut cw = basic_crossword_1().unwrap();
    cw.solve();

    let singles_without_a: Vec<String> = (b'B'..=b'Z').map(|c| (c as char).to_string()).collect();

    // ring 1 constrains each line's start cell, ring 0 the center cell;
    // only the three lines through the center grow to two characters
    let r1 = line(0, -1, HexDirection::Right); // ^.A$
    let r2 = line(-1, 0, HexDirection::Right); // ^(B|CD)*$
    let r3 = line(-1, 1, HexDirection::Right); // ^([^A]*)$
    let b1 = line(0, -1, HexDirection::BottomLeft); // ^CB$
    let b2 = line(1, -1, HexDirection::BottomLeft); // ^A.*B$
    let b3 = line(1, 0, HexDirection::BottomLeft); // ^.*$
    let t1 = line(1, 0, HexDirection::TopLeft); // ^(A|D)*$
    let t2 = line(0, 1, HexDirection::TopLeft); // ^C*$
    let t3 = line(-1, 1, HexDirection::TopLeft); // first two characters equal

    // start cells: `.A` admits anything, `CB` only C; `.*` and `(A|D)*`
    // agree on {A, D}; `[^A]*` and the callback agree on everything but A
    assert_eq!(cw.candidates_of(r1), vec!["C".to_string()]);
    assert_eq!(cw.candidates_of(b1), vec!["C".to_string()]);
    assert_eq!(cw.candidates_of(b3), vec!["A".to_string(), "D".to_string()]);
    assert_eq!(cw.candidates_of(t1), vec!["A".to_string(), "D".to_string()]);
    assert_eq!(cw.candidates_of(r3), singles_without_a);
    assert_eq!(cw.candidates_of(t3), singles_without_a);

    // the center cell is shared by r2, b2 and t2: their extensions admit
    // {B, C, D}, everything, and {C}; only C survives for all three
    assert_eq!(cw.candidates_of(r2), vec!["BC".to_string()]);
    assert_eq!(cw.candidates_of(b2), vec!["AC".to_string()]);
    assert_eq!(cw.candidates_of(t2), vec!["CC".to_string()]);

    // the final-acceptance pass keeps only complete matches
    assert_eq!(cw.final_candidates(t2), vec!["CC".to_string()]);
    assert_eq!(cw.final_candidates(r2), Vec::<String>::new());
    assert_eq!(cw.final_candidates(b2), Vec::<String>::new());
    assert_eq!(cw.final_candidates(t3), singles_without_a);
}
