//! Concrete puzzle configurations: static lists of lines and constraints,
//! grouped by the diagonal direction naming each family of parallel lines,
//! registered into a crossword at construction time.

use crate::alphabet::push_char;
use crate::crossword::{search_ok, Crossword, CrosswordError, EntryView};
use crate::geometry::{in_bounds, DiagonalDirection, Hex, HexDirection, Line};
use crate::search::{Callback, Search, SearchView};
use vstd::prelude::*;

verus! {

/// An anchored pattern constraint: the pattern text wrapped in `^` and `$`.
pub fn exp(s: &str) -> (r: Search)
    ensures
        r@ == SearchView::Expression(seq!['^'] + s@ + seq!['$']),
{
    let mut p = String::new();
    push_char(&mut p, '^');
    p.append(s);
    push_char(&mut p, '$');
    proof {
        assert(p@ =~= seq!['^'] + s@ + seq!['$']);
    }
    Search::Expression(p)
}

/// A callback constraint.
pub fn fun(c: Callback) -> (r: Search)
    ensures
        r@ == SearchView::Function(c),
{
    Search::Function(c)
}

/// One configuration group resolved to lines: each `(x, y, search)` becomes
/// the line starting at `(x, y)` in the direction clockwise-adjacent to the
/// group's diagonal direction.
pub open spec fn group_lines(d: DiagonalDirection, items: Seq<(i32, i32, Search)>) -> Seq<
    (Line, SearchView),
> {
    Seq::new(
        items.len(),
        |j: int|
            (
                Line {
                    start: Hex { x: items[j].0, y: items[j].1 },
                    direction: d.spec_direction_cw(),
                },
                items[j].2@,
            ),
    )
}

/// A whole configuration flattened to its lines, in registration order.
pub open spec fn flat_config(groups: Seq<(DiagonalDirection, Vec<(i32, i32, Search)>)>) -> Seq<
    (Line, SearchView),
>
    decreases groups.len(),
{
    if groups.len() == 0 {
        Seq::empty()
    } else {
        flat_config(groups.drop_last()) + group_lines(groups.last().0, groups.last().1@)
    }
}

/// The mathematical values of a flat list of lines and constraints.
pub open spec fn flat_view(v: Seq<(Line, Search)>) -> Seq<(Line, SearchView)> {
    Seq::new(v.len(), |j: int| (v[j].0, v[j].1@))
}

/// Whether every coordinate of the configuration is within the supported
/// range.
pub open spec fn config_in_bounds(pairs: Seq<(Line, SearchView)>) -> bool {
    forall|i: int| 0 <= i < pairs.len() ==> in_bounds((#[trigger] pairs[i]).0.start)
}

/// Whether the configuration's lines are pairwise distinct.
pub open spec fn config_distinct(pairs: Seq<(Line, SearchView)>) -> bool {
    forall|i: int, j: int| 0 <= i < j < pairs.len() ==> pairs[i].0 != pairs[j].0
}

/// Whether every constraint of the configuration is well formed.
pub open spec fn config_searches_ok(pairs: Seq<(Line, SearchView)>) -> bool {
    forall|i: int| 0 <= i < pairs.len() ==> search_ok((#[trigger] pairs[i]).1)
}

/// Flattens the grouped configuration into `(line, constraint)` pairs, in
/// group order.
fn flatten_config(expressions: &Vec<(DiagonalDirection, Vec<(i32, i32, Search)>)>) -> (r: Vec<
    (Line, Search),
>)
    ensures
        flat_view(r@) == flat_config(expressions@),
{
    let mut flat: Vec<(Line, Search)> = Vec::new();
    let mut g: usize = 0;
    while g < expressions.len()
        invariant
            g <= expressions@.len(),
            flat_view(flat@) == flat_config(expressions@.take(g as int)),
        decreases expressions@.len() - g as int,
    {
        let d = expressions[g].0;
        let nitems = expressions[g].1.len();
        let ghost items0 = expressions@[g as int].1@;
        let ghost gl = group_lines(d, items0);
        let mut j: usize = 0;
        while j < nitems
            invariant
                g < expressions@.len(),
                d == expressions@[g as int].0,
                items0 == expressions@[g as int].1@,
                gl == group_lines(d, items0),
                nitems == items0.len(),
                j <= nitems,
                flat_view(flat@) == flat_config(expressions@.take(g as int)) + gl.take(j as int),
            decreases nitems - j as int,
        {
            let x = expressions[g].1[j].0;
            let y = expressions[g].1[j].1;
            let search = expressions[g].1[j].2.clone();
            let dir = d.direction_cw();
            let line = Line { start: Hex { x, y }, direction: dir };
            let ghost flat0 = flat@;
            flat.push((line, search));
            proof {
                assert(gl[j as int] == (line, search@));
                assert(flat_view(flat@) =~= flat_view(flat0).push((line, search@)));
                assert(gl.take(j as int + 1) =~= gl.take(j as int).push(gl[j as int]));
                assert(flat_view(flat@) =~= flat_config(expressions@.take(g as int)) + gl.take(
                    j as int + 1,
                ));
            }
            j = j + 1;
        }
        proof {
            let taken = expressions@.take(g as int + 1);
            assert(taken.drop_last() =~= expressions@.take(g as int));
            assert(taken.last() == expressions@[g as int]);
            assert(gl.take(nitems as int) =~= gl);
            assert(flat_view(flat@) =~= flat_config(expressions@.take(g as int + 1)));
        }
        g = g + 1;
    }
    proof {
        assert(expressions@.take(expressions@.len() as int) =~= expressions@);
    }
    flat
}

/// Registers a grouped configuration into an empty crossword. Succeeds
/// exactly when the configuration's lines are distinct and every pattern
/// compiles; the crossword then holds exactly the configured lines, in
/// order, each with an untouched, empty candidate store. On failure the
/// error identifies the offending line.
pub fn create(
    crossword: &mut Crossword,
    expressions: Vec<(DiagonalDirection, Vec<(i32, i32, Search)>)>,
) -> (r: Result<(), CrosswordError>)
    requires
        old(crossword).wf(),
        old(crossword)@.entries.len() == 0,
        config_in_bounds(flat_config(expressions@)),
    ensures
        final(crossword).wf(),
        final(crossword).radius == old(crossword).radius,
        r is Ok <==> config_distinct(flat_config(expressions@)) && config_searches_ok(
            flat_config(expressions@),
        ),
        r is Ok ==> ({
            let pairs = flat_config(expressions@);
            &&& final(crossword)@.entries.len() == pairs.len()
            &&& forall|i: int|
                0 <= i < pairs.len() ==> (#[trigger] final(crossword)@.entries[i]) == (EntryView {
                    line: pairs[i].0,
                    search: pairs[i].1,
                    strings: Seq::empty(),
                    touched: false,
                })
        }),
{
    let ghost pairs = flat_config(expressions@);
    let flat = flatten_config(&expressions);
    let mut i: usize = 0;
    while i < flat.len()
        invariant
            pairs == flat_config(expressions@),
            flat_view(flat@) == pairs,
            i <= flat@.len(),
            crossword.wf(),
            crossword.radius == old(crossword).radius,
            config_in_bounds(pairs),
            crossword@.entries.len() == i as int,
            forall|j: int|
                0 <= j < i as int ==> (#[trigger] crossword@.entries[j]) == (EntryView {
                    line: pairs[j].0,
                    search: pairs[j].1,
                    strings: Seq::empty(),
                    touched: false,
                }),
            forall|a: int, b: int| 0 <= a < b < i as int ==> pairs[a].0 != pairs[b].0,
            forall|j: int| 0 <= j < i as int ==> search_ok((#[trigger] pairs[j]).1),
        decreases flat@.len() - i as int,
    {
        let line = flat[i].0;
        let search = flat[i].1.clone();
        proof {
            assert(pairs[i as int] == (line, search@));
            assert(in_bounds(pairs[i as int].0.start));
        }
        let ghost before = crossword@.entries;
        match crossword.add(line, search) {
            Ok(()) => {
                proof {
                    // success means the line was fresh and the pattern sound
                    assert(!old_crossword_had(before, line));
                    assert(search_ok(pairs[i as int].1));
                    assert forall|a: int, b: int|
                        0 <= a < b < i as int + 1 implies pairs[a].0 != pairs[b].0 by {
                        if b == i as int {
                            assert(before[a].line == pairs[a].0);
                        }
                    }
                }
            },
            Err(e) => {
                proof {
                    // the add can only have failed on a duplicate line or a
                    // malformed pattern, which refutes the success condition
                    if config_distinct(pairs) && config_searches_ok(pairs) {
                        assert(search_ok(pairs[i as int].1));
                        assert(exists|j: int|
                            0 <= j < before.len() && (#[trigger] before[j]).line == line);
                        let j = choose|j: int|
                            0 <= j < before.len() && (#[trigger] before[j]).line == line;
                        assert(pairs[j].0 == pairs[i as int].0);
                        assert(false);
                    }
                }
                return Err(e);
            },
        }
        i = i + 1;
    }
    proof {
        assert(pairs.len() == flat@.len());
    }
    Ok(())
}

/// Whether some already registered entry carries this line.
pub open spec fn old_crossword_had(entries: Seq<EntryView>, line: Line) -> bool {
    exists|j: int| 0 <= j < entries.len() && (#[trigger] entries[j]).line == line
}


/// An anchored pattern constraint's mathematical value.
pub open spec fn pat(s: Seq<char>) -> SearchView {
    SearchView::Expression(seq!['^'] + s + seq!['$'])
}

/// A line literal.
pub open spec fn line_spec(x: int, y: int, d: HexDirection) -> Line {
    Line { start: Hex { x: x as i32, y: y as i32 }, direction: d }
}

/// A three-group configuration flattens to its three groups in order.
proof fn lemma_flat_config3(groups: Seq<(DiagonalDirection, Vec<(i32, i32, Search)>)>)
    requires
        groups.len() == 3,
    ensures
        flat_config(groups) == group_lines(groups[0].0, groups[0].1@) + group_lines(
            groups[1].0,
            groups[1].1@,
        ) + group_lines(groups[2].0, groups[2].1@),
{
    let d2 = groups.drop_last();
    let d1 = d2.drop_last();
    let d0 = d1.drop_last();
    assert(d0.len() == 0);
    assert(flat_config(d0) =~= Seq::<(Line, SearchView)>::empty());
    assert(d1.last() == groups[0] && d1[0] == groups[0]);
    assert(d2.last() == groups[1] && d2[0] == groups[0] && d2[1] == groups[1]);
    assert(groups.last() == groups[2]);
    assert(flat_config(d1) =~= group_lines(groups[0].0, groups[0].1@));
    assert(flat_config(d2) =~= group_lines(groups[0].0, groups[0].1@) + group_lines(
        groups[1].0,
        groups[1].1@,
    ));
    assert(flat_config(groups) =~= group_lines(groups[0].0, groups[0].1@) + group_lines(
        groups[1].0,
        groups[1].1@,
    ) + group_lines(groups[2].0, groups[2].1@));
}

/// The first sample configuration: a radius-1 hexagon with three families
/// of parallel lines, one carrying a callback constraint.
pub open spec fn basic_config_1() -> Seq<(Line, SearchView)> {
    seq![
        (line_spec(0, -1, HexDirection::Right), pat(".A"@)),
        (line_spec(-1, 0, HexDirection::Right), pat("(B|CD)*"@)),
        (line_spec(-1, 1, HexDirection::Right), pat("([^A]*)"@)),
        (line_spec(0, -1, HexDirection::BottomLeft), pat("CB"@)),
        (line_spec(1, -1, HexDirection::BottomLeft), pat("A.*B"@)),
        (line_spec(1, 0, HexDirection::BottomLeft), pat(".*"@)),
        (line_spec(1, 0, HexDirection::TopLeft), pat("(A|D)*"@)),
        (line_spec(0, 1, HexDirection::TopLeft), pat("C*"@)),
        (line_spec(-1, 1, HexDirection::TopLeft), SearchView::Function(Callback::TwoSameChars)),
    ]
}

/// A radius-1 crossword with three constrained line families. Succeeds
/// exactly when every configured pattern compiles; the crossword then holds
/// exactly the configured lines, untouched.
pub fn basic_crossword_1() -> (r: Result<Crossword, CrosswordError>)
    ensures
        r is Ok <==> config_searches_ok(basic_config_1()),
        r matches Ok(c) ==> c.wf() && c.radius == 1 && c@.entries.len() == basic_config_1().len()
            && (forall|i: int|
            0 <= i < basic_config_1().len() ==> (#[trigger] c@.entries[i]) == (EntryView {
                line: basic_config_1()[i].0,
                search: basic_config_1()[i].1,
                strings: Seq::empty(),
                touched: false,
            })),
{
    let mut items_a: Vec<(i32, i32, Search)> = Vec::new();
    items_a.push((0, -1, exp(".A")));
    items_a.push((-1, 0, exp("(B|CD)*")));
    items_a.push((-1, 1, exp("([^A]*)")));
    let mut items_b: Vec<(i32, i32, Search)> = Vec::new();
    items_b.push((0, -1, exp("CB")));
    items_b.push((1, -1, exp("A.*B")));
    items_b.push((1, 0, exp(".*")));
    let mut items_c: Vec<(i32, i32, Search)> = Vec::new();
    items_c.push((1, 0, exp("(A|D)*")));
    items_c.push((0, 1, exp("C*")));
    items_c.push((-1, 1, fun(Callback::TwoSameChars)));
    let ghost av = items_a@;
    let ghost bv = items_b@;
    let ghost cv = items_c@;
    let mut cfg: Vec<(DiagonalDirection, Vec<(i32, i32, Search)>)> = Vec::new();
    cfg.push((DiagonalDirection::Right, items_a));
    cfg.push((DiagonalDirection::BottomLeft, items_b));
    cfg.push((DiagonalDirection::TopLeft, items_c));
    let ghost cfgv = cfg@;
    proof {
        lemma_flat_config3(cfgv);
        assert(cfgv[0].1@ == av && cfgv[1].1@ == bv && cfgv[2].1@ == cv);
        assert(flat_config(cfgv) =~= basic_config_1());
        assert(config_in_bounds(basic_config_1()));
        assert(config_distinct(basic_config_1()));
    }
    let mut crossword = Crossword::new(1);
    match create(&mut crossword, cfg) {
        Ok(()) => Ok(crossword),
        Err(e) => Err(e),
    }
}

/// The second sample configuration: a radius-2 hexagon with three families
/// of five lines each, one carrying a callback constraint.
pub open spec fn basic_config_2() -> Seq<(Line, SearchView)> {
    seq![
        (line_spec(0, -2, HexDirection::Right), pat("(AB|C)*"@)),
        (line_spec(-1, -1, HexDirection::Right), pat("D.*F.*"@)),
        (line_spec(-2, 0, HexDirection::Right), pat(".*(K|L)*.*"@)),
        (line_spec(-2, 1, HexDirection::Right), pat("(M|N|O|P)*"@)),
        (line_spec(-2, 2, HexDirection::Right), SearchView::Function(Callback::ThreeSameChars)),
        (line_spec(2, 0, HexDirection::BottomLeft), pat("LPQ"@)),
        (line_spec(2, -1, HexDirection::BottomLeft), pat("GK.*"@)),
        (line_spec(2, -2, HexDirection::BottomLeft), pat(".*FJN.*"@)),
        (line_spec(1, -2, HexDirection::BottomLeft), pat("BEIM"@)),
        (line_spec(0, -2, HexDirection::BottomLeft), pat("ADH"@)),
        (line_spec(-2, 2, HexDirection::TopLeft), pat(".*"@)),
        (line_spec(-1, 2, HexDirection::TopLeft), pat(".*"@)),
        (line_spec(0, 2, HexDirection::TopLeft), pat(".*"@)),
        (line_spec(1, 1, HexDirection::TopLeft), pat(".*"@)),
        (line_spec(2, 0, HexDirection::TopLeft), pat(".*"@)),
    ]
}

/// A radius-2 crossword with three constrained line families of five lines
/// each. Succeeds exactly when every configured pattern compiles; the
/// crossword then holds exactly the configured lines, untouched.
pub fn basic_crossword_2() -> (r: Result<Crossword, CrosswordError>)
    ensures
        r is Ok <==> config_searches_ok(basic_config_2()),
        r matches Ok(c) ==> c.wf() && c.radius == 2 && c@.entries.len() == basic_config_2().len()
            && (forall|i: int|
            0 <= i < basic_config_2().len() ==> (#[trigger] c@.entries[i]) == (EntryView {
                line: basic_config_2()[i].0,
                search: basic_config_2()[i].1,
                strings: Seq::empty(),
                touched: false,
            })),
{
    let mut items_a: Vec<(i32, i32, Search)> = Vec::new();
    items_a.push((0, -2, exp("(AB|C)*")));
    items_a.push((-1, -1, exp("D.*F.*")));
    items_a.push((-2, 0, exp(".*(K|L)*.*")));
    items_a.push((-2, 1, exp("(M|N|O|P)*")));
    items_a.push((-2, 2, fun(Callback::ThreeSameChars)));
    let mut items_b: Vec<(i32, i32, Search)> = Vec::new();
    items_b.push((2, 0, exp("LPQ")));
    items_b.push((2, -1, exp("GK.*")));
    items_b.push((2, -2, exp(".*FJN.*")));
    items_b.push((1, -2, exp("BEIM")));
    items_b.push((0, -2, exp("ADH")));
    let mut items_c: Vec<(i32, i32, Search)> = Vec::new();
    items_c.push((-2, 2, exp(".*")));
    items_c.push((-1, 2, exp(".*")));
    items_c.push((0, 2, exp(".*")));
    items_c.push((1, 1, exp(".*")));
    items_c.push((2, 0, exp(".*")));
    let ghost av = items_a@;
    let ghost bv = items_b@;
    let ghost cv = items_c@;
    let mut cfg: Vec<(DiagonalDirection, Vec<(i32, i32, Search)>)> = Vec::new();
    cfg.push((DiagonalDirection::Right, items_a));
    cfg.push((DiagonalDirection::BottomLeft, items_b));
    cfg.push((DiagonalDirection::TopLeft, items_c));
    let ghost cfgv = cfg@;
    proof {
        lemma_flat_config3(cfgv);
        assert(cfgv[0].1@ == av && cfgv[1].1@ == bv && cfgv[2].1@ == cv);
        assert(flat_config(cfgv) =~= basic_config_2());
        assert(config_in_bounds(basic_config_2()));
        assert(config_distinct(basic_config_2()));
    }
    let mut crossword = Crossword::new(2);
    match create(&mut crossword, cfg) {
        Ok(()) => Ok(crossword),
        Err(e) => Err(e),
    }
}

} // verus!
