//! The crossword aggregate and the ring driver: a fixed radius, one
//! constraint and one candidate-prefix store per registered line, and the
//! inward ring-by-ring propagation that builds per-cell tasks, runs the
//! candidate propagator, and writes the surviving candidate sets back.
//!
//! The whole ring sequence is specified as a mathematical function of the
//! starting configuration (`run_rings`), which makes the driver
//! deterministic by contract.

use crate::candidates::{clone_strings, view_strings, PotentialStrings};
use crate::geometry::{
    hex_at, hex_len, hexagon_area, in_bounds, len_of, lemma_line_at_bounds, line_at,
    distance_from_center, Hex, Line, MAX_RADIUS,
};
use crate::propagate::{
    new_strings_of, permutate, task_lines_view, LineTask, LineTaskView, Task,
};
use crate::search::{
    accepts_fully, expression_compiles, pattern_valid, Callback, Search, SearchView,
};
use vstd::prelude::*;

verus! {

/// A configuration error, identifying the offending line or cell.
#[derive(Clone, Copy, Debug, PartialEq, Eq, Structural)]
pub enum CrosswordError {
    /// The line is already registered.
    DuplicateLine(Line),
    /// The line's pattern does not compile into an automaton.
    InvalidPattern(Line),
    /// The cell is crossed by a number of lines other than the expected
    /// per-cell multiplicity.
    CellMultiplicity(Hex),
}

/// One registered line: its constraint and its current candidate store.
#[derive(Debug)]
pub struct LineEntry {
    pub line: Line,
    pub search: Search,
    pub candidates: PotentialStrings,
}

/// The mathematical value of a registered line.
pub struct EntryView {
    pub line: Line,
    pub search: SearchView,
    pub strings: Seq<Seq<char>>,
    pub touched: bool,
}

impl View for LineEntry {
    type V = EntryView;

    open spec fn view(&self) -> EntryView {
        EntryView {
            line: self.line,
            search: self.search@,
            strings: view_strings(self.candidates.strings@),
            touched: self.candidates.touched,
        }
    }
}

/// The candidate-prefix set an entry stands for: the single empty prefix
/// while no ring has touched the line, its recorded strings otherwise.
pub open spec fn eff(e: EntryView) -> Seq<Seq<char>> {
    if e.strings.len() == 0 && !e.touched {
        seq![Seq::<char>::empty()]
    } else {
        e.strings
    }
}

/// Whether a constraint is well formed: a pattern constraint must compile.
pub open spec fn search_ok(s: SearchView) -> bool {
    match s {
        SearchView::Expression(e) => pattern_valid(e),
        SearchView::Function(_) => true,
    }
}

/// The crossword aggregate: a fixed radius and the registered lines.
#[derive(Debug)]
pub struct Crossword {
    pub radius: usize,
    pub entries: Vec<LineEntry>,
}

/// The mathematical value of a crossword.
pub struct CrosswordView {
    pub radius: int,
    pub entries: Seq<EntryView>,
}

impl View for Crossword {
    type V = CrosswordView;

    open spec fn view(&self) -> CrosswordView {
        CrosswordView {
            radius: self.radius as int,
            entries: Seq::new(self.entries@.len(), |i: int| self.entries@[i]@),
        }
    }
}

/// The task line an entry contributes when its line crosses a task's cell.
pub open spec fn mk_line_task(e: EntryView) -> LineTaskView {
    LineTaskView { line: e.line, search: e.search, prefixes: eff(e) }
}

/// Whether the entry's line, at step `k` from its start, lands on `cell`.
pub open spec fn line_hits(e: EntryView, k: int, cell: Hex) -> bool {
    line_at(e.line, k) == hex_at(cell)
}

/// The lines whose position at step `k` is `cell`, in registration order,
/// each bundled with its constraint and its current candidate prefixes.
pub open spec fn task_of(entries: Seq<EntryView>, k: int, cell: Hex) -> Seq<LineTaskView>
    decreases entries.len(),
{
    if entries.len() == 0 {
        Seq::empty()
    } else {
        let rest = task_of(entries.drop_last(), k, cell);
        if line_hits(entries.last(), k, cell) {
            rest.push(mk_line_task(entries.last()))
        } else {
            rest
        }
    }
}

/// The position an entry takes within its task: how many earlier entries
/// hit the same cell.
pub open spec fn hits_before(entries: Seq<EntryView>, k: int, cell: Hex, i: int) -> int {
    task_of(entries.take(i), k, cell).len() as int
}

/// The coordinate pair as a cell value.
pub open spec fn hex_of(p: (int, int)) -> Hex {
    Hex { x: p.0 as i32, y: p.1 as i32 }
}

/// One ring of propagation, as a mathematical function: every entry whose
/// line lands on the ring at this distance receives the candidate set that
/// the propagator computes for its cell's task; every other entry is
/// untouched.
pub open spec fn ring_step(entries: Seq<EntryView>, radius: int, rd: int) -> Seq<EntryView> {
    Seq::new(
        entries.len(),
        |i: int|
            {
                let e = entries[i];
                let pos = line_at(e.line, radius - rd);
                if len_of(pos) == rd {
                    EntryView {
                        line: e.line,
                        search: e.search,
                        strings: new_strings_of(
                            task_of(entries, radius - rd, hex_of(pos)),
                            hits_before(entries, radius - rd, hex_of(pos), i),
                        ),
                        touched: true,
                    }
                } else {
                    e
                }
            },
    )
}

/// The full ring sequence from ring `rd` down to ring `0`, as a
/// mathematical function of the starting entries.
pub open spec fn run_rings(entries: Seq<EntryView>, radius: int, rd: int) -> Seq<EntryView>
    decreases rd + 1,
{
    if rd < 0 {
        entries
    } else {
        run_rings(ring_step(entries, radius, rd), radius, rd - 1)
    }
}

/// Determinism: the ring sequence is a mathematical function of the
/// starting configuration, so two runs over equal configurations produce
/// equal final candidate sets.
pub proof fn law_determinism(a: Seq<EntryView>, b: Seq<EntryView>, radius: int)
    requires
        a == b,
    ensures
        run_rings(a, radius, radius) == run_rings(b, radius, radius),
{
}

/// The survivors of a final-acceptance pass: the candidates that fully
/// match the constraint, in order.
pub open spec fn fully_accepted(prefixes: Seq<Seq<char>>, search: SearchView) -> Seq<Seq<char>>
    decreases prefixes.len(),
{
    if prefixes.len() == 0 {
        Seq::empty()
    } else {
        let rest = fully_accepted(prefixes.drop_last(), search);
        if accepts_fully(search, prefixes.last()) {
            rest.push(prefixes.last())
        } else {
            rest
        }
    }
}

impl Crossword {
    /// Well-formedness: the radius and every start coordinate are within
    /// the supported range, and registered lines are unique.
    pub open spec fn wf(self) -> bool {
        &&& self.radius <= MAX_RADIUS
        &&& forall|i: int|
            0 <= i < self@.entries.len() ==> in_bounds((#[trigger] self@.entries[i]).line.start)
        &&& forall|i: int, j: int|
            0 <= i < j < self@.entries.len() ==> self@.entries[i].line != self@.entries[j].line
    }

    /// Whether `l` is registered.
    pub open spec fn has_line(self, l: Line) -> bool {
        exists|i: int| 0 <= i < self@.entries.len() && (#[trigger] self@.entries[i]).line == l
    }

    /// An empty crossword of the given radius.
    pub fn new(radius: usize) -> (r: Self)
        requires
            radius <= MAX_RADIUS,
        ensures
            r.radius == radius,
            r@.entries.len() == 0,
            r.wf(),
    {
        Crossword { radius, entries: Vec::new() }
    }

    /// The first registered entry with this line, if any.
    fn find_line(&self, line: Line) -> (r: Option<usize>)
        ensures
            match r {
                Some(i) => i < self@.entries.len() && self@.entries[i as int].line == line
                    && forall|j: int| 0 <= j < i ==> self@.entries[j].line != line,
                None => !self.has_line(line),
            },
    {
        let mut i: usize = 0;
        while i < self.entries.len()
            invariant
                i <= self@.entries.len(),
                forall|j: int| 0 <= j < i as int ==> self@.entries[j].line != line,
            decreases self@.entries.len() - i as int,
        {
            if self.entries[i].line == line {
                return Some(i);
            }
            i = i + 1;
        }
        None
    }

    /// Registers a line with its constraint and an empty candidate store.
    /// Fails on a duplicate line or a pattern that does not compile, and
    /// then leaves the crossword unchanged.
    pub fn add(&mut self, line: Line, search: Search) -> (r: Result<(), CrosswordError>)
        requires
            in_bounds(line.start),
        ensures
            final(self).radius == old(self).radius,
            old(self).has_line(line) ==> r == Err::<(), CrosswordError>(
                CrosswordError::DuplicateLine(line),
            ) && final(self)@.entries == old(self)@.entries,
            !old(self).has_line(line) && !search_ok(search@) ==> r == Err::<(), CrosswordError>(
                CrosswordError::InvalidPattern(line),
            ) && final(self)@.entries == old(self)@.entries,
            !old(self).has_line(line) && search_ok(search@) ==> r == Ok::<(), CrosswordError>(())
                && final(self)@.entries.len() == old(self)@.entries.len() + 1 && (forall|i: int|
                0 <= i < old(self)@.entries.len() ==> final(self)@.entries[i] == old(
                    self,
                )@.entries[i]) && final(self)@.entries.last() == (EntryView {
                line,
                search: search@,
                strings: Seq::empty(),
                touched: false,
            }),
            old(self).wf() ==> final(self).wf(),
    {
        if self.find_line(line).is_some() {
            return Err(CrosswordError::DuplicateLine(line));
        }
        let valid = match &search {
            Search::Expression(e) => expression_compiles(e.as_str()),
            Search::Function(_) => true,
        };
        if !valid {
            return Err(CrosswordError::InvalidPattern(line));
        }
        let ghost before = self@.entries;
        self.entries.push(
            LineEntry {
                line,
                search,
                candidates: PotentialStrings { strings: Vec::new(), touched: false },
            },
        );
        proof {
            assert(forall|i: int| 0 <= i < before.len() ==> final(self)@.entries[i] == before[i]);
            assert(view_strings(Seq::<String>::empty()) =~= Seq::<Seq<char>>::empty());
            if old(self).wf() {
                let oe = old(self)@.entries;
                let ne = self@.entries;
                assert(ne.len() == oe.len() + 1);
                assert forall|i: int|
                    0 <= i < ne.len() implies in_bounds((#[trigger] ne[i]).line.start) by {
                    if i < oe.len() {
                        assert(ne[i] == oe[i]);
                    } else {
                        assert(ne[i].line == line);
                    }
                }
                assert forall|i: int, j: int|
                    0 <= i < j < ne.len() implies ne[i].line != ne[j].line by {
                    if j < oe.len() {
                        assert(ne[i] == oe[i] && ne[j] == oe[j]);
                    } else {
                        assert(ne[j].line == line);
                        assert(ne[i] == oe[i]);
                        assert(oe[i].line != line);
                    }
                }
            }
        }
        Ok(())
    }

    /// Registers a pattern constraint for a line; the pattern is compiled
    /// now, so a malformed pattern is a configuration error, never a
    /// matching-time failure.
    pub fn add_expression(&mut self, line: Line, expression: String) -> (r: Result<
        (),
        CrosswordError,
    >)
        requires
            in_bounds(line.start),
        ensures
            final(self).radius == old(self).radius,
            old(self).has_line(line) ==> r == Err::<(), CrosswordError>(
                CrosswordError::DuplicateLine(line),
            ) && final(self)@.entries == old(self)@.entries,
            !old(self).has_line(line) && !pattern_valid(expression@) ==> r == Err::<
                (),
                CrosswordError,
            >(CrosswordError::InvalidPattern(line)) && final(self)@.entries == old(self)@.entries,
            !old(self).has_line(line) && pattern_valid(expression@) ==> r == Ok::<
                (),
                CrosswordError,
            >(()) && final(self)@.entries.len() == old(self)@.entries.len() + 1 && (forall|i: int|
                0 <= i < old(self)@.entries.len() ==> final(self)@.entries[i] == old(
                    self,
                )@.entries[i]) && final(self)@.entries.last() == (EntryView {
                line,
                search: SearchView::Expression(expression@),
                strings: Seq::empty(),
                touched: false,
            }),
            old(self).wf() ==> final(self).wf(),
    {
        self.add(line, Search::Expression(expression))
    }

    /// Registers a callback constraint for a line.
    pub fn add_function(&mut self, line: Line, callback: Callback) -> (r: Result<
        (),
        CrosswordError,
    >)
        requires
            in_bounds(line.start),
        ensures
            final(self).radius == old(self).radius,
            old(self).has_line(line) ==> r == Err::<(), CrosswordError>(
                CrosswordError::DuplicateLine(line),
            ) && final(self)@.entries == old(self)@.entries,
            !old(self).has_line(line) ==> r == Ok::<(), CrosswordError>(())
                && final(self)@.entries.len() == old(self)@.entries.len() + 1 && (forall|i: int|
                0 <= i < old(self)@.entries.len() ==> final(self)@.entries[i] == old(
                    self,
                )@.entries[i]) && final(self)@.entries.last() == (EntryView {
                line,
                search: SearchView::Function(callback),
                strings: Seq::empty(),
                touched: false,
            }),
            old(self).wf() ==> final(self).wf(),
    {
        self.add(line, Search::Function(callback))
    }

    /// The registered lines, in registration order.
    pub fn lines(&self) -> (r: Vec<Line>)
        ensures
            r@.len() == self@.entries.len(),
            forall|i: int| 0 <= i < r@.len() ==> r@[i] == (#[trigger] self@.entries[i]).line,
    {
        let mut r: Vec<Line> = Vec::new();
        let mut i: usize = 0;
        while i < self.entries.len()
            invariant
                i <= self@.entries.len(),
                r@.len() == i as int,
                forall|j: int| 0 <= j < i as int ==> r@[j] == (#[trigger] self@.entries[j]).line,
            decreases self@.entries.len() - i as int,
        {
            r.push(self.entries[i].line);
            i = i + 1;
        }
        r
    }

    /// The current candidate prefixes of a line: the single empty string
    /// while no ring has touched it, its recorded strings otherwise; empty
    /// for an unregistered line.
    pub fn candidates_of(&self, line: Line) -> (r: Vec<String>)
        ensures
            self.has_line(line) ==> exists|i: int|
                0 <= i < self@.entries.len() && (#[trigger] self@.entries[i]).line == line
                    && view_strings(r@) == eff(self@.entries[i]),
            !self.has_line(line) ==> r@.len() == 0,
    {
        match self.find_line(line) {
            Some(i) => {
                let r = self.entries[i].candidates.iter_or_empty();
                proof {
                    assert(view_strings(r@) =~= eff(self@.entries[i as int]));
                }
                r
            },
            None => Vec::new(),
        }
    }

    /// Replaces the candidate set of a registered line and marks the line
    /// touched; reports whether the line was found, and leaves an
    /// unregistered line's crossword unchanged.
    pub fn update_candidates(&mut self, line: Line, new_strings: Vec<String>) -> (r: bool)
        ensures
            final(self).radius == old(self).radius,
            r == old(self).has_line(line),
            !r ==> final(self)@.entries == old(self)@.entries,
            r ==> exists|i: int|
                0 <= i < old(self)@.entries.len() && (#[trigger] old(self)@.entries[i]).line
                    == line && (forall|j: int| 0 <= j < i ==> old(self)@.entries[j].line != line)
                    && final(self)@.entries == old(self)@.entries.update(
                    i,
                    EntryView {
                        line: old(self)@.entries[i].line,
                        search: old(self)@.entries[i].search,
                        strings: view_strings(new_strings@),
                        touched: true,
                    },
                ),
            old(self).wf() ==> final(self).wf(),
    {
        match self.find_line(line) {
            Some(i) => {
                let ghost before = self@.entries;
                let old_entry = self.entries.remove(i);
                self.entries.insert(
                    i,
                    LineEntry {
                        line: old_entry.line,
                        search: old_entry.search,
                        candidates: PotentialStrings { strings: new_strings, touched: true },
                    },
                );
                proof {
                    assert(final(self)@.entries =~= before.update(
                        i as int,
                        EntryView {
                            line: before[i as int].line,
                            search: before[i as int].search,
                            strings: view_strings(new_strings@),
                            touched: true,
                        },
                    ));
                }
                true
            },
            None => false,
        }
    }

    /// The cells lying exactly on the ring of the given distance from the
    /// center, each exactly once.
    pub fn hex_border(&self, radius: usize) -> (r: Vec<Hex>)
        requires
            radius <= MAX_RADIUS,
        ensures
            forall|h: Hex| r@.contains(h) <==> hex_len(h.x as int, h.y as int) == radius as int,
            forall|i: int, j: int| 0 <= i < j < r@.len() ==> r@[i] != r@[j],
    {
        let cells = hexagon_area(radius);
        let mut r: Vec<Hex> = Vec::new();
        let mut i: usize = 0;
        while i < cells.len()
            invariant
                radius <= MAX_RADIUS,
                i <= cells@.len(),
                forall|h: Hex|
                    cells@.contains(h) <==> hex_len(h.x as int, h.y as int) <= radius as int,
                forall|a: int, b: int| 0 <= a < b < cells@.len() ==> cells@[a] != cells@[b],
                forall|h: Hex|
                    r@.contains(h) <==> (cells@.take(i as int).contains(h) && hex_len(
                        h.x as int,
                        h.y as int,
                    ) == radius as int),
                forall|a: int, b: int| 0 <= a < b < r@.len() ==> r@[a] != r@[b],
            decreases cells@.len() - i as int,
        {
            let h = cells[i];
            proof {
                assert(cells@.contains(h));
                assert(hex_len(h.x as int, h.y as int) <= radius as int);
            }
            let ghost old_r = r@;
            let ghost ci = i as int;
            let d = distance_from_center(h);
            if d == radius as u32 {
                proof {
                    if r@.contains(h) {
                        let b = choose|b: int|
                            0 <= b < ci && (#[trigger] cells@.take(ci)[b]) == h;
                        assert(cells@[b] == h && cells@[ci] == h);
                    }
                }
                r.push(h);
                proof {
                    assert(r@[old_r.len() as int] == h);
                    assert forall|hh: Hex|
                        #![trigger r@.contains(hh)]
                        #![trigger cells@.take(ci + 1).contains(hh)]
                        r@.contains(hh) <==> (cells@.take(ci + 1).contains(hh) && hex_len(
                            hh.x as int,
                            hh.y as int,
                        ) == radius as int) by {
                        if r@.contains(hh) {
                            let a = choose|a: int| 0 <= a < r@.len() && (#[trigger] r@[a]) == hh;
                            if a < old_r.len() {
                                assert(old_r[a] == hh);
                                assert(old_r.contains(hh));
                                let b = choose|b: int|
                                    0 <= b < ci && (#[trigger] cells@.take(ci)[b]) == hh;
                                assert(cells@.take(ci + 1)[b] == hh);
                                assert(cells@.take(ci + 1).contains(hh));
                            } else {
                                assert(hh == h);
                                assert(cells@.take(ci + 1)[ci] == hh);
                                assert(cells@.take(ci + 1).contains(hh));
                            }
                        }
                        if cells@.take(ci + 1).contains(hh) && hex_len(hh.x as int, hh.y as int)
                            == radius as int {
                            let b = choose|b: int|
                                0 <= b < ci + 1 && (#[trigger] cells@.take(ci + 1)[b]) == hh;
                            if b < ci {
                                assert(cells@.take(ci)[b] == hh);
                                assert(cells@.take(ci).contains(hh));
                                assert(old_r.contains(hh));
                                let a = choose|a: int|
                                    0 <= a < old_r.len() && (#[trigger] old_r[a]) == hh;
                                assert(r@[a] == hh);
                                assert(r@.contains(hh));
                            } else {
                                assert(hh == cells@[ci]);
                                assert(r@[old_r.len() as int] == hh);
                                assert(r@.contains(hh));
                            }
                        }
                    }
                }
            } else {
                proof {
                    assert forall|hh: Hex|
                        #![trigger r@.contains(hh)]
                        #![trigger cells@.take(ci + 1).contains(hh)]
                        r@.contains(hh) <==> (cells@.take(ci + 1).contains(hh) && hex_len(
                            hh.x as int,
                            hh.y as int,
                        ) == radius as int) by {
                        if r@.contains(hh) {
                            let b = choose|b: int|
                                0 <= b < ci && (#[trigger] cells@.take(ci)[b]) == hh;
                            assert(cells@.take(ci + 1)[b] == hh);
                            assert(cells@.take(ci + 1).contains(hh));
                        }
                        if cells@.take(ci + 1).contains(hh) && hex_len(hh.x as int, hh.y as int)
                            == radius as int {
                            let b = choose|b: int|
                                0 <= b < ci + 1 && (#[trigger] cells@.take(ci + 1)[b]) == hh;
                            if b < ci {
                                assert(cells@.take(ci)[b] == hh);
                                assert(cells@.take(ci).contains(hh));
                            } else {
                                assert(hh == cells@[ci]);
                                assert(hex_len(h.x as int, h.y as int) != radius as int);
                            }
                        }
                    }
                }
            }
            i = i + 1;
        }
        proof {
            assert(cells@.take(cells@.len() as int) =~= cells@);
        }
        r
    }

    /// Builds the task for the given ring distance and cell: the bundle of
    /// every registered line whose position at that distance is the cell,
    /// with its constraint and current candidate prefixes.
    pub fn create_task(&self, ring: usize, cell: Hex) -> (t: Task)
        requires
            self.wf(),
            ring <= self.radius,
        ensures
            t.cell == cell,
            t.index == ring,
            t@.lines == task_of(self@.entries, self.radius as int - ring as int, cell),
    {
        let k = self.radius - ring;
        let mut lines: Vec<LineTask> = Vec::new();
        let mut i: usize = 0;
        while i < self.entries.len()
            invariant
                self.wf(),
                k as int == self.radius as int - ring as int,
                k <= MAX_RADIUS,
                i <= self@.entries.len(),
                task_lines_view(lines@) == task_of(self@.entries.take(i as int), k as int, cell),
            decreases self@.entries.len() - i as int,
        {
            let entry = &self.entries[i];
            let pos = entry.line.at(k);
            let ghost taken = self@.entries.take(i as int + 1);
            proof {
                assert(taken.drop_last() =~= self@.entries.take(i as int));
                assert(taken.last() == self@.entries[i as int]);
            }
            if pos.x == cell.x && pos.y == cell.y {
                let prefixes = entry.candidates.iter_or_empty();
                let search = entry.search.clone();
                let lt = LineTask { line: entry.line, search, string_permutations: prefixes };
                let ghost old_lines = lines@;
                lines.push(lt);
                proof {
                    assert(line_hits(self@.entries[i as int], k as int, cell));
                    assert(lt@.prefixes =~= eff(self@.entries[i as int]));
                    assert(lt@ == mk_line_task(self@.entries[i as int]));
                    assert(task_lines_view(lines@) =~= task_lines_view(old_lines).push(lt@));
                    assert(task_lines_view(lines@) =~= task_of(taken, k as int, cell));
                }
            } else {
                proof {
                    assert(!line_hits(self@.entries[i as int], k as int, cell));
                    assert(task_lines_view(lines@) =~= task_of(taken, k as int, cell));
                }
            }
            i = i + 1;
        }
        proof {
            assert(self@.entries.take(self@.entries.len() as int) =~= self@.entries);
        }
        Task { cell, lines, index: ring }
    }
}


/// Whether `pos` is the position of one of the first `upto` border cells.
pub open spec fn processed(cells: Seq<Hex>, upto: int, pos: (int, int)) -> bool {
    exists|j: int| 0 <= j < upto && hex_at(#[trigger] cells[j]) == pos
}

/// Whether one of the first `t` task positions is entry `i`'s bundle.
pub open spec fn covered(entries: Seq<EntryView>, k: int, cell: Hex, t: int, i: int) -> bool {
    exists|tt: int|
        0 <= tt < t && #[trigger] task_of(entries, k, cell)[tt] == mk_line_task(entries[i])
}

/// Two entry sequences with the same lines, agreeing on every entry whose
/// line hits the cell, build the same task.
proof fn lemma_task_of_agree(e1: Seq<EntryView>, e2: Seq<EntryView>, k: int, cell: Hex)
    requires
        e1.len() == e2.len(),
        forall|i: int| 0 <= i < e1.len() ==> (#[trigger] e1[i]).line == e2[i].line,
        forall|i: int|
            0 <= i < e1.len() && line_hits(#[trigger] e1[i], k, cell) ==> e1[i] == e2[i],
    ensures
        task_of(e1, k, cell) == task_of(e2, k, cell),
    decreases e1.len(),
{
    if e1.len() > 0 {
        let d1 = e1.drop_last();
        let d2 = e2.drop_last();
        assert(forall|i: int| 0 <= i < d1.len() ==> (#[trigger] d1[i]) == e1[i]);
        assert(forall|i: int| 0 <= i < d2.len() ==> (#[trigger] d2[i]) == e2[i]);
        lemma_task_of_agree(d1, d2, k, cell);
        assert(e1.last() == e1[e1.len() - 1] && e2.last() == e2[e1.len() - 1]);
        assert(line_hits(e1.last(), k, cell) == line_hits(e2.last(), k, cell));
        if line_hits(e1.last(), k, cell) {
            assert(e1.last() == e2.last());
        }
    }
}

/// An entry whose line hits the cell stands in the cell's task, at the
/// position given by the number of earlier hits.
proof fn lemma_task_of_hit(entries: Seq<EntryView>, k: int, cell: Hex, i: int)
    requires
        0 <= i < entries.len(),
        line_hits(entries[i], k, cell),
    ensures
        0 <= hits_before(entries, k, cell, i) < task_of(entries, k, cell).len(),
        task_of(entries, k, cell)[hits_before(entries, k, cell, i)] == mk_line_task(entries[i]),
    decreases entries.len(),
{
    let dl = entries.drop_last();
    let rest = task_of(dl, k, cell);
    if i == entries.len() - 1 {
        assert(entries.take(i) =~= dl);
        assert(entries.last() == entries[i]);
    } else {
        assert(dl[i] == entries[i]);
        lemma_task_of_hit(dl, k, cell, i);
        assert(dl.take(i) =~= entries.take(i));
        assert(hits_before(dl, k, cell, i) == hits_before(entries, k, cell, i));
        assert(entries.last() == entries[entries.len() - 1]);
        if line_hits(entries.last(), k, cell) {
            assert(task_of(entries, k, cell)[hits_before(entries, k, cell, i)] == rest[hits_before(
                entries,
                k,
                cell,
                i,
            )]);
        }
    }
}

/// Every position of a task is some entry's bundle: the entry whose line
/// hits the cell with exactly that many earlier hits.
proof fn lemma_task_of_surj(entries: Seq<EntryView>, k: int, cell: Hex, t: int)
    requires
        0 <= t < task_of(entries, k, cell).len(),
    ensures
        exists|i: int|
            0 <= i < entries.len() && line_hits(#[trigger] entries[i], k, cell) && hits_before(
                entries,
                k,
                cell,
                i,
            ) == t && task_of(entries, k, cell)[t] == mk_line_task(entries[i]),
    decreases entries.len(),
{
    let dl = entries.drop_last();
    let rest = task_of(dl, k, cell);
    if t < rest.len() {
        lemma_task_of_surj(dl, k, cell, t);
        let i = choose|i: int|
            0 <= i < dl.len() && line_hits(#[trigger] dl[i], k, cell) && hits_before(
                dl,
                k,
                cell,
                i,
            ) == t && task_of(dl, k, cell)[t] == mk_line_task(dl[i]);
        assert(entries[i] == dl[i]);
        assert(dl.take(i) =~= entries.take(i));
        assert(hits_before(entries, k, cell, i) == t);
        assert(entries.last() == entries[entries.len() - 1]);
        if line_hits(entries.last(), k, cell) {
            assert(task_of(entries, k, cell)[t] == rest[t]);
        }
        assert(task_of(entries, k, cell)[t] == mk_line_task(entries[i]));
    } else {
        // only the last entry's bundle can stand past the rest
        assert(line_hits(entries.last(), k, cell));
        let i = entries.len() - 1;
        assert(entries.take(i) =~= dl);
        assert(hits_before(entries, k, cell, i) == rest.len() as int);
        assert(t == rest.len() as int);
        assert(task_of(entries, k, cell)[t] == mk_line_task(entries[i]));
    }
}


impl Crossword {
    /// Processes one ring: builds the task of every cell on the ring's
    /// border, runs the propagator, and writes each involved line's new
    /// candidate set back. Equal, as a whole, to one `ring_step`.
    fn run_ring(&mut self, rd: usize)
        requires
            old(self).wf(),
            rd <= old(self).radius,
        ensures
            final(self).wf(),
            final(self).radius == old(self).radius,
            final(self)@.entries == ring_step(
                old(self)@.entries,
                old(self).radius as int,
                rd as int,
            ),
    {
        let ghost orig = old(self)@.entries;
        let ghost radius = old(self).radius as int;
        let ghost kk = radius - rd as int;
        let cells = self.hex_border(rd);
        let mut ci: usize = 0;
        while ci < cells.len()
            invariant
                self.wf(),
                self.radius as int == radius,
                rd as int <= radius,
                kk == radius - rd as int,
                ci <= cells@.len(),
                forall|h: Hex|
                    cells@.contains(h) <==> hex_len(h.x as int, h.y as int) == rd as int,
                forall|a: int, b: int| 0 <= a < b < cells@.len() ==> cells@[a] != cells@[b],
                self@.entries.len() == orig.len(),
                forall|i: int|
                    0 <= i < orig.len() ==> (#[trigger] self@.entries[i]).line == orig[i].line
                        && self@.entries[i].search == orig[i].search,
                forall|i: int|
                    0 <= i < orig.len() ==> #[trigger] self@.entries[i] == (if processed(
                        cells@,
                        ci as int,
                        line_at(orig[i].line, kk),
                    ) {
                        ring_step(orig, radius, rd as int)[i]
                    } else {
                        orig[i]
                    }),
            decreases cells@.len() - ci,
        {
            let cell = cells[ci];
            let ghost pre = self@.entries;
            proof {
                assert(cells@.contains(cell)) by {
                    assert(cells@[ci as int] == cell);
                }
                assert forall|i: int|
                    0 <= i < orig.len() && line_hits(#[trigger] orig[i], kk, cell) implies pre[i]
                    == orig[i] by {
                    if processed(cells@, ci as int, line_at(orig[i].line, kk)) {
                        let j = choose|j: int|
                            0 <= j < ci as int && hex_at(#[trigger] cells@[j]) == line_at(
                                orig[i].line,
                                kk,
                            );
                        assert(hex_at(cells@[j]) == hex_at(cell));
                        assert(cells@[j] == cell);
                    }
                }
                assert forall|i: int|
                    0 <= i < pre.len() && line_hits(#[trigger] pre[i], kk, cell) implies pre[i]
                    == orig[i] by {
                    assert(pre[i].line == orig[i].line);
                    assert(line_hits(orig[i], kk, cell));
                }
                lemma_task_of_agree(pre, orig, kk, cell);
            }
            let task = self.create_task(rd, cell);
            proof {
                assert(task@.lines == task_of(orig, kk, cell));
            }
            let changes = permutate(&task);
            let ghost tlen = task_of(orig, kk, cell).len() as int;
            let mut t: usize = 0;
            while t < changes.len()
                invariant
                    self.wf(),
                    self.radius as int == radius,
                    rd as int <= radius,
                    kk == radius - rd as int,
                    ci < cells@.len(),
                    cell == cells@[ci as int],
                    forall|h: Hex|
                        cells@.contains(h) <==> hex_len(h.x as int, h.y as int) == rd as int,
                    forall|a: int, b: int| 0 <= a < b < cells@.len() ==> cells@[a] != cells@[b],
                    self@.entries.len() == orig.len(),
                    forall|i: int|
                        0 <= i < orig.len() ==> (#[trigger] self@.entries[i]).line == orig[i].line
                            && self@.entries[i].search == orig[i].search,
                    t <= changes@.len(),
                    changes@.len() == tlen,
                    tlen == task_of(orig, kk, cell).len() as int,
                    forall|tt: int|
                        0 <= tt < tlen ==> (#[trigger] changes@[tt]).line == task_of(
                            orig,
                            kk,
                            cell,
                        )[tt].line && view_strings(changes@[tt].strings@) == new_strings_of(
                            task_of(orig, kk, cell),
                            tt,
                        ),
                    forall|i: int|
                        0 <= i < orig.len() ==> #[trigger] self@.entries[i] == (if (line_hits(
                            orig[i],
                            kk,
                            cell,
                        ) && covered(orig, kk, cell, t as int, i)) || processed(
                            cells@,
                            ci as int,
                            line_at(orig[i].line, kk),
                        ) {
                            ring_step(orig, radius, rd as int)[i]
                        } else {
                            orig[i]
                        }),
                decreases changes@.len() - t,
            {
                let line = changes[t].line;
                let strings = clone_strings(&changes[t].strings);
                proof {
                    lemma_task_of_surj(orig, kk, cell, t as int);
                }
                let ghost i_t = choose|i: int|
                    0 <= i < orig.len() && line_hits(#[trigger] orig[i], kk, cell) && hits_before(
                        orig,
                        kk,
                        cell,
                        i,
                    ) == t as int && task_of(orig, kk, cell)[t as int] == mk_line_task(orig[i]);
                let ghost before_upd = self@.entries;
                proof {
                    assert(line == orig[i_t].line);
                    assert(self@.entries[i_t].line == line);
                    assert(self.has_line(line));
                }
                let found = self.update_candidates(line, strings);
                proof {
                    assert(found);
                    let iu = choose|i: int|
                        0 <= i < before_upd.len() && (#[trigger] before_upd[i]).line == line && (
                        forall|j: int| 0 <= j < i ==> before_upd[j].line != line)
                            && self@.entries == before_upd.update(
                            i,
                            EntryView {
                                line: before_upd[i].line,
                                search: before_upd[i].search,
                                strings: view_strings(strings@),
                                touched: true,
                            },
                        );
                    // registered lines are unique, so the update hit entry i_t
                    assert(before_upd[iu].line == before_upd[i_t].line);
                    assert(iu == i_t);
                    // the written entry is exactly what ring_step assigns
                    let pos = line_at(orig[i_t].line, kk);
                    assert(pos == hex_at(cell));
                    assert(hex_of(pos) == cell);
                    assert(len_of(pos) == rd as int) by {
                        assert(cells@.contains(cell)) by {
                            assert(cells@[ci as int] == cell);
                        }
                    }
                    assert(view_strings(strings@) =~= view_strings(changes@[t as int].strings@));
                    assert(self@.entries[i_t] == ring_step(orig, radius, rd as int)[i_t]);
                    // every other entry keeps its value and its condition
                    assert forall|i: int|
                        0 <= i < orig.len() implies #[trigger] self@.entries[i] == (if (line_hits(
                            orig[i],
                            kk,
                            cell,
                        ) && covered(orig, kk, cell, t as int + 1, i)) || processed(
                            cells@,
                            ci as int,
                            line_at(orig[i].line, kk),
                        ) {
                            ring_step(orig, radius, rd as int)[i]
                        } else {
                            orig[i]
                        }) by {
                        if i == i_t {
                            assert(task_of(orig, kk, cell)[t as int] == mk_line_task(orig[i_t]));
                            assert(covered(orig, kk, cell, t as int + 1, i_t));
                        } else {
                            assert(self@.entries[i] == before_upd[i]);
                            // entry i's coverage cannot change at step t: the
                            // t-th bundle belongs to i_t's line alone
                            if line_hits(orig[i], kk, cell) && covered(
                                orig,
                                kk,
                                cell,
                                t as int + 1,
                                i,
                            ) {
                                let tt = choose|tt: int|
                                    0 <= tt < t as int + 1 && #[trigger] task_of(
                                        orig,
                                        kk,
                                        cell,
                                    )[tt] == mk_line_task(orig[i]);
                                if tt == t as int {
                                    assert(mk_line_task(orig[i]).line == mk_line_task(
                                        orig[i_t],
                                    ).line);
                                    assert(orig[i].line == orig[i_t].line);
                                    assert(false);
                                } else {
                                    assert(covered(orig, kk, cell, t as int, i));
                                }
                            }
                        }
                    }
                }
                t = t + 1;
            }
            ci = ci + 1;
            proof {
                assert forall|i: int|
                    0 <= i < orig.len() implies #[trigger] self@.entries[i] == (if processed(
                        cells@,
                        ci as int,
                        line_at(orig[i].line, kk),
                    ) {
                        ring_step(orig, radius, rd as int)[i]
                    } else {
                        orig[i]
                    }) by {
                    let pos = line_at(orig[i].line, kk);
                    if line_hits(orig[i], kk, cell) {
                        lemma_task_of_hit(orig, kk, cell, i);
                        assert(covered(orig, kk, cell, tlen, i));
                        assert(hex_at(cells@[ci as int - 1]) == pos);
                        assert(processed(cells@, ci as int, pos));
                    } else {
                        // the current cell is not this line's position
                        if processed(cells@, ci as int, pos) && !processed(
                            cells@,
                            ci as int - 1,
                            pos,
                        ) {
                            let j = choose|j: int|
                                0 <= j < ci as int && hex_at(#[trigger] cells@[j]) == pos;
                            assert(j == ci as int - 1);
                            assert(hex_at(cell) == pos);
                            assert(false);
                        }
                    }
                }
            }
        }
        proof {
            assert forall|i: int|
                0 <= i < orig.len() implies self@.entries[i] == ring_step(
                orig,
                radius,
                rd as int,
            )[i] by {
                let pos = line_at(orig[i].line, kk);
                if len_of(pos) == rd as int {
                    lemma_line_at_bounds(orig[i].line, kk);
                    let h = hex_of(pos);
                    assert(hex_at(h) == pos);
                    assert(hex_len(h.x as int, h.y as int) == rd as int);
                    assert(cells@.contains(h));
                    let j = choose|j: int| 0 <= j < cells@.len() && (#[trigger] cells@[j]) == h;
                    assert(hex_at(cells@[j]) == pos);
                    assert(processed(cells@, cells@.len() as int, pos));
                } else {
                    if processed(cells@, cells@.len() as int, pos) {
                        let j = choose|j: int|
                            0 <= j < cells@.len() && hex_at(#[trigger] cells@[j]) == pos;
                        assert(cells@.contains(cells@[j]));
                        assert(hex_len(cells@[j].x as int, cells@[j].y as int) == rd as int);
                        assert(len_of(pos) == rd as int);
                        assert(false);
                    }
                }
            }
            assert(self@.entries =~= ring_step(orig, radius, rd as int));
        }
    }

    /// The ring driver: processes rings from the outer border inward to the
    /// center, building a task per border cell, propagating candidates, and
    /// writing the results back; each ring completes before the next
    /// begins. The result is the mathematical function `run_rings` of the
    /// starting configuration, so the driver is deterministic.
    pub fn solve(&mut self)
        requires
            old(self).wf(),
        ensures
            final(self).wf(),
            final(self).radius == old(self).radius,
            final(self)@.entries == run_rings(
                old(self)@.entries,
                old(self).radius as int,
                old(self).radius as int,
            ),
    {
        let ghost orig = old(self)@.entries;
        let ghost radius = old(self).radius as int;
        let mut remaining: usize = self.radius + 1;
        while remaining > 0
            invariant
                self.wf(),
                self.radius as int == radius,
                radius <= MAX_RADIUS as int,
                remaining as int <= radius + 1,
                run_rings(self@.entries, radius, remaining as int - 1) == run_rings(
                    orig,
                    radius,
                    radius,
                ),
            decreases remaining,
        {
            let rd = remaining - 1;
            let ghost before = self@.entries;
            self.run_ring(rd);
            proof {
                assert(run_rings(before, radius, rd as int) == run_rings(
                    ring_step(before, radius, rd as int),
                    radius,
                    rd as int - 1,
                ));
            }
            remaining = rd;
        }
    }

    /// The final-acceptance pass for one line: of its current candidates,
    /// the ones that fully satisfy the line's constraint — a candidate that
    /// survived partial-match pruning but is not a complete match is
    /// excluded here, cheaply; empty for an unregistered line.
    pub fn final_candidates(&self, line: Line) -> (r: Vec<String>)
        ensures
            self.has_line(line) ==> exists|i: int|
                0 <= i < self@.entries.len() && (#[trigger] self@.entries[i]).line == line
                    && view_strings(r@) == fully_accepted(
                    eff(self@.entries[i]),
                    self@.entries[i].search,
                ),
            !self.has_line(line) ==> r@.len() == 0,
    {
        match self.find_line(line) {
            Some(i) => {
                let entry = &self.entries[i];
                let candidates = entry.candidates.iter_or_empty();
                let ghost prefixes = eff(self@.entries[i as int]);
                proof {
                    assert(view_strings(candidates@) =~= prefixes);
                }
                let mut r: Vec<String> = Vec::new();
                let mut j: usize = 0;
                while j < candidates.len()
                    invariant
                        0 <= i < self@.entries.len(),
                        entry == self.entries@[i as int],
                        j <= candidates@.len(),
                        view_strings(candidates@) == prefixes,
                        view_strings(r@) == fully_accepted(
                            prefixes.take(j as int),
                            self@.entries[i as int].search,
                        ),
                    decreases candidates@.len() - j,
                {
                    let ghost old_r = r@;
                    let c = candidates[j].clone();
                    let ghost cv = c@;
                    let keep = entry.search.fully_matches(c.as_str());
                    if keep {
                        r.push(c);
                    }
                    proof {
                        let taken = prefixes.take(j as int + 1);
                        assert(taken.drop_last() =~= prefixes.take(j as int));
                        assert(taken.last() == prefixes[j as int]);
                        assert(cv == prefixes[j as int]);
                        if keep {
                            assert(view_strings(r@) =~= view_strings(old_r).push(cv));
                        }
                        assert(view_strings(r@) =~= fully_accepted(
                            taken,
                            self@.entries[i as int].search,
                        ));
                    }
                    j = j + 1;
                }
                proof {
                    assert(prefixes.take(candidates@.len() as int) =~= prefixes);
                }
                r
            },
            None => Vec::new(),
        }
    }
}


/// Whether, at every ring, every border cell is crossed by exactly
/// `expected` lines.
pub open spec fn multiplicity_ok(entries: Seq<EntryView>, radius: int, expected: int) -> bool {
    forall|rd: int, h: Hex|
        0 <= rd <= radius && hex_len(h.x as int, h.y as int) == rd ==> #[trigger] task_of(
            entries,
            radius - rd,
            h,
        ).len() == expected
}

impl Crossword {
    /// Validates the fixed per-cell line-multiplicity at configuration
    /// time: succeeds exactly when, at every ring, every border cell is
    /// crossed by exactly `expected` lines; otherwise reports one offending
    /// cell. A mismatch signals a malformed configuration.
    pub fn validate_multiplicity(&self, expected: usize) -> (r: Result<(), CrosswordError>)
        requires
            self.wf(),
        ensures
            r is Ok <==> multiplicity_ok(self@.entries, self.radius as int, expected as int),
            r matches Err(e) ==> e matches CrosswordError::CellMultiplicity(_),
    {
        let mut rd: usize = 0;
        while rd <= self.radius
            invariant
                self.wf(),
                rd <= self.radius + 1,
                forall|rd2: int, h: Hex|
                    0 <= rd2 < rd as int && hex_len(h.x as int, h.y as int) == rd2
                        ==> #[trigger] task_of(
                        self@.entries,
                        self.radius as int - rd2,
                        h,
                    ).len() == expected as int,
            decreases self.radius + 1 - rd,
        {
            let cells = self.hex_border(rd);
            let mut ci: usize = 0;
            while ci < cells.len()
                invariant
                    self.wf(),
                    rd <= self.radius,
                    ci <= cells@.len(),
                    forall|h: Hex|
                        cells@.contains(h) <==> hex_len(h.x as int, h.y as int) == rd as int,
                    forall|j: int|
                        0 <= j < ci as int ==> task_of(
                            self@.entries,
                            self.radius as int - rd as int,
                            #[trigger] cells@[j],
                        ).len() == expected as int,
                decreases cells@.len() - ci,
            {
                let task = self.create_task(rd, cells[ci]);
                if task.lines.len() != expected {
                    proof {
                        assert(cells@.contains(cells@[ci as int]));
                        assert(task_of(
                            self@.entries,
                            self.radius as int - rd as int,
                            cells@[ci as int],
                        ).len() != expected as int);
                    }
                    return Err(CrosswordError::CellMultiplicity(task.cell));
                }
                ci = ci + 1;
            }
            proof {
                assert forall|h: Hex|
                    hex_len(h.x as int, h.y as int) == rd as int implies #[trigger] task_of(
                    self@.entries,
                    self.radius as int - rd as int,
                    h,
                ).len() == expected as int by {
                    assert(cells@.contains(h));
                    let j = choose|j: int| 0 <= j < cells@.len() && (#[trigger] cells@[j]) == h;
                }
            }
            rd = rd + 1;
        }
        Ok(())
    }
}


/// Monotone pruning at ring level: when a ring touches a line whose
/// candidate prefixes all have one length, every candidate the ring writes
/// back for that line is exactly one character longer.
pub proof fn law_ring_monotone_growth(
    entries: Seq<EntryView>,
    radius: int,
    rd: int,
    i: int,
    len_before: int,
)
    requires
        0 <= i < entries.len(),
        in_bounds(entries[i].line.start),
        0 <= radius - rd <= MAX_RADIUS as int,
        len_of(line_at(entries[i].line, radius - rd)) == rd,
        forall|j: int|
            0 <= j < eff(entries[i]).len() ==> (#[trigger] eff(entries[i])[j]).len()
                == len_before,
    ensures
        forall|m: int|
            0 <= m < ring_step(entries, radius, rd)[i].strings.len() ==> (#[trigger] ring_step(
                entries,
                radius,
                rd,
            )[i].strings[m]).len() == len_before + 1,
{
    let kk = radius - rd;
    let pos = line_at(entries[i].line, kk);
    let cell = hex_of(pos);
    lemma_line_at_bounds(entries[i].line, kk);
    assert(hex_at(cell) == pos);
    assert(line_hits(entries[i], kk, cell));
    lemma_task_of_hit(entries, kk, cell, i);
    let t = task_of(entries, kk, cell);
    let p = hits_before(entries, kk, cell, i);
    assert(t[p] == mk_line_task(entries[i]));
    crate::propagate::law_monotone_growth(t, p, len_before);
    assert(ring_step(entries, radius, rd)[i].strings == new_strings_of(t, p));
}

/// Mutual consistency at ring level: when two lines share a cell at some
/// ring, every candidate the ring writes back for either line ends in a
/// letter that the other line accepts at that cell.
pub proof fn law_ring_mutual_consistency(
    entries: Seq<EntryView>,
    radius: int,
    rd: int,
    i1: int,
    i2: int,
    m: int,
)
    requires
        0 <= i1 < entries.len(),
        0 <= i2 < entries.len(),
        in_bounds(entries[i1].line.start),
        0 <= radius - rd <= MAX_RADIUS as int,
        line_at(entries[i1].line, radius - rd) == line_at(entries[i2].line, radius - rd),
        len_of(line_at(entries[i1].line, radius - rd)) == rd,
        0 <= m < ring_step(entries, radius, rd)[i1].strings.len(),
    ensures
        ring_step(entries, radius, rd)[i1].strings[m].len() >= 1,
        crate::propagate::letter_ok(
            mk_line_task(entries[i2]),
            ring_step(entries, radius, rd)[i1].strings[m].last(),
        ),
{
    let kk = radius - rd;
    let pos = line_at(entries[i1].line, kk);
    let cell = hex_of(pos);
    lemma_line_at_bounds(entries[i1].line, kk);
    assert(hex_at(cell) == pos);
    assert(line_hits(entries[i1], kk, cell));
    assert(line_hits(entries[i2], kk, cell));
    lemma_task_of_hit(entries, kk, cell, i1);
    lemma_task_of_hit(entries, kk, cell, i2);
    let t = task_of(entries, kk, cell);
    let pos1 = hits_before(entries, kk, cell, i1);
    let pos2 = hits_before(entries, kk, cell, i2);
    assert(t[pos1] == mk_line_task(entries[i1]));
    assert(t[pos2] == mk_line_task(entries[i2]));
    assert(ring_step(entries, radius, rd)[i1].strings == new_strings_of(t, pos1));
    crate::propagate::law_mutual_consistency(t, pos1, m);
}

} // verus!
