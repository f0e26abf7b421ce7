//! The candidate propagator: given the bundle of lines that cross one cell
//! at one ring, extends each line's candidate prefixes by one letter,
//! prunes against each line's own constraint, and keeps only extensions by
//! letters that every line of the bundle accepts, because the lines share
//! the cell and must agree on the character placed there.

use crate::alphabet::{alphabet, az, push_char};
use crate::candidates::view_strings;
use crate::geometry::{Hex, Line};
use crate::search::{accepts, Search, SearchView};
use vstd::prelude::*;

verus! {

/// One line of a task: the line, its constraint, and its current candidate
/// prefixes (already one string per surviving prefix; a line no ring has
/// touched contributes the single empty prefix).
#[derive(Debug)]
pub struct LineTask {
    pub line: Line,
    pub search: Search,
    pub string_permutations: Vec<String>,
}

/// The mathematical value of a task line.
pub struct LineTaskView {
    pub line: Line,
    pub search: SearchView,
    pub prefixes: Seq<Seq<char>>,
}

impl View for LineTask {
    type V = LineTaskView;

    open spec fn view(&self) -> LineTaskView {
        LineTaskView {
            line: self.line,
            search: self.search@,
            prefixes: view_strings(self.string_permutations@),
        }
    }
}

/// The bundle of lines crossing one cell at one ring distance.
#[derive(Debug)]
pub struct Task {
    pub cell: Hex,
    pub lines: Vec<LineTask>,
    /// Ring distance of the cell from the center.
    pub index: usize,
}

/// The mathematical value of a task.
pub struct TaskView {
    pub cell: Hex,
    pub lines: Seq<LineTaskView>,
    pub index: int,
}

/// The mathematical values of a sequence of task lines.
pub open spec fn task_lines_view(v: Seq<LineTask>) -> Seq<LineTaskView> {
    Seq::new(v.len(), |i: int| v[i]@)
}

impl View for Task {
    type V = TaskView;

    open spec fn view(&self) -> TaskView {
        TaskView { cell: self.cell, lines: task_lines_view(self.lines@), index: self.index as int }
    }
}

/// The propagator's output for one line: its replacement candidate set.
#[derive(Debug)]
pub struct TaskNewStrings {
    pub line: Line,
    pub strings: Vec<String>,
}

/// Whether some candidate prefix of the given task line survives extension
/// by the letter `c`: then `c` is an accepted letter of the line.
pub open spec fn letter_ok(lt: LineTaskView, c: char) -> bool {
    exists|j: int| 0 <= j < lt.prefixes.len() && accepts(lt.search, lt.prefixes[j].push(c))
}

/// Whether every line of the task accepts the letter `c`; only such letters
/// may be placed in the shared cell.
pub open spec fn common_ok(lines: Seq<LineTaskView>, c: char) -> bool {
    forall|k: int| 0 <= k < lines.len() ==> letter_ok(#[trigger] lines[k], c)
}

/// The surviving extensions of the given prefixes by the letter `c`, in
/// prefix order: each prefix extended by `c`, kept when the constraint
/// still partially matches it.
pub open spec fn extensions(prefixes: Seq<Seq<char>>, search: SearchView, c: char) -> Seq<
    Seq<char>,
>
    decreases prefixes.len(),
{
    if prefixes.len() == 0 {
        Seq::empty()
    } else {
        let rest = extensions(prefixes.drop_last(), search, c);
        let ext = prefixes.last().push(c);
        if accepts(search, ext) {
            rest.push(ext)
        } else {
            rest
        }
    }
}

/// The new candidate set of line `i` of the task, restricted to the first
/// `n` letters of the alphabet: the concatenation, over each letter that
/// every line accepts, of line `i`'s surviving extensions by that letter.
pub open spec fn selected_upto(lines: Seq<LineTaskView>, i: int, n: int) -> Seq<Seq<char>>
    decreases n,
{
    if n <= 0 {
        Seq::empty()
    } else {
        let pre = selected_upto(lines, i, n - 1);
        let c = alphabet()[n - 1];
        if common_ok(lines, c) {
            pre + extensions(lines[i].prefixes, lines[i].search, c)
        } else {
            pre
        }
    }
}

/// The new candidate set of line `i` of the task.
pub open spec fn new_strings_of(lines: Seq<LineTaskView>, i: int) -> Seq<Seq<char>> {
    selected_upto(lines, i, 26)
}

/// Membership shape of a surviving extension: it extends one of the line's
/// prefixes by one commonly accepted letter and satisfies the line's own
/// constraint.
pub open spec fn is_surviving_extension(s: Seq<char>, lines: Seq<LineTaskView>, i: int) -> bool {
    exists|j: int, k: int|
        0 <= j < lines[i].prefixes.len() && 0 <= k < 26 && s == lines[i].prefixes[j].push(
            alphabet()[k],
        ) && accepts(lines[i].search, s) && common_ok(lines, alphabet()[k])
}

/// A letter bucket is never larger than the prefix set it extends, and it
/// is inhabited exactly when some prefix survives extension by the letter;
/// each member is a surviving one-letter extension of some prefix.
pub proof fn lemma_extensions_props(prefixes: Seq<Seq<char>>, search: SearchView, c: char)
    ensures
        extensions(prefixes, search, c).len() <= prefixes.len(),
        (extensions(prefixes, search, c).len() > 0) <==> (exists|j: int|
            0 <= j < prefixes.len() && accepts(search, #[trigger] prefixes[j].push(c))),
        forall|m: int|
            0 <= m < extensions(prefixes, search, c).len() ==> (exists|j: int|
                0 <= j < prefixes.len() && #[trigger] extensions(prefixes, search, c)[m]
                    == prefixes[j].push(c) && accepts(search, prefixes[j].push(c))),
    decreases prefixes.len(),
{
    if prefixes.len() > 0 {
        let pl = prefixes.len() as int;
        let dl = prefixes.drop_last();
        let rest = extensions(dl, search, c);
        let full = extensions(prefixes, search, c);
        lemma_extensions_props(dl, search, c);
        assert forall|j: int| 0 <= j < pl - 1 implies #[trigger] prefixes[j].push(c) == dl[j].push(
            c,
        ) by {
            assert(dl[j] == prefixes[j]);
        }
        assert(prefixes.last() == prefixes[pl - 1]);
        if full.len() > 0 {
            if accepts(search, prefixes.last().push(c)) {
                assert(accepts(search, prefixes[pl - 1].push(c)));
            } else {
                let j = choose|j: int| 0 <= j < dl.len() && accepts(search, #[trigger] dl[j].push(c));
                assert(accepts(search, prefixes[j].push(c)));
            }
        }
        if exists|j: int| 0 <= j < pl && accepts(search, #[trigger] prefixes[j].push(c)) {
            let j = choose|j: int| 0 <= j < pl && accepts(search, #[trigger] prefixes[j].push(c));
            if j < pl - 1 {
                assert(accepts(search, dl[j].push(c)));
                assert(rest.len() > 0);
            }
            assert(full.len() > 0);
        }
        assert forall|m: int| 0 <= m < full.len() implies (exists|j: int|
            0 <= j < pl && #[trigger] full[m] == prefixes[j].push(c) && accepts(
                search,
                prefixes[j].push(c),
            )) by {
            if m < rest.len() {
                assert(full[m] == rest[m]);
                let j = choose|j: int|
                    0 <= j < dl.len() && #[trigger] rest[m] == dl[j].push(c) && accepts(
                        search,
                        dl[j].push(c),
                    );
                assert(full[m] == prefixes[j].push(c) && accepts(search, prefixes[j].push(c)));
            } else {
                assert(accepts(search, prefixes.last().push(c)));
                assert(full[m] == prefixes[pl - 1].push(c));
            }
        }
    }
}

/// Every member of a task line's new candidate set is a surviving
/// extension: one old prefix grown by one letter that every line of the
/// task accepts.
pub proof fn lemma_selected_members(lines: Seq<LineTaskView>, i: int, n: int)
    requires
        0 <= i < lines.len(),
        0 <= n <= 26,
    ensures
        forall|m: int|
            0 <= m < selected_upto(lines, i, n).len() ==> is_surviving_extension(
                #[trigger] selected_upto(lines, i, n)[m],
                lines,
                i,
            ),
    decreases n,
{
    if n > 0 {
        lemma_selected_members(lines, i, n - 1);
        let pre = selected_upto(lines, i, n - 1);
        let c = alphabet()[n - 1];
        if common_ok(lines, c) {
            lemma_extensions_props(lines[i].prefixes, lines[i].search, c);
            let ext = extensions(lines[i].prefixes, lines[i].search, c);
            assert forall|m: int|
                0 <= m < selected_upto(lines, i, n).len() implies is_surviving_extension(
                #[trigger] selected_upto(lines, i, n)[m],
                lines,
                i,
            ) by {
                if m < pre.len() {
                    assert(selected_upto(lines, i, n)[m] == pre[m]);
                } else {
                    let mm = m - pre.len();
                    assert(selected_upto(lines, i, n)[m] == ext[mm]);
                    let j = choose|j: int|
                        0 <= j < lines[i].prefixes.len() && #[trigger] ext[mm] == lines[
                            i
                        ].prefixes[j].push(c) && accepts(
                            lines[i].search,
                            lines[i].prefixes[j].push(c),
                        );
                    assert(0 <= n - 1 < 26 && ext[mm] == lines[i].prefixes[j].push(
                        alphabet()[n - 1],
                    ) && common_ok(lines, alphabet()[n - 1]));
                }
            }
        }
    }
}

/// Monotone pruning, growth direction: when every prefix of a task line has
/// the same length, every string of its new candidate set is exactly one
/// character longer.
pub proof fn law_monotone_growth(lines: Seq<LineTaskView>, i: int, len_before: int)
    requires
        0 <= i < lines.len(),
        forall|j: int|
            0 <= j < lines[i].prefixes.len() ==> (#[trigger] lines[i].prefixes[j]).len()
                == len_before,
    ensures
        forall|m: int|
            0 <= m < new_strings_of(lines, i).len() ==> (#[trigger] new_strings_of(lines, i)[
                m
            ]).len() == len_before + 1,
{
    lemma_selected_members(lines, i, 26);
}

/// Monotone pruning, cardinality direction: a letter bucket never holds
/// more strings than the prefix set it extends.
pub proof fn law_bucket_no_growth(prefixes: Seq<Seq<char>>, search: SearchView, c: char)
    ensures
        extensions(prefixes, search, c).len() <= prefixes.len(),
{
    lemma_extensions_props(prefixes, search, c);
}

/// Mutual consistency: every string of a task line's new candidate set ends
/// in a letter that every line of the task accepts at the shared cell.
pub proof fn law_mutual_consistency(lines: Seq<LineTaskView>, i: int, m: int)
    requires
        0 <= i < lines.len(),
        0 <= m < new_strings_of(lines, i).len(),
    ensures
        new_strings_of(lines, i)[m].len() >= 1,
        forall|k2: int|
            0 <= k2 < lines.len() ==> letter_ok(
                #[trigger] lines[k2],
                new_strings_of(lines, i)[m].last(),
            ),
{
    lemma_selected_members(lines, i, 26);
    let s = new_strings_of(lines, i)[m];
    let (j, k) = choose|j: int, k: int|
        0 <= j < lines[i].prefixes.len() && 0 <= k < 26 && s == lines[i].prefixes[j].push(
            alphabet()[k],
        ) && accepts(lines[i].search, s) && common_ok(lines, alphabet()[k]);
    assert(s.last() == alphabet()[k]);
}

/// No-solution convergence: once one line of a task has been reduced to an
/// empty candidate set by an earlier ring, no letter is commonly accepted,
/// and every line of the task receives an empty candidate set; emptiness is
/// absorbing rather than an error.
pub proof fn law_collapse_absorbs(lines: Seq<LineTaskView>, i0: int, i: int)
    requires
        0 <= i0 < lines.len(),
        lines[i0].prefixes.len() == 0,
        0 <= i < lines.len(),
    ensures
        new_strings_of(lines, i).len() == 0,
{
    assert forall|k: int| 0 <= k < 26 implies !common_ok(lines, #[trigger] alphabet()[k]) by {
        assert(!letter_ok(lines[i0], alphabet()[k]));
    }
    law_empty_intersection(lines, i);
}

/// No-solution convergence at one cell: when no letter is accepted by every
/// line of the task, every line's new candidate set is empty.
pub proof fn law_empty_intersection(lines: Seq<LineTaskView>, i: int)
    requires
        0 <= i < lines.len(),
        forall|k: int| 0 <= k < 26 ==> !common_ok(lines, #[trigger] alphabet()[k]),
    ensures
        new_strings_of(lines, i).len() == 0,
{
    lemma_selected_empty(lines, i, 26);
}

proof fn lemma_selected_empty(lines: Seq<LineTaskView>, i: int, n: int)
    requires
        0 <= i < lines.len(),
        0 <= n <= 26,
        forall|k: int| 0 <= k < 26 ==> !common_ok(lines, #[trigger] alphabet()[k]),
    ensures
        selected_upto(lines, i, n).len() == 0,
    decreases n,
{
    if n > 0 {
        lemma_selected_empty(lines, i, n - 1);
    }
}

/// One line's letter buckets: entry `k` holds the line's surviving
/// extensions by the `k`-th letter of the alphabet.
pub open spec fn bucket_row_ok(row: Seq<Vec<String>>, lt: LineTaskView) -> bool {
    row.len() == 26 && forall|kk: int|
        0 <= kk < 26 ==> view_strings(#[trigger] row[kk]@) == extensions(
            lt.prefixes,
            lt.search,
            alphabet()[kk],
        )
}

/// Extends each involved line's candidate prefixes by one character,
/// prunes each extension against that line's own constraint, intersects
/// the accepted letters across all lines of the task, and emits, per line,
/// the union over commonly accepted letters of its surviving extensions.
pub fn permutate(task: &Task) -> (r: Vec<TaskNewStrings>)
    ensures
        r@.len() == task@.lines.len(),
        forall|i: int|
            0 <= i < r@.len() ==> (#[trigger] r@[i]).line == task@.lines[i].line && view_strings(
                r@[i].strings@,
            ) == new_strings_of(task@.lines, i),
{
    let alpha = az();
    let nlines = task.lines.len();

    // per line, per letter: the surviving extensions with that letter
    let mut buckets: Vec<Vec<Vec<String>>> = Vec::new();
    let mut i: usize = 0;
    while i < nlines
        invariant
            nlines == task.lines@.len(),
            alpha@ == alphabet(),
            i <= nlines,
            buckets@.len() == i as int,
            forall|ii: int|
                0 <= ii < i as int ==> bucket_row_ok(#[trigger] buckets@[ii]@, task@.lines[ii]),
        decreases nlines - i,
    {
        let lt = &task.lines[i];
        let nprefix = lt.string_permutations.len();
        let mut b: Vec<Vec<String>> = Vec::new();
        let mut k: usize = 0;
        while k < 26
            invariant
                nlines == task.lines@.len(),
                i < nlines,
                alpha@ == alphabet(),
                *lt == task.lines@[i as int],
                nprefix == lt.string_permutations@.len(),
                k <= 26,
                b@.len() == k as int,
                forall|kk: int|
                    0 <= kk < k as int ==> view_strings(#[trigger] b@[kk]@) == extensions(
                        lt@.prefixes,
                        lt@.search,
                        alphabet()[kk],
                    ),
            decreases 26 - k,
        {
            let c = alpha[k];
            let mut bucket: Vec<String> = Vec::new();
            let mut j: usize = 0;
            while j < nprefix
                invariant
                    i < nlines,
                    nlines == task.lines@.len(),
                    k < 26,
                    alpha@ == alphabet(),
                    c == alphabet()[k as int],
                    *lt == task.lines@[i as int],
                    nprefix == lt.string_permutations@.len(),
                    j <= nprefix,
                    view_strings(bucket@) == extensions(
                        lt@.prefixes.take(j as int),
                        lt@.search,
                        c,
                    ),
                decreases nprefix - j,
            {
                let mut s = lt.string_permutations[j].clone();
                push_char(&mut s, c);
                proof {
                    assert(s@ == lt@.prefixes[j as int].push(c));
                }
                let good = lt.search.partially_matches(s.as_str());
                let ghost old_bucket = bucket@;
                let ghost sv = s@;
                if good {
                    bucket.push(s);
                }
                proof {
                    let taken = lt@.prefixes.take(j as int + 1);
                    assert(taken.drop_last() =~= lt@.prefixes.take(j as int));
                    assert(taken.last() == lt@.prefixes[j as int]);
                    if good {
                        assert(view_strings(bucket@) =~= view_strings(old_bucket).push(sv));
                    }
                    assert(view_strings(bucket@) =~= extensions(taken, lt@.search, c));
                }
                j = j + 1;
            }
            proof {
                assert(lt@.prefixes.take(nprefix as int) =~= lt@.prefixes);
            }
            b.push(bucket);
            k = k + 1;
        }
        buckets.push(b);
        i = i + 1;
        proof {
            assert forall|ii: int|
                0 <= ii < i as int implies bucket_row_ok(
                #[trigger] buckets@[ii]@,
                task@.lines[ii],
            ) by {
                if ii + 1 == i as int {
                    assert(buckets@[ii]@ == b@);
                    assert(task@.lines[ii] == lt@);
                }
            }
        }
    }

    // the letters accepted by every line of the task
    let mut common: Vec<bool> = Vec::new();
    let mut k: usize = 0;
    while k < 26
        invariant
            nlines == task.lines@.len(),
            buckets@.len() == nlines as int,
            forall|ii: int|
                0 <= ii < nlines as int ==> bucket_row_ok(
                    #[trigger] buckets@[ii]@,
                    task@.lines[ii],
                ),
            k <= 26,
            common@.len() == k as int,
            forall|kk: int|
                0 <= kk < k as int ==> common@[kk] == common_ok(
                    task@.lines,
                    #[trigger] alphabet()[kk],
                ),
        decreases 26 - k,
    {
        let mut ok = true;
        let mut i2: usize = 0;
        while i2 < nlines
            invariant
                nlines == task.lines@.len(),
                buckets@.len() == nlines as int,
                forall|ii: int|
                    0 <= ii < nlines as int ==> bucket_row_ok(
                        #[trigger] buckets@[ii]@,
                        task@.lines[ii],
                    ),
                k < 26,
                i2 <= nlines,
                ok == (forall|ii: int|
                    0 <= ii < i2 as int ==> letter_ok(
                        #[trigger] task@.lines[ii],
                        alphabet()[k as int],
                    )),
            decreases nlines - i2,
        {
            proof {
                assert(bucket_row_ok(buckets@[i2 as int]@, task@.lines[i2 as int]));
            }
            let empty_bucket = buckets[i2][k].len() == 0;
            proof {
                lemma_extensions_props(
                    task@.lines[i2 as int].prefixes,
                    task@.lines[i2 as int].search,
                    alphabet()[k as int],
                );
                assert(view_strings(buckets@[i2 as int]@[k as int]@).len() == buckets@[
                    i2 as int
                ]@[k as int]@.len());
                assert(empty_bucket <==> !letter_ok(task@.lines[i2 as int], alphabet()[k as int]));
            }
            if empty_bucket {
                ok = false;
            }
            i2 = i2 + 1;
        }
        common.push(ok);
        k = k + 1;
    }

    // per line: the union of its buckets over the commonly accepted letters
    let mut result: Vec<TaskNewStrings> = Vec::new();
    let mut i3: usize = 0;
    while i3 < nlines
        invariant
            nlines == task.lines@.len(),
            buckets@.len() == nlines as int,
            forall|ii: int|
                0 <= ii < nlines as int ==> bucket_row_ok(
                    #[trigger] buckets@[ii]@,
                    task@.lines[ii],
                ),
            common@.len() == 26,
            forall|kk: int|
                0 <= kk < 26 ==> common@[kk] == common_ok(task@.lines, #[trigger] alphabet()[kk]),
            i3 <= nlines,
            result@.len() == i3 as int,
            forall|ii: int|
                0 <= ii < i3 as int ==> (#[trigger] result@[ii]).line == task@.lines[ii].line
                    && view_strings(result@[ii].strings@) == new_strings_of(task@.lines, ii),
        decreases nlines - i3,
    {
        let mut out: Vec<String> = Vec::new();
        let mut k3: usize = 0;
        while k3 < 26
            invariant
                nlines == task.lines@.len(),
                buckets@.len() == nlines as int,
                forall|ii: int|
                    0 <= ii < nlines as int ==> bucket_row_ok(
                        #[trigger] buckets@[ii]@,
                        task@.lines[ii],
                    ),
                common@.len() == 26,
                forall|kk: int|
                    0 <= kk < 26 ==> common@[kk] == common_ok(
                        task@.lines,
                        #[trigger] alphabet()[kk],
                    ),
                i3 < nlines,
                k3 <= 26,
                view_strings(out@) == selected_upto(task@.lines, i3 as int, k3 as int),
            decreases 26 - k3,
        {
            proof {
                assert(bucket_row_ok(buckets@[i3 as int]@, task@.lines[i3 as int]));
            }
            if common[k3] {
                let bucket_len = buckets[i3][k3].len();
                let mut m: usize = 0;
                while m < bucket_len
                    invariant
                        nlines == task.lines@.len(),
                        buckets@.len() == nlines as int,
                        forall|ii: int|
                            0 <= ii < nlines as int ==> bucket_row_ok(
                                #[trigger] buckets@[ii]@,
                                task@.lines[ii],
                            ),
                        i3 < nlines,
                        k3 < 26,
                        bucket_len == buckets@[i3 as int]@[k3 as int]@.len(),
                        m <= bucket_len,
                        view_strings(out@) == selected_upto(task@.lines, i3 as int, k3 as int)
                            + view_strings(buckets@[i3 as int]@[k3 as int]@).take(m as int),
                    decreases bucket_len - m,
                {
                    proof {
                        assert(bucket_row_ok(buckets@[i3 as int]@, task@.lines[i3 as int]));
                    }
                    let ghost old_out = out@;
                    let s2 = buckets[i3][k3][m].clone();
                    let ghost s2v = s2@;
                    out.push(s2);
                    proof {
                        let bv = view_strings(buckets@[i3 as int]@[k3 as int]@);
                        assert(s2v == bv[m as int]);
                        assert(bv.take(m as int + 1) =~= bv.take(m as int).push(bv[m as int]));
                        assert(view_strings(out@) =~= view_strings(old_out).push(s2v));
                        assert(view_strings(out@) =~= selected_upto(
                            task@.lines,
                            i3 as int,
                            k3 as int,
                        ) + bv.take(m as int + 1));
                    }
                    m = m + 1;
                }
                proof {
                    let bv = view_strings(buckets@[i3 as int]@[k3 as int]@);
                    assert(bv.take(bucket_len as int) =~= bv);
                    assert(common_ok(task@.lines, alphabet()[k3 as int]));
                    assert(view_strings(out@) =~= selected_upto(
                        task@.lines,
                        i3 as int,
                        k3 as int + 1,
                    ));
                }
            } else {
                proof {
                    assert(!common_ok(task@.lines, alphabet()[k3 as int]));
                    assert(view_strings(out@) =~= selected_upto(
                        task@.lines,
                        i3 as int,
                        k3 as int + 1,
                    ));
                }
            }
            k3 = k3 + 1;
        }
        let line = task.lines[i3].line;
        result.push(TaskNewStrings { line, strings: out });
        i3 = i3 + 1;
    }
    result
}

} // verus!
