//! The per-line store of surviving candidate prefixes.
//!
//! An empty store is ambiguous on its own: before any ring has touched a
//! line it stands for the single empty prefix, while after a ring has
//! recorded results it stands for a proven dead end that must stay empty.
//! The `touched` flag keeps the two apart, so that a collapsed line never
//! restarts from the empty prefix.

use vstd::prelude::*;

verus! {

/// The candidate strings a line has survived with so far, plus whether any
/// ring has recorded results for the line yet.
#[derive(Debug)]
pub struct PotentialStrings {
    pub strings: Vec<String>,
    pub touched: bool,
}

/// The views of a sequence of strings.
pub open spec fn view_strings(v: Seq<String>) -> Seq<Seq<char>> {
    v.map_values(|s: String| s@)
}

/// The candidate-prefix set a store stands for: the single empty prefix
/// while untouched and empty, its strings otherwise.
pub open spec fn effective_view(ps: PotentialStrings) -> Seq<Seq<char>> {
    if ps.strings@.len() == 0 && !ps.touched {
        seq![Seq::<char>::empty()]
    } else {
        view_strings(ps.strings@)
    }
}

impl Default for PotentialStrings {
    /// An empty, untouched store: it stands for the single empty prefix.
    fn default() -> (r: Self)
        ensures
            r.strings@.len() == 0,
            !r.touched,
    {
        PotentialStrings { strings: Vec::new(), touched: false }
    }
}

impl PotentialStrings {
    /// Appends one candidate string.
    pub fn insert(&mut self, string: &str)
        ensures
            final(self).touched == old(self).touched,
            final(self).strings@.len() == old(self).strings@.len() + 1,
            forall|i: int|
                0 <= i < old(self).strings@.len() ==> final(self).strings@[i] == old(
                    self,
                ).strings@[i],
            final(self).strings@[old(self).strings@.len() as int]@ == string@,
    {
        self.strings.push(string.to_owned());
    }

    /// The candidate strings this store stands for: one empty string if no
    /// ring has recorded anything yet, the stored strings otherwise.
    pub fn iter_or_empty(&self) -> (r: Vec<String>)
        ensures
            view_strings(r@) == effective_view(*self),
    {
        if self.strings.len() == 0 && !self.touched {
            let empty = String::new();
            let mut r: Vec<String> = Vec::new();
            r.push(empty);
            proof {
                assert(view_strings(r@) =~= effective_view(*self));
            }
            r
        } else {
            let r = clone_strings(&self.strings);
            proof {
                assert(view_strings(r@) =~= effective_view(*self));
            }
            r
        }
    }
}

/// A copy of a vector of strings, equal view for view.
pub fn clone_strings(v: &Vec<String>) -> (r: Vec<String>)
    ensures
        r@.len() == v@.len(),
        forall|i: int| 0 <= i < v@.len() ==> r@[i]@ == #[trigger] v@[i]@,
{
    let mut r: Vec<String> = Vec::new();
    let mut i: usize = 0;
    while i < v.len()
        invariant
            i <= v@.len(),
            r@.len() == i as int,
            forall|j: int| 0 <= j < i as int ==> r@[j]@ == #[trigger] v@[j]@,
        decreases v@.len() - i as int,
    {
        r.push(v[i].clone());
        i = i + 1;
    }
    r
}

} // verus!
