//! A table from pairs of strings to numbers.

use vstd::hash_map::StringHashMap;
use vstd::prelude::*;

verus! {

/// A table that files a number under a pair of strings: a table by the
/// first string that leads to a table by the second.
pub struct PairIndex {
    outer: StringHashMap<usize>,
    inner: Vec<StringHashMap<usize>>,
}

impl PairIndex {
    /// The table is consistent: every first string leads to a table by the
    /// second string, and no two first strings lead to the same one.
    pub closed spec fn wf(&self) -> bool {
        &&& forall|s: Seq<char>| #[trigger]
            self.outer@.contains_key(s) ==> self.outer@[s] < self.inner@.len()
        &&& forall|s: Seq<char>, t: Seq<char>|
            #[trigger] self.outer@.contains_key(s) && #[trigger] self.outer@.contains_key(t)
                && self.outer@[s] == self.outer@[t] ==> s == t
    }

    /// Whether a number is filed under the pair (`first`, `second`).
    pub closed spec fn has(&self, first: Seq<char>, second: Seq<char>) -> bool {
        self.outer@.contains_key(first) && self.inner@[self.outer@[first] as int]@.contains_key(
            second,
        )
    }

    /// The number that is filed under the pair (`first`, `second`).
    pub closed spec fn at(&self, first: Seq<char>, second: Seq<char>) -> usize {
        self.inner@[self.outer@[first] as int]@[second]
    }

    /// A table that holds nothing.
    pub fn new() -> (table: PairIndex)
        ensures
            table.wf(),
            forall|first: Seq<char>, second: Seq<char>| !table.has(first, second),
    {
        PairIndex { outer: StringHashMap::new(), inner: Vec::new() }
    }

    /// The number that is filed under the pair (`first`, `second`), if one
    /// is.
    pub fn get(&self, first: &str, second: &str) -> (found: Option<usize>)
        requires
            self.wf(),
        ensures
            match found {
                Some(v) => self.has(first@, second@) && self.at(first@, second@) == v,
                None => !self.has(first@, second@),
            },
    {
        match self.outer.get(first) {
            None => None,
            Some(t) => match self.inner[*t].get(second) {
                None => None,
                Some(v) => Some(*v),
            },
        }
    }

    /// Files `value` under the pair (`first`, `second`), in place of what
    /// was filed there. The other pairs keep their numbers.
    pub fn insert(&mut self, first: String, second: String, value: usize)
        requires
            old(self).wf(),
        ensures
            final(self).wf(),
            final(self).has(first@, second@),
            final(self).at(first@, second@) == value,
            forall|s: Seq<char>, b: Seq<char>|
                !(s == first@ && b == second@) ==> (#[trigger] final(self).has(s, b) == old(self).has(s, b)),
            forall|s: Seq<char>, b: Seq<char>|
                !(s == first@ && b == second@) && old(self).has(s, b) ==> #[trigger] final(self).at(s, b) == old(self).at(s, b),
    {
        let known = match self.outer.get(first.as_str()) {
            None => None,
            Some(t) => Some(*t),
        };
        match known {
            Some(t) => {
                self.inner[t].insert(second, value);
            },
            None => {
                let t = self.inner.len();
                let mut by_second: StringHashMap<usize> = StringHashMap::new();
                by_second.insert(second, value);
                self.inner.push(by_second);
                self.outer.insert(first, t);
            },
        }
    }
}

} // verus!
