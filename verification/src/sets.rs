//! A set of strings, as the region lists use it.
use vstd::prelude::*;
use crate::text::{chars_of, seq_eq, sort_dedup_strings, string_views, strictly_sorted};

verus! {

/// A finite set of strings, compared by their characters.
#[derive(Debug, Clone)]
pub struct StringSet {
    items: Vec<String>,
}

impl View for StringSet {
    type V = Set<Seq<char>>;

    closed spec fn view(&self) -> Set<Seq<char>> {
        string_views(self.items@).to_set()
    }
}

impl StringSet {
    pub fn new() -> (r: StringSet)
        ensures
            r@ == Set::<Seq<char>>::empty(),
    {
        let r = StringSet { items: Vec::new() };
        assert(string_views(r.items@).to_set() =~= Set::<Seq<char>>::empty());
        r
    }

    /// The set of the given strings.
    pub fn from_vec(v: Vec<String>) -> (r: StringSet)
        ensures
            r@ == string_views(v@).to_set(),
    {
        StringSet { items: v }
    }

    pub fn contains(&self, s: &str) -> (r: bool)
        ensures
            r == self@.contains(s@),
    {
        let sv = chars_of(s);
        let ghost vs = string_views(self.items@);
        let mut i: usize = 0;
        while i < self.items.len()
            invariant
                0 <= i <= self.items.len(),
                sv@ == s@,
                vs == string_views(self.items@),
                forall|j: int| 0 <= j < i ==> vs[j] != s@,
            decreases self.items.len() - i,
        {
            let w = chars_of(self.items[i].as_str());
            if seq_eq(&w, &sv) {
                assert(vs[i as int] == s@);
                assert(vs.to_set().contains(vs[i as int]));
                return true;
            }
            i += 1;
        }
        assert(!vs.contains(s@));
        false
    }

    pub fn is_empty(&self) -> (r: bool)
        ensures
            r == (self@ == Set::<Seq<char>>::empty()),
    {
        let ghost vs = string_views(self.items@);
        if self.items.len() == 0 {
            assert(vs.to_set() =~= Set::<Seq<char>>::empty());
            true
        } else {
            assert(vs.to_set().contains(vs[0]));
            false
        }
    }

    /// Adds `s` to the set.
    pub fn insert(&mut self, s: String)
        ensures
            final(self)@ == old(self)@.insert(s@),
    {
        let ghost before = string_views(self.items@);
        self.items.push(s);
        assert(string_views(self.items@) =~= before.push(s@));
        proof {
            before.lemma_push_to_set_commute(s@);
        }
    }

    /// The strings of the set, sorted by code point.
    pub fn to_sorted_vec(&self) -> (r: Vec<String>)
        ensures
            strictly_sorted(string_views(r@)),
            string_views(r@).to_set() == self@,
    {
        let copy = self.items.clone();
        assert(string_views(copy@) =~= string_views(self.items@)) by {
            assert forall|i: int| 0 <= i < copy@.len() implies copy@[i] == self.items@[i] by {
                assert(cloned::<String>(self.items@[i], copy@[i]));
            }
        }
        sort_dedup_strings(copy)
    }
}

} // verus!
