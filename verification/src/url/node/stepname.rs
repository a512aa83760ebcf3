//! Names of the captured steps of a route, mapped to their segment index.

use vstd::prelude::*;

use crate::url::params::StrMap;

verus! {

/// Capture names of a route mapped to the index of the segment they name.
#[derive(Clone, Debug)]
pub struct StepName {
    inner: StrMap<usize>,
}

/// The map that a list of optional names gives: each present name maps to
/// its position in the list; a later position replaces an earlier one.
pub open spec fn names_map(names: Seq<Option<Seq<char>>>) -> Map<Seq<char>, usize>
    decreases names.len(),
{
    if names.len() == 0 {
        Map::empty()
    } else {
        let m = names_map(names.drop_last());
        match names.last() {
            Some(n) => m.insert(n, (names.len() - 1) as usize),
            None => m,
        }
    }
}

impl View for StepName {
    type V = Map<Seq<char>, usize>;

    closed spec fn view(&self) -> Map<Seq<char>, usize> {
        self.inner.view_map()
    }
}

impl StepName {
    /// Well-formedness: each name occurs once.
    pub closed spec fn wf(self) -> bool {
        self.inner.wf()
    }

    /// An empty step-name map.
    pub fn new() -> (r: StepName)
        ensures
            r.wf(),
            r@ == Map::<Seq<char>, usize>::empty(),
    {
        StepName { inner: StrMap::new() }
    }

    /// Builds the map from the name list that the pattern parser yields:
    /// each present name maps to its index, a later index replacing an
    /// earlier one.
    pub fn from_names(names: Vec<Option<String>>) -> (r: StepName)
        ensures
            r.wf(),
            r@ == names_map(names@.map_values(|o: Option<String>| opt_view(o))),
    {
        let ghost vs = names@.map_values(|o: Option<String>| opt_view(o));
        let mut r = StepName::new();
        let mut k: usize = 0;
        while k < names.len()
            invariant
                k <= names@.len(),
                vs == names@.map_values(|o: Option<String>| opt_view(o)),
                r.wf(),
                r@ == names_map(vs.take(k as int)),
            decreases names.len() - k,
        {
            assert(vs.take(k as int + 1).drop_last() =~= vs.take(k as int));
            match &names[k] {
                Some(n) => {
                    r.insert(n.as_str(), k);
                },
                None => {},
            }
            k = k + 1;
        }
        assert(vs.take(names@.len() as int) =~= vs);
        r
    }

    /// Whether no step name is registered.
    pub fn is_empty(&self) -> (r: bool)
        requires
            self.wf(),
        ensures
            r == (self@.len() == 0),
    {
        self.inner.is_empty()
    }

    /// The number of registered step names.
    pub fn len(&self) -> (n: usize)
        requires
            self.wf(),
        ensures
            n == self@.len(),
            self@.dom().finite(),
    {
        proof {
            self.inner.lemma_finite();
        }
        self.inner.len()
    }

    /// Sets the index of `name`, returning the index it replaced.
    pub fn insert(&mut self, name: &str, index: usize) -> (prev: Option<usize>)
        requires
            old(self).wf(),
        ensures
            final(self).wf(),
            final(self)@ == old(self)@.insert(name@, index),
            final(self)@.dom().finite(),
            final(self)@.len() == (if old(self)@.contains_key(name@) {
                old(self)@.len()
            } else {
                old(self)@.len() + 1
            }),
            prev == (if old(self)@.contains_key(name@) {
                Some(old(self)@[name@])
            } else {
                None::<usize>
            }),
    {
        proof {
            self.inner.lemma_finite();
        }
        let r = self.inner.insert(name.to_owned(), index);
        proof {
            self.inner.lemma_finite();
        }
        r
    }

    /// Removes `name`, returning its index if it had one.
    pub fn remove(&mut self, name: &str) -> (prev: Option<usize>)
        requires
            old(self).wf(),
        ensures
            final(self).wf(),
            final(self)@ == old(self)@.remove(name@),
            prev == (if old(self)@.contains_key(name@) {
                Some(old(self)@[name@])
            } else {
                None::<usize>
            }),
    {
        self.inner.remove(name)
    }

    /// The segment index of `name`.
    pub fn get(&self, name: &str) -> (r: Option<usize>)
        requires
            self.wf(),
        ensures
            r == (if self@.contains_key(name@) {
                Some(self@[name@])
            } else {
                None::<usize>
            }),
    {
        match self.inner.get(name) {
            Some(i) => Some(*i),
            None => None,
        }
    }

    /// The segment index of `name` (same as [`StepName::get`]).
    pub fn index(&self, name: &str) -> (r: Option<usize>)
        requires
            self.wf(),
        ensures
            r == (if self@.contains_key(name@) {
                Some(self@[name@])
            } else {
                None::<usize>
            }),
    {
        self.get(name)
    }

    /// Whether `name` is registered.
    pub fn contains(&self, name: &str) -> (r: bool)
        ensures
            r == self@.contains_key(name@),
    {
        self.inner.contains_key(name)
    }

    /// Every registered name with its index, each name once.
    pub fn iter(&self) -> (r: Vec<(String, usize)>)
        requires
            self.wf(),
        ensures
            r@.len() == self@.len(),
            forall|i: int|
                0 <= i < r@.len() ==> self@.contains_key(#[trigger] r@[i].0@) && self@[r@[i].0@]
                    == r@[i].1,
            forall|i: int, j: int| 0 <= i < j < r@.len() ==> r@[i].0@ != r@[j].0@,
    {
        proof {
            self.inner.lemma_pairs();
        }
        let es = self.inner.entries();
        let mut r: Vec<(String, usize)> = Vec::new();
        let mut k: usize = 0;
        while k < es.len()
            invariant
                k <= es@.len(),
                es@.map_values(|e: (String, usize)| (e.0@, e.1)) == self.inner.pairs(),
                r@.len() == k,
                forall|i: int| 0 <= i < k ==> (#[trigger] r@[i]).0@ == es@[i].0@ && r@[i].1 == es@[i].1,
            decreases es.len() - k,
        {
            let e = &es[k];
            r.push((e.0.clone(), e.1));
            k = k + 1;
        }
        proof {
            let ps = self.inner.pairs();
            assert forall|i: int| 0 <= i < r@.len() implies self@.contains_key(#[trigger] r@[i].0@)
                && self@[r@[i].0@] == r@[i].1 by {
                assert(ps[i] == (es@[i].0@, es@[i].1));
                assert(ps[i].0 == r@[i].0@);
            }
            assert forall|i: int, j: int| 0 <= i < j < r@.len() implies r@[i].0@ != r@[j].0@ by {
                assert(ps[i].0 == r@[i].0@);
                assert(ps[j].0 == r@[j].0@);
            }
        }
        r
    }
}

/// An optional string by its characters.
pub open spec fn opt_view(o: Option<String>) -> Option<Seq<char>> {
    match o {
        Some(s) => Some(s@),
        None => None,
    }
}

impl Default for StepName {
    fn default() -> (r: StepName)
        ensures
            r.wf(),
            r@ == Map::<Seq<char>, usize>::empty(),
    {
        StepName::new()
    }
}

} // verus!
