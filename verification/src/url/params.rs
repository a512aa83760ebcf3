//! Maps keyed by strings: the parameter map used to fill route patterns.

use vstd::prelude::*;

use crate::url::pattern::str_equal;

verus! {

/// Values by string key, in insertion order. Each key occurs at most once.
#[derive(Clone, Debug)]
pub struct StrMap<V> {
    entries: Vec<(String, V)>,
}

/// Parameter values by parameter name.
pub type ParamMap = StrMap<String>;

/// The keys of a sequence of entries, as characters.
pub open spec fn entry_keys<V>(es: Seq<(String, V)>) -> Seq<Seq<char>> {
    es.map_values(|e: (String, V)| e.0@)
}

/// The map that a list of entries with distinct keys spells.
pub closed spec fn entries_map<V>(es: Seq<(String, V)>) -> Map<Seq<char>, V> {
    Map::new(
        |k: Seq<char>| entry_keys(es).contains(k),
        |k: Seq<char>| es[choose|i: int| 0 <= i < es.len() && #[trigger] es[i].0@ == k].1,
    )
}

proof fn lemma_entries_map_drop_last<V>(es: Seq<(String, V)>)
    requires
        es.len() > 0,
        entry_keys(es).no_duplicates(),
    ensures
        entry_keys(es.drop_last()).no_duplicates(),
        !entries_map(es.drop_last()).contains_key(es.last().0@),
        entries_map(es) == entries_map(es.drop_last()).insert(es.last().0@, es.last().1),
{
    let d = es.drop_last();
    let n = es.len() - 1;
    assert(entry_keys(d) =~= entry_keys(es).drop_last());
    assert forall|a: int, b: int| 0 <= a < b < entry_keys(d).len() implies entry_keys(d)[a] != entry_keys(d)[b] by {
        assert(entry_keys(d)[a] == entry_keys(es)[a] && entry_keys(d)[b] == entry_keys(es)[b]);
    }
    if entry_keys(d).contains(es.last().0@) {
        let j = choose|j: int| 0 <= j < entry_keys(d).len() && entry_keys(d)[j] == es.last().0@;
        assert(entry_keys(es)[j] == entry_keys(es)[n]);
    }
    let m1 = entries_map(es);
    let m2 = entries_map(d).insert(es.last().0@, es.last().1);
    assert forall|k: Seq<char>| #[trigger] m1.contains_key(k) <==> m2.contains_key(k) by {
        if entry_keys(es).contains(k) {
            let j = choose|j: int| 0 <= j < entry_keys(es).len() && entry_keys(es)[j] == k;
            if j < n {
                assert(entry_keys(d)[j] == k);
            }
        }
        if entry_keys(d).contains(k) {
            let j = choose|j: int| 0 <= j < entry_keys(d).len() && entry_keys(d)[j] == k;
            assert(entry_keys(es)[j] == k);
        }
        if k == es.last().0@ {
            assert(entry_keys(es)[n] == k);
        }
    }
    assert forall|k: Seq<char>| m1.contains_key(k) implies #[trigger] m1[k] == m2[k] by {
        let i = choose|i: int| 0 <= i < es.len() && #[trigger] es[i].0@ == k;
        assert(entry_keys(es)[i] == k);
        if k == es.last().0@ {
            assert(entry_keys(es)[n] == k);
            assert(i == n);
        } else {
            let i2 = choose|i: int| 0 <= i < d.len() && #[trigger] d[i].0@ == k;
            assert(entry_keys(es).contains(k));
            assert(i != n);
            assert(d[i].0@ == k);
            assert(entry_keys(es)[i2] == entry_keys(es)[i]);
        }
    }
    assert(m1 =~= m2);
}

impl<V> StrMap<V> {
    /// Well-formedness: no name occurs twice.
    pub closed spec fn wf(self) -> bool {
        entry_keys(self.entries@).no_duplicates()
    }

    /// The map from names to values.
    pub closed spec fn view_map(self) -> Map<Seq<char>, V> {
        entries_map(self.entries@)
    }

    /// An empty map.
    pub fn new() -> (m: StrMap<V>)
        ensures
            m.wf(),
            m.view_map() == Map::<Seq<char>, V>::empty(),
    {
        let m = StrMap { entries: Vec::new() };
        assert(m.view_map() =~= Map::<Seq<char>, V>::empty());
        m
    }

    fn position(&self, name: &str) -> (r: Option<usize>)
        ensures
            r matches Some(i) ==> i < self.entries@.len() && self.entries@[i as int].0@ == name@,
            r is None ==> !entry_keys(self.entries@).contains(name@),
    {
        let mut k: usize = 0;
        while k < self.entries.len()
            invariant
                k <= self.entries@.len(),
                forall|j: int| 0 <= j < k ==> self.entries@[j].0@ != name@,
            decreases self.entries.len() - k,
        {
            if str_equal(self.entries[k].0.as_str(), name) {
                return Some(k);
            }
            k = k + 1;
        }
        proof {
            if entry_keys(self.entries@).contains(name@) {
                let j = choose|j: int| 0 <= j < entry_keys(self.entries@).len() && entry_keys(self.entries@)[j] == name@;
                assert(self.entries@[j].0@ == name@);
            }
        }
        None
    }

    /// The value of `name`, if present.
    pub fn get(&self, name: &str) -> (r: Option<&V>)
        requires
            self.wf(),
        ensures
            r matches Some(v) ==> self.view_map().contains_key(name@) && *v == self.view_map()[name@],
            r is None ==> !self.view_map().contains_key(name@),
    {
        match self.position(name) {
            Some(i) => {
                proof {
                    let es = self.entries@;
                    assert(entry_keys(es)[i as int] == name@);
                    let j = choose|j: int| 0 <= j < es.len() && #[trigger] es[j].0@ == name@;
                    if j != i {
                        assert(entry_keys(es)[j] == entry_keys(es)[i as int]);
                    }
                }
                Some(&self.entries[i].1)
            },
            None => None,
        }
    }

    /// Sets `name` to `value`, replacing any previous value; returns the
    /// previous value.
    pub fn insert(&mut self, name: String, value: V) -> (old_value: Option<V>)
        requires
            old(self).wf(),
        ensures
            final(self).wf(),
            final(self).view_map() == old(self).view_map().insert(name@, value),
            old_value matches Some(v) ==> old(self).view_map().contains_key(name@) && v
                == old(self).view_map()[name@],
            old_value is None ==> !old(self).view_map().contains_key(name@),
    {
        let ghost old_es = self.entries@;
        match self.position(name.as_str()) {
            Some(i) => {
                let ghost pre_map = self.view_map();
                let mut es = Vec::new();
                std::mem::swap(&mut es, &mut self.entries);
                let (_, previous) = es.remove(i);
                es.insert(i, (name, value));
                proof {
                    assert(es@ =~= old_es.update(i as int, es@[i as int]));
                    assert(entry_keys(es@) =~= entry_keys(old_es).update(i as int, es@[i as int].0@));
                    assert(entry_keys(es@) =~= entry_keys(old_es));
                }
                self.entries = es;
                proof {
                    let new_map = self.view_map();
                    let es2 = self.entries@;
                    assert(entry_keys(old_es)[i as int] == es2[i as int].0@);
                    let j0 = choose|j: int| 0 <= j < old_es.len() && #[trigger] old_es[j].0@ == es2[i as int].0@;
                    if j0 != i {
                        assert(entry_keys(old_es)[j0] == entry_keys(old_es)[i as int]);
                    }
                    assert forall|k: Seq<char>| new_map.contains_key(k) implies new_map[k] == pre_map.insert(es2[i as int].0@, es2[i as int].1)[k] by {
                        let jn = choose|j: int| 0 <= j < es2.len() && #[trigger] es2[j].0@ == k;
                        let ko = choose|j: int| 0 <= j < entry_keys(es2).len() && entry_keys(es2)[j] == k;
                        assert(es2[ko].0@ == k);
                        if k != es2[i as int].0@ {
                            let jo = choose|j: int| 0 <= j < old_es.len() && #[trigger] old_es[j].0@ == k;
                            assert(es2[ko] == old_es[ko]);
                            if jn != jo {
                                assert(entry_keys(es2)[jn] == entry_keys(es2)[jo]);
                            }
                        } else {
                            if jn != i {
                                assert(entry_keys(es2)[jn] == entry_keys(es2)[i as int]);
                            }
                        }
                    }
                    assert(new_map =~= pre_map.insert(es2[i as int].0@, es2[i as int].1));
                }
                Some(previous)
            },
            None => {
                let ghost pre_map = self.view_map();
                let ghost nk = name@;
                let ghost nv = value;
                let mut es = Vec::new();
                std::mem::swap(&mut es, &mut self.entries);
                es.push((name, value));
                self.entries = es;
                proof {
                    let es2 = self.entries@;
                    assert(entry_keys(es2) =~= entry_keys(old_es).push(nk));
                    assert forall|a: int, b: int| 0 <= a < b < entry_keys(es2).len() implies entry_keys(es2)[a] != entry_keys(es2)[b] by {
                        if b == old_es.len() {
                            assert(entry_keys(old_es)[a] == entry_keys(es2)[a]);
                        } else {
                            assert(entry_keys(old_es)[a] == entry_keys(es2)[a]);
                            assert(entry_keys(old_es)[b] == entry_keys(es2)[b]);
                        }
                    }
                    let new_map = self.view_map();
                    assert forall|k: Seq<char>| new_map.contains_key(k) implies new_map[k] == pre_map.insert(nk, nv)[k] by {
                        let jn = choose|j: int| 0 <= j < es2.len() && #[trigger] es2[j].0@ == k;
                        if k == nk {
                            if jn != old_es.len() {
                                assert(entry_keys(es2)[jn] == entry_keys(es2)[old_es.len() as int]);
                            }
                        } else {
                            assert(jn < old_es.len());
                            assert(entry_keys(old_es)[jn] == k);
                            let jo = choose|j: int| 0 <= j < old_es.len() && #[trigger] old_es[j].0@ == k;
                            if jn != jo {
                                assert(entry_keys(old_es)[jn] == entry_keys(old_es)[jo]);
                            }
                        }
                    }
                    assert forall|k: Seq<char>| pre_map.insert(nk, nv).contains_key(k) implies new_map.contains_key(k) by {
                        if k != nk {
                            let jo = choose|j: int| 0 <= j < entry_keys(old_es).len() && entry_keys(old_es)[j] == k;
                            assert(entry_keys(es2)[jo] == k);
                        } else {
                            assert(entry_keys(es2)[old_es.len() as int] == k);
                        }
                    }
                    assert(new_map =~= pre_map.insert(nk, nv));
                }
                None
            },
        }
    }

    /// Whether `name` has a value.
    pub fn contains_key(&self, name: &str) -> (r: bool)
        ensures
            r == self.view_map().contains_key(name@),
    {
        match self.position(name) {
            Some(i) => {
                assert(entry_keys(self.entries@)[i as int] == name@);
                true
            },
            None => false,
        }
    }

    /// The entries in insertion order, keys as characters.
    pub closed spec fn pairs(self) -> Seq<(Seq<char>, V)> {
        self.entries@.map_values(|e: (String, V)| (e.0@, e.1))
    }

    /// The entries in insertion order.
    pub fn entries(&self) -> (r: &Vec<(String, V)>)
        ensures
            r@.map_values(|e: (String, V)| (e.0@, e.1)) == self.pairs(),
    {
        &self.entries
    }

    /// Every pair lists a key of the map with its value, and every key of the
    /// map is listed once.
    pub proof fn lemma_pairs(self)
        requires
            self.wf(),
        ensures
            self.pairs().len() == self.view_map().len(),
            forall|i: int| 0 <= i < self.pairs().len() ==> self.view_map().contains_key(#[trigger] self.pairs()[i].0)
                && self.view_map()[self.pairs()[i].0] == self.pairs()[i].1,
            forall|i: int, j: int|
                0 <= i < j < self.pairs().len() ==> #[trigger] self.pairs()[i].0 != #[trigger] self.pairs()[j].0,
    {
        self.lemma_len();
        let es = self.entries@;
        assert forall|i: int, j: int| 0 <= i < j < self.pairs().len() implies #[trigger] self.pairs()[i].0
            != #[trigger] self.pairs()[j].0 by {
            assert(entry_keys(es)[i] == es[i].0@);
            assert(entry_keys(es)[j] == es[j].0@);
        }
        assert forall|i: int| 0 <= i < self.pairs().len() implies self.view_map().contains_key(#[trigger] self.pairs()[i].0)
            && self.view_map()[self.pairs()[i].0] == self.pairs()[i].1 by {
            assert(entry_keys(es)[i] == es[i].0@);
            let j = choose|j: int| 0 <= j < es.len() && #[trigger] es[j].0@ == es[i].0@;
            if j != i {
                assert(entry_keys(es)[j] == entry_keys(es)[i]);
            }
        }
    }

    /// Removes `name`, returning its value if it had one.
    pub fn remove(&mut self, name: &str) -> (r: Option<V>)
        requires
            old(self).wf(),
        ensures
            final(self).wf(),
            final(self).view_map() == old(self).view_map().remove(name@),
            r matches Some(v) ==> old(self).view_map().contains_key(name@) && v == old(self).view_map()[name@],
            r is None ==> !old(self).view_map().contains_key(name@),
    {
        let ghost old_es = self.entries@;
        let ghost pre_map = self.view_map();
        match self.position(name) {
            Some(i) => {
                let mut es = Vec::new();
                std::mem::swap(&mut es, &mut self.entries);
                let (_, v) = es.remove(i);
                self.entries = es;
                proof {
                    let es2 = self.entries@;
                    assert(es2 =~= old_es.remove(i as int));
                    assert(entry_keys(es2) =~= entry_keys(old_es).remove(i as int));
                    assert forall|a: int, b: int| 0 <= a < b < entry_keys(es2).len() implies entry_keys(es2)[a] != entry_keys(es2)[b] by {
                        let oa = if a < i { a } else { a + 1 };
                        let ob = if b < i { b } else { b + 1 };
                        assert(entry_keys(es2)[a] == entry_keys(old_es)[oa]);
                        assert(entry_keys(es2)[b] == entry_keys(old_es)[ob]);
                    }
                    let j0 = choose|j: int| 0 <= j < old_es.len() && #[trigger] old_es[j].0@ == name@;
                    if j0 != i {
                        assert(entry_keys(old_es)[j0] == entry_keys(old_es)[i as int]);
                    }
                    let new_map = self.view_map();
                    assert forall|k: Seq<char>| #[trigger] new_map.contains_key(k) implies pre_map.remove(name@).contains_key(k) && new_map[k] == pre_map.remove(name@)[k] by {
                        let jn = choose|j: int| 0 <= j < es2.len() && #[trigger] es2[j].0@ == k;
                        let on = if jn < i { jn } else { jn + 1 };
                        assert(es2[jn] == old_es[on]);
                        assert(entry_keys(old_es)[on] == k);
                        if k == name@ {
                            assert(entry_keys(old_es)[on] == entry_keys(old_es)[i as int]);
                        }
                        let jo = choose|j: int| 0 <= j < old_es.len() && #[trigger] old_es[j].0@ == k;
                        if jo != on {
                            assert(entry_keys(old_es)[jo] == entry_keys(old_es)[on]);
                        }
                    }
                    assert forall|k: Seq<char>| #[trigger] pre_map.remove(name@).contains_key(k) implies new_map.contains_key(k) by {
                        let jo = choose|j: int| 0 <= j < entry_keys(old_es).len() && entry_keys(old_es)[j] == k;
                        assert(jo != i);
                        let nj = if jo < i { jo } else { jo - 1 };
                        assert(entry_keys(es2)[nj] == k);
                    }
                    assert(new_map.dom() =~= pre_map.remove(name@).dom());
                    assert(new_map =~= pre_map.remove(name@));
                    assert(entry_keys(old_es)[i as int] == name@);
                }
                Some(v)
            },
            None => {
                assert(self.view_map() =~= pre_map.remove(name@));
                None
            },
        }
    }

    /// Whether the map is empty.
    pub fn is_empty(&self) -> (r: bool)
        requires
            self.wf(),
        ensures
            r == (self.view_map().len() == 0),
    {
        self.len() == 0
    }

    /// The number of names.
    pub fn len(&self) -> (n: usize)
        requires
            self.wf(),
        ensures
            n == self.view_map().len(),
    {
        proof {
            self.lemma_len();
        }
        self.entries.len()
    }

    /// Adds every entry of `other`, its value replacing the value of a key
    /// that both maps hold.
    pub fn merge(&mut self, other: StrMap<V>)
        requires
            old(self).wf(),
            other.wf(),
        ensures
            final(self).wf(),
            final(self).view_map() == old(self).view_map().union_prefer_right(other.view_map()),
    {
        let ghost target = old(self).view_map().union_prefer_right(other.view_map());
        let mut es = other.entries;
        while es.len() > 0
            invariant
                self.wf(),
                entry_keys(es@).no_duplicates(),
                self.view_map().union_prefer_right(entries_map(es@)) == target,
            decreases es.len(),
        {
            let ghost before = es@;
            proof {
                lemma_entries_map_drop_last(before);
            }
            let (k, v) = es.pop().unwrap();
            assert(es@ == before.drop_last());
            let ghost pre = self.view_map();
            let _ = self.insert(k, v);
            assert(self.view_map().union_prefer_right(entries_map(es@)) =~= pre.union_prefer_right(
                entries_map(before),
            ));
        }
        assert(entries_map(es@) =~= Map::<Seq<char>, V>::empty());
        assert(self.view_map().union_prefer_right(entries_map(es@)) =~= self.view_map());
    }

    /// A well-formed map has finitely many names.
    pub proof fn lemma_finite(self)
        requires
            self.wf(),
        ensures
            self.view_map().dom().finite(),
    {
        let ks = entry_keys(self.entries@);
        assert(self.view_map().dom() =~= ks.to_set());
    }

    proof fn lemma_len(self)
        requires
            entry_keys(self.entries@).no_duplicates(),
        ensures
            self.view_map().len() == self.entries@.len(),
    {
        let ks = entry_keys(self.entries@);
        ks.unique_seq_to_set();
        assert(self.view_map().dom() =~= ks.to_set());
    }
}

} // verus!
