//! A keyed table: an association list with unique keys, seen as a `Map`.
use vstd::prelude::*;
use crate::types::{same_bytes, SocietyId};

verus! {

/// A key that can be compared for equality of its view.
pub trait TableKey: View + Sized {
    fn same_key(&self, other: &Self) -> (r: bool)
        ensures
            r == (self@ == other@),
    ;
}

impl TableKey for u64 {
    fn same_key(&self, other: &u64) -> (r: bool) {
        *self == *other
    }
}

impl TableKey for SocietyId {
    fn same_key(&self, other: &SocietyId) -> (r: bool) {
        same_bytes(self, other)
    }
}

/// A finite map from keys to values, kept as a list of entries whose keys
/// are pairwise distinct.
///
/// The society state is keyed by byte strings and by pairs that hold one.
/// vstd's contracts for std's `HashMap` hold only for key types whose hashing
/// it models (integers, `bool`, and boxes of them), so for these keys they
/// would say nothing; the state keeps its maps here instead, where every
/// lookup and update is proved against the `Map` it represents.
pub struct Table<K, V> {
    entries: Vec<(K, V)>,
}

impl<K: TableKey, V> Table<K, V> {
    /// No two entries share a key.
    pub closed spec fn wf(&self) -> bool {
        forall|i: int, j: int|
            0 <= i < j < self.entries@.len() ==> #[trigger] self.entries@[i].0@
                != #[trigger] self.entries@[j].0@
    }

    /// Whether some entry has key `k`.
    pub closed spec fn has(&self, k: K::V) -> bool {
        exists|i: int| 0 <= i < self.entries@.len() && #[trigger] self.entries@[i].0@ == k
    }

    /// The position of the entry with key `k`.
    pub closed spec fn index_of(&self, k: K::V) -> int {
        choose|i: int| 0 <= i < self.entries@.len() && #[trigger] self.entries@[i].0@ == k
    }

    /// The map that the entries represent.
    pub closed spec fn map(&self) -> Map<K::V, V> {
        Map::new(|k: K::V| self.has(k), |k: K::V| self.entries@[self.index_of(k)].1)
    }

    proof fn lemma_index(&self, i: int)
        requires
            self.wf(),
            0 <= i < self.entries@.len(),
        ensures
            self.has(self.entries@[i].0@),
            self.index_of(self.entries@[i].0@) == i,
            self.map()[self.entries@[i].0@] == self.entries@[i].1,
    {
        let k = self.entries@[i].0@;
        assert(self.has(k));
        let j = self.index_of(k);
        if j != i {
            if j < i {
                assert(self.entries@[j].0@ != self.entries@[i].0@);
            } else {
                assert(self.entries@[i].0@ != self.entries@[j].0@);
            }
        }
    }

    /// An empty table.
    pub fn new() -> (r: Self)
        ensures
            r.wf(),
            r.map() == Map::<K::V, V>::empty(),
    {
        let r = Table { entries: Vec::new() };
        assert(r.map() =~= Map::<K::V, V>::empty());
        r
    }

    /// The position of the entry with key `k`, if any.
    fn find(&self, k: &K) -> (r: Option<usize>)
        requires
            self.wf(),
        ensures
            r is None <==> !self.has(k@),
            r matches Some(i) ==> i < self.entries@.len() && self.entries@[i as int].0@ == k@
                && self.map()[k@] == self.entries@[i as int].1,
    {
        let mut i: usize = 0;
        while i < self.entries.len()
            invariant
                self.wf(),
                i <= self.entries@.len(),
                forall|j: int| 0 <= j < i ==> #[trigger] self.entries@[j].0@ != k@,
            decreases self.entries@.len() - i,
        {
            if self.entries[i].0.same_key(k) {
                proof {
                    self.lemma_index(i as int);
                }
                return Some(i);
            }
            i = i + 1;
        }
        None
    }

    /// The value under key `k`, if any.
    pub fn get(&self, k: &K) -> (r: Option<&V>)
        requires
            self.wf(),
        ensures
            r is None <==> !self.map().contains_key(k@),
            r matches Some(v) ==> *v == self.map()[k@],
    {
        match self.find(k) {
            Some(i) => Some(&self.entries[i].1),
            None => None,
        }
    }

    /// Puts `v` under key `k`, replacing what was there.
    pub fn insert(&mut self, k: K, v: V)
        requires
            old(self).wf(),
        ensures
            final(self).wf(),
            final(self).map() == old(self).map().insert(k@, v),
    {
        let ghost kv = k@;
        let ghost old_entries = self.entries@;
        let found = self.find(&k);
        match found {
            Some(i) => {
                self.entries.set(i, (k, v));
                assert(self.entries@ == old_entries.update(i as int, (k, v)));
            },
            None => {
                self.entries.push((k, v));
                assert(self.entries@ == old_entries.push((k, v)));
            },
        }
        proof {
            let n = old_entries.len();
            assert forall|a: int, b: int| 0 <= a < b < self.entries@.len() implies
                #[trigger] self.entries@[a].0@ != #[trigger] self.entries@[b].0@ by {
                if found is None && b == n {
                    assert(old_entries[a].0@ != kv);
                }
                if let Some(i) = found {
                    if a == i {
                        assert(old_entries[a].0@ != old_entries[b].0@);
                    }
                    if b == i {
                        assert(old_entries[a].0@ != old_entries[b].0@);
                    }
                }
            }
            let new_map = old(self).map().insert(kv, v);
            assert forall|a: K::V| #[trigger] self.has(a) <==> new_map.contains_key(a) by {
                if a == kv {
                    if let Some(i) = found {
                        assert(self.entries@[i as int].0@ == a);
                    } else {
                        assert(self.entries@[n as int].0@ == a);
                    }
                } else {
                    if old(self).has(a) {
                        let j = old(self).index_of(a);
                        assert(self.entries@[j].0@ == a);
                    }
                    if self.has(a) {
                        let j = self.index_of(a);
                        assert(old_entries[j].0@ == a);
                    }
                }
            }
            assert forall|a: K::V| #[trigger] self.has(a) implies self.map()[a] == new_map[a] by {
                let j = self.index_of(a);
                self.lemma_index(j);
                if a != kv {
                    old(self).lemma_index(j);
                }
            }
            assert(self.map() =~= new_map);
        }
    }

    /// Removes the entry under key `k` and hands back its value, if any.
    pub fn take(&mut self, k: &K) -> (r: Option<V>)
        requires
            old(self).wf(),
        ensures
            final(self).wf(),
            final(self).map() == old(self).map().remove(k@),
            r is None <==> !old(self).map().contains_key(k@),
            r matches Some(v) ==> v == old(self).map()[k@],
    {
        match self.find(k) {
            Some(i) => {
                let e = self.entries.remove(i);
                proof {
                    let new_map = old(self).map().remove(k@);
                    assert forall|a: K::V| #[trigger] self.has(a) <==> new_map.contains_key(a) by {
                        if old(self).has(a) && a != k@ {
                            let j = old(self).index_of(a);
                            if j < i {
                                assert(self.entries@[j].0@ == a);
                            } else {
                                assert(self.entries@[j - 1].0@ == a);
                            }
                        }
                        if self.has(a) {
                            let j = self.index_of(a);
                            if j < i {
                                assert(old(self).entries@[j].0@ == a);
                            } else {
                                assert(old(self).entries@[j + 1].0@ == a);
                            }
                        }
                    }
                    assert forall|a: K::V| #[trigger] self.has(a) implies self.map()[a]
                        == new_map[a] by {
                        let j = self.index_of(a);
                        self.lemma_index(j);
                        if j < i {
                            old(self).lemma_index(j);
                        } else {
                            old(self).lemma_index(j + 1);
                        }
                    }
                    assert(self.map() =~= new_map);
                }
                Some(e.1)
            },
            None => {
                assert(old(self).map().remove(k@) =~= old(self).map());
                None
            },
        }
    }
}

impl<K: TableKey, V> Table<K, V> {
    /// The entries, in the order in which they are kept.
    pub closed spec fn entry_seq(&self) -> Seq<(K, V)> {
        self.entries@
    }

    /// The number of entries.
    pub fn len(&self) -> (r: usize)
        ensures
            r == self.entry_seq().len(),
    {
        self.entries.len()
    }

    /// The entry at position `i`.
    pub fn entry(&self, i: usize) -> (r: (&K, &V))
        requires
            self.wf(),
            i < self.entry_seq().len(),
        ensures
            *r.0 == self.entry_seq()[i as int].0,
            *r.1 == self.entry_seq()[i as int].1,
            self.map().contains_key(r.0@),
            self.map()[r.0@] == *r.1,
    {
        proof {
            self.lemma_index(i as int);
        }
        (&self.entries[i].0, &self.entries[i].1)
    }

    /// Every key of the map stands in some entry.
    pub proof fn lemma_key_in_entries(&self, k: K::V) -> (i: int)
        requires
            self.wf(),
            self.map().contains_key(k),
        ensures
            0 <= i < self.entry_seq().len(),
            self.entry_seq()[i].0@ == k,
            self.entry_seq()[i].1 == self.map()[k],
    {
        let i = self.index_of(k);
        self.lemma_index(i);
        i
    }
}

impl<K: TableKey, T> Table<K, Vec<T>> {
    /// The list under key `k`; a key without an entry holds the empty list.
    pub open spec fn list(&self, k: K::V) -> Seq<T> {
        if self.map().contains_key(k) {
            self.map()[k]@
        } else {
            Seq::empty()
        }
    }

    /// Appends `item` to the list under key `k`.
    pub fn append(&mut self, k: K, item: T)
        requires
            old(self).wf(),
        ensures
            final(self).wf(),
            final(self).list(k@) == old(self).list(k@).push(item),
            forall|j: K::V| j != k@ ==> #[trigger] final(self).list(j) == old(self).list(j),
    {
        let mut l = match self.take(&k) {
            Some(l) => l,
            None => Vec::new(),
        };
        l.push(item);
        self.insert(k, l);
    }

    /// The length of the list under key `k`.
    pub fn list_len(&self, k: &K) -> (r: usize)
        requires
            self.wf(),
        ensures
            r == self.list(k@).len(),
    {
        match self.get(k) {
            Some(l) => l.len(),
            None => 0,
        }
    }
}

} // verus!
