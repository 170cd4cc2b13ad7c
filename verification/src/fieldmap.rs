//! A map keyed by field elements, kept as a list of entries in which no key
//! occurs twice.

use vstd::prelude::*;
use crate::field::Field;

verus! {

/// A finite map from field elements to values.
pub struct FieldMap<V> {
    pub entries: Vec<(Field, V)>,
}

impl<V> FieldMap<V> {
    /// No key occurs twice.
    pub open spec fn wf(&self) -> bool {
        forall|i: int, j: int|
            0 <= i < j < self.entries@.len() ==> (#[trigger] self.entries@[i]).0 != (
            #[trigger] self.entries@[j]).0
    }

    /// Whether the entry at `i` has the key `k`.
    pub open spec fn holds_at(&self, k: Field, i: int) -> bool {
        0 <= i < self.entries@.len() && self.entries@[i].0 == k
    }

    /// The map that the entries spell.
    pub open spec fn view(&self) -> Map<Field, V> {
        Map::new(
            |k: Field| exists|i: int| self.holds_at(k, i),
            |k: Field| self.entries@[choose|i: int| self.holds_at(k, i)].1,
        )
    }

    /// The entry at `i` is what the map holds under its key.
    pub proof fn lemma_entry(&self, i: int)
        requires
            self.wf(),
            0 <= i < self.entries@.len(),
        ensures
            self@.dom().contains(self.entries@[i].0),
            self@[self.entries@[i].0] == self.entries@[i].1,
    {
        let k = self.entries@[i].0;
        assert(self.holds_at(k, i));
        let c = choose|c: int| self.holds_at(k, c);
        assert(self.holds_at(k, c));
        if c < i {
            assert(self.entries@[c].0 != self.entries@[i].0);
        } else if i < c {
            assert(self.entries@[i].0 != self.entries@[c].0);
        }
    }

    /// The empty map.
    pub fn new() -> (r: Self)
        ensures
            r.wf(),
            r@ == Map::<Field, V>::empty(),
    {
        let r = FieldMap { entries: Vec::new() };
        assert(forall|k: Field, i: int| !r.holds_at(k, i));
        assert(r@ =~= Map::<Field, V>::empty());
        r
    }

    /// The number of keys.
    pub fn len(&self) -> (r: usize)
        ensures
            r == self.entries@.len(),
    {
        self.entries.len()
    }

    /// The position of the entry with key `k`, if there is one.
    pub fn index_of(&self, k: &Field) -> (r: Option<usize>)
        ensures
            match r {
                Some(i) => self.holds_at(*k, i as int),
                None => !self@.dom().contains(*k),
            },
    {
        let n: usize = self.entries.len();
        let mut i: usize = 0;
        while i < n
            invariant
                i <= n,
                n == self.entries@.len(),
                forall|j: int| 0 <= j < i ==> !self.holds_at(*k, j),
            decreases n - i,
        {
            if self.entries[i].0 == *k {
                return Some(i);
            }
            i = i + 1;
        }
        assert(forall|j: int| !self.holds_at(*k, j));
        None
    }

    /// Whether the map holds a value under `k`.
    pub fn contains_key(&self, k: &Field) -> (r: bool)
        ensures
            r == self@.dom().contains(*k),
    {
        match self.index_of(k) {
            Some(i) => {
                assert(self.holds_at(*k, i as int));
                true
            },
            None => false,
        }
    }

    /// The value under `k`, if there is one.
    pub fn get(&self, k: &Field) -> (r: Option<&V>)
        requires
            self.wf(),
        ensures
            match r {
                Some(v) => self@.dom().contains(*k) && *v == self@[*k],
                None => !self@.dom().contains(*k),
            },
    {
        match self.index_of(k) {
            Some(i) => {
                proof {
                    self.lemma_entry(i as int);
                }
                Some(&self.entries[i].1)
            },
            None => None,
        }
    }

    /// Puts `v` under `k`, in place of what was there.
    pub fn insert(&mut self, k: Field, v: V)
        requires
            old(self).wf(),
        ensures
            final(self).wf(),
            final(self)@ == old(self)@.insert(k, v),
    {
        let ghost before = *self;
        match self.index_of(&k) {
            Some(i) => {
                self.entries.set(i, (k, v));
                proof {
                    assert(self.entries@ == before.entries@.update(i as int, (k, v)));
                    assert forall|a: int, b: int| 0 <= a < b < self.entries@.len() implies (
                    #[trigger] self.entries@[a]).0 != (#[trigger] self.entries@[b]).0 by {
                        assert(before.entries@[a].0 != before.entries@[b].0);
                    }
                    assert forall|q: Field| #[trigger]
                        self@.dom().contains(q) == before@.insert(k, v).dom().contains(q) by {
                        if self@.dom().contains(q) {
                            let c = choose|c: int| self.holds_at(q, c);
                            assert(self.holds_at(q, c));
                            assert(before.holds_at(q, c));
                        }
                        if before@.dom().contains(q) {
                            let c = choose|c: int| before.holds_at(q, c);
                            assert(before.holds_at(q, c));
                            assert(self.holds_at(q, c));
                        }
                        if q == k {
                            assert(self.holds_at(q, i as int));
                        }
                    }
                    assert forall|q: Field| #[trigger]
                        self@.dom().contains(q) implies self@[q] == before@.insert(k, v)[q] by {
                        let c = choose|c: int| self.holds_at(q, c);
                        assert(self.holds_at(q, c));
                        self.lemma_entry(c);
                        if q != k {
                            assert(before.holds_at(q, c));
                            before.lemma_entry(c);
                        } else {
                            self.lemma_entry(i as int);
                        }
                    }
                    assert(self@ =~= before@.insert(k, v));
                }
            },
            None => {
                self.entries.push((k, v));
                proof {
                    let n = before.entries@.len() as int;
                    assert(self.entries@ == before.entries@.push((k, v)));
                    assert forall|a: int, b: int| 0 <= a < b < self.entries@.len() implies (
                    #[trigger] self.entries@[a]).0 != (#[trigger] self.entries@[b]).0 by {
                        if b < n {
                            assert(before.entries@[a].0 != before.entries@[b].0);
                        } else {
                            assert(!before.holds_at(k, a));
                        }
                    }
                    assert forall|q: Field| #[trigger]
                        self@.dom().contains(q) == before@.insert(k, v).dom().contains(q) by {
                        if self@.dom().contains(q) {
                            let c = choose|c: int| self.holds_at(q, c);
                            assert(self.holds_at(q, c));
                            if c < n {
                                assert(before.holds_at(q, c));
                            }
                        }
                        if before@.dom().contains(q) {
                            let c = choose|c: int| before.holds_at(q, c);
                            assert(before.holds_at(q, c));
                            assert(self.holds_at(q, c));
                        }
                        if q == k {
                            assert(self.holds_at(q, n));
                        }
                    }
                    assert forall|q: Field| #[trigger]
                        self@.dom().contains(q) implies self@[q] == before@.insert(k, v)[q] by {
                        let c = choose|c: int| self.holds_at(q, c);
                        assert(self.holds_at(q, c));
                        self.lemma_entry(c);
                        if q != k {
                            assert(before.holds_at(q, c));
                            before.lemma_entry(c);
                        } else {
                            self.lemma_entry(n);
                        }
                    }
                    assert(self@ =~= before@.insert(k, v));
                }
            },
        }
    }
}

} // verus!
