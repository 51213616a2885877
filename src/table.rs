//! A map keyed by strings, kept as two parallel vectors with distinct keys.
use vstd::prelude::*;

verus! {

/// Entries in insertion order; no key appears twice.
pub struct Table<V> {
    keys: Vec<String>,
    vals: Vec<V>,
}

impl<V> Table<V> {
    /// The keys are as many as the values, and pairwise distinct.
    pub closed spec fn wf(&self) -> bool {
        &&& self.keys@.len() == self.vals@.len()
        &&& forall|i: int, j: int|
            0 <= i < j < self.keys@.len() ==> (#[trigger] self.keys@[i])@ != (#[trigger] self.keys@[j])@
    }

    /// The number of entries.
    pub closed spec fn size(&self) -> nat {
        self.keys@.len()
    }

    /// The key of the `i`-th entry.
    pub closed spec fn key_at(&self, i: int) -> Seq<char> {
        self.keys@[i]@
    }

    /// The value of the `i`-th entry.
    pub closed spec fn val_at(&self, i: int) -> V {
        self.vals@[i]
    }

    /// The index of the entry with key `k`, if there is one.
    pub closed spec fn index_of(&self, k: Seq<char>) -> int {
        choose|i: int| 0 <= i < self.keys@.len() && self.keys@[i]@ == k
    }

    pub closed spec fn view(&self) -> Map<Seq<char>, V> {
        Map::new(
            |k: Seq<char>| exists|i: int| 0 <= i < self.keys@.len() && self.keys@[i]@ == k,
            |k: Seq<char>| self.vals@[self.index_of(k)],
        )
    }

    /// The entry at index `i` is the map's entry for its key.
    pub proof fn lemma_entry(&self, i: int)
        requires
            self.wf(),
            0 <= i < self.size(),
        ensures
            self@.contains_key(self.key_at(i)),
            self@[self.key_at(i)] == self.val_at(i),
            self.index_of(self.key_at(i)) == i,
    {
        let k = self.keys@[i]@;
        assert(exists|j: int| 0 <= j < self.keys@.len() && self.keys@[j]@ == k) by {
            assert(self.keys@[i]@ == k);
        }
        let j = self.index_of(k);
        if j != i {
            if j < i {
                assert(self.keys@[j]@ != self.keys@[i]@);
            } else {
                assert(self.keys@[i]@ != self.keys@[j]@);
            }
        }
    }

    /// Every key of the map is the key of one of the entries.
    pub proof fn lemma_key(&self, k: Seq<char>)
        requires
            self.wf(),
            self@.contains_key(k),
        ensures
            0 <= self.index_of(k) < self.size(),
            self.key_at(self.index_of(k)) == k,
    {
    }

    /// The map has as many keys as there are entries.
    pub proof fn lemma_len(&self)
        requires
            self.wf(),
        ensures
            self@.dom().finite(),
            self@.len() == self.size(),
    {
        let ks = self.keys@.map_values(|s: String| s@);
        assert(ks.no_duplicates()) by {
            assert forall|i: int, j: int| 0 <= i < ks.len() && 0 <= j < ks.len() && i != j
                implies ks[i] != ks[j] by {
                if i < j {
                    assert(self.keys@[i]@ != self.keys@[j]@);
                } else {
                    assert(self.keys@[j]@ != self.keys@[i]@);
                }
            }
        }
        assert(self@.dom() =~= ks.to_set()) by {
            assert forall|k: Seq<char>| self@.dom().contains(k) implies ks.to_set().contains(k) by {
                let i = self.index_of(k);
                assert(ks[i] == k);
            }
            assert forall|k: Seq<char>| ks.to_set().contains(k) implies self@.dom().contains(k) by {
                let i = choose|i: int| 0 <= i < ks.len() && ks[i] == k;
                assert(self.keys@[i]@ == k);
            }
        }
        ks.unique_seq_to_set();
    }

    /// The keys of the first `i` entries.
    pub closed spec fn keys_before(&self, i: int) -> Set<Seq<char>> {
        Set::new(|u: Seq<char>| exists|q: int| 0 <= q < i && self.keys@[q]@ == u)
    }

    pub proof fn lemma_keys_before_step(&self, i: int)
        requires
            self.wf(),
            0 <= i < self.size(),
        ensures
            self.keys_before(i + 1) == self.keys_before(i).insert(self.key_at(i)),
            !self.keys_before(i).contains(self.key_at(i)),
    {
        assert(self.keys_before(i + 1) =~= self.keys_before(i).insert(self.key_at(i)));
        if self.keys_before(i).contains(self.key_at(i)) {
            let q = choose|q: int| 0 <= q < i && self.keys@[q]@ == self.key_at(i);
            assert(self.keys@[q]@ != self.keys@[i]@);
        }
    }

    pub proof fn lemma_keys_before_ends(&self)
        requires
            self.wf(),
        ensures
            self.keys_before(0) == Set::<Seq<char>>::empty(),
            self.keys_before(self.size() as int) == self@.dom(),
    {
        assert(self.keys_before(0) =~= Set::<Seq<char>>::empty());
        assert forall|u: Seq<char>| self@.dom().contains(u) implies #[trigger] self.keys_before(
            self.size() as int,
        ).contains(u) by {
            self.lemma_key(u);
        }
        assert forall|u: Seq<char>| #[trigger] self.keys_before(self.size() as int).contains(u)
            implies self@.dom().contains(u) by {
            let q = choose|q: int| 0 <= q < self.size() && self.keys@[q]@ == u;
            self.lemma_entry(q);
        }
        assert(self.keys_before(self.size() as int) =~= self@.dom());
    }

    pub fn new() -> (r: Self)
        ensures
            r.wf(),
            r@ == Map::<Seq<char>, V>::empty(),
            r.size() == 0,
    {
        let r = Table { keys: Vec::new(), vals: Vec::new() };
        assert(r@ =~= Map::<Seq<char>, V>::empty());
        r
    }

    pub fn len(&self) -> (r: usize)
        requires
            self.wf(),
        ensures
            r == self.size(),
            r == self@.len(),
    {
        proof {
            self.lemma_len();
        }
        self.keys.len()
    }

    /// The key of the `i`-th entry.
    pub fn key(&self, i: usize) -> (r: &String)
        requires
            self.wf(),
            i < self.size(),
        ensures
            r@ == self.key_at(i as int),
    {
        &self.keys[i]
    }

    /// The value of the `i`-th entry.
    pub fn value(&self, i: usize) -> (r: &V)
        requires
            self.wf(),
            i < self.size(),
        ensures
            *r == self.val_at(i as int),
    {
        &self.vals[i]
    }

    /// The index of the entry with key `k`, or `None` where `k` is no key.
    pub fn find(&self, k: &String) -> (r: Option<usize>)
        requires
            self.wf(),
        ensures
            match r {
                Some(i) => i < self.size() && self.key_at(i as int) == k@ && self@.contains_key(k@),
                None => !self@.contains_key(k@),
            },
    {
        let mut i: usize = 0;
        while i < self.keys.len()
            invariant
                self.wf(),
                i <= self.keys@.len(),
                forall|j: int| 0 <= j < i ==> self.keys@[j]@ != k@,
            decreases self.keys@.len() - i,
        {
            if self.keys[i] == *k {
                proof {
                    self.lemma_entry(i as int);
                }
                return Some(i);
            }
            i = i + 1;
        }
        None
    }

    /// The value stored under `k`.
    pub fn get(&self, k: &String) -> (r: Option<&V>)
        requires
            self.wf(),
        ensures
            match r {
                Some(v) => self@.contains_key(k@) && *v == self@[k@],
                None => !self@.contains_key(k@),
            },
    {
        match self.find(k) {
            Some(i) => {
                proof {
                    self.lemma_entry(i as int);
                }
                Some(&self.vals[i])
            },
            None => None,
        }
    }

    /// Stores `v` under `k`, in place of any value stored there before.
    pub fn insert(&mut self, k: String, v: V)
        requires
            old(self).wf(),
        ensures
            final(self).wf(),
            final(self)@ == old(self)@.insert(k@, v),
    {
        let ghost pre = *self;
        match self.find(&k) {
            Some(i) => {
                proof {
                    pre.lemma_entry(i as int);
                }
                self.vals.set(i, v);
                assert(self.wf());
                assert forall|j: int| 0 <= j < self.size() implies #[trigger] self.keys@[j]@ == pre.keys@[j]@ by {}
                assert(self@ =~= pre@.insert(k@, v)) by {
                    assert forall|key: Seq<char>| #[trigger] self@.contains_key(key) implies
                        self@[key] == pre@.insert(k@, v)[key] by {
                        let j = self.index_of(key);
                        self.lemma_entry(j);
                        if j != i {
                            pre.lemma_entry(j);
                        }
                    }
                    assert forall|key: Seq<char>| #[trigger] pre@.insert(k@, v).contains_key(key)
                        implies self@.contains_key(key) by {
                        if key != k@ {
                            let j = pre.index_of(key);
                            assert(self.keys@[j]@ == key);
                        }
                    }
                }
            },
            None => {
                self.keys.push(k);
                self.vals.push(v);
                let n = self.keys.len() - 1;
                assert(self.wf()) by {
                    assert forall|a: int, b: int| 0 <= a < b < self.keys@.len() implies
                        (#[trigger] self.keys@[a])@ != (#[trigger] self.keys@[b])@ by {
                        if b == n {
                            assert(pre.keys@[a]@ == self.keys@[a]@);
                            if self.keys@[a]@ == k@ {
                                pre.lemma_entry(a);
                            }
                        } else {
                            assert(pre.keys@[a]@ != pre.keys@[b]@);
                        }
                    }
                }
                assert(self@ =~= pre@.insert(k@, v)) by {
                    assert forall|key: Seq<char>| #[trigger] self@.contains_key(key) implies
                        pre@.insert(k@, v).contains_key(key) && self@[key] == pre@.insert(k@, v)[key] by {
                        let j = self.index_of(key);
                        self.lemma_entry(j);
                        if j != n {
                            assert(pre.keys@[j]@ == key);
                            pre.lemma_entry(j);
                        }
                    }
                    assert forall|key: Seq<char>| #[trigger] pre@.insert(k@, v).contains_key(key)
                        implies self@.contains_key(key) by {
                        if key != k@ {
                            let j = pre.index_of(key);
                            assert(self.keys@[j]@ == key);
                        } else {
                            assert(self.keys@[n as int]@ == key);
                        }
                    }
                }
            },
        }
    }

    /// Takes out the entry stored under `k`, and returns its value.
    pub fn remove(&mut self, k: &String) -> (r: Option<V>)
        requires
            old(self).wf(),
        ensures
            final(self).wf(),
            final(self)@ == old(self)@.remove(k@),
            match r {
                Some(v) => old(self)@.contains_key(k@) && v == old(self)@[k@],
                None => !old(self)@.contains_key(k@),
            },
    {
        let ghost pre = *self;
        match self.find(k) {
            Some(i) => {
                proof {
                    pre.lemma_entry(i as int);
                }
                self.keys.remove(i);
                let v = self.vals.remove(i);
                assert forall|j: int| 0 <= j < self.size() implies #[trigger] self.keys@[j]@ == (if j < i {
                    pre.keys@[j]@
                } else {
                    pre.keys@[j + 1]@
                }) by {}
                assert(self.wf()) by {
                    assert forall|a: int, b: int| 0 <= a < b < self.keys@.len() implies
                        (#[trigger] self.keys@[a])@ != (#[trigger] self.keys@[b])@ by {
                        let pa = if a < i { a } else { a + 1 };
                        let pb = if b < i { b } else { b + 1 };
                        assert(pre.keys@[pa]@ != pre.keys@[pb]@);
                    }
                }
                assert(self@ =~= pre@.remove(k@)) by {
                    assert forall|key: Seq<char>| #[trigger] self@.contains_key(key) implies
                        pre@.remove(k@).contains_key(key) && self@[key] == pre@.remove(k@)[key] by {
                        let j = self.index_of(key);
                        self.lemma_entry(j);
                        let pj = if j < i { j } else { j + 1 };
                        assert(pre.keys@[pj]@ == key);
                        pre.lemma_entry(pj);
                        assert(pre.keys@[i as int]@ != pre.keys@[pj]@ || pj == i);
                    }
                    assert forall|key: Seq<char>| #[trigger] pre@.remove(k@).contains_key(key)
                        implies self@.contains_key(key) by {
                        let j = pre.index_of(key);
                        let sj = if j < i { j } else { j - 1 };
                        assert(self.keys@[sj]@ == key);
                    }
                }
                Some(v)
            },
            None => {
                assert(self@ =~= pre@.remove(k@));
                None
            },
        }
    }
}

} // verus!
