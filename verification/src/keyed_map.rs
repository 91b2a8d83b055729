use vstd::prelude::*;

verus! {

/// A key type whose executable comparison agrees with spec equality.
pub trait MapKey: Copy + Sized {
    fn same_key(&self, other: &Self) -> (same: bool)
        ensures
            same == (*self == *other),
    ;
}

impl MapKey for u64 {
    fn same_key(&self, other: &Self) -> (same: bool) {
        *self == *other
    }
}

/// A finite map kept as a list of entries in which no key occurs twice.
pub struct KeyedMap<K, V> {
    entries: Vec<(K, V)>,
}

impl<K, V> KeyedMap<K, V> {
    /// No key occurs at two positions of the entry list.
    #[verifier::type_invariant]
    pub closed spec fn distinct_keys(self) -> bool {
        forall|i: int, j: int|
            0 <= i < self.entries@.len() && 0 <= j < self.entries@.len() && i != j
                ==> #[trigger] self.entries@[i].0 != #[trigger] self.entries@[j].0
    }

    /// The keys in the order in which the entries are kept.
    pub closed spec fn key_seq(self) -> Seq<K> {
        self.entries@.map_values(|e: (K, V)| e.0)
    }

    spec fn has_at(self, k: K, i: int) -> bool {
        0 <= i < self.entries@.len() && self.entries@[i].0 == k
    }

    /// The map that the entries represent.
    pub closed spec fn as_map(self) -> Map<K, V> {
        Map::new(
            |k: K| exists|i: int| self.has_at(k, i),
            |k: K| self.entries@[choose|i: int| self.has_at(k, i)].1,
        )
    }

    proof fn lemma_entry(self, i: int)
        requires
            self.distinct_keys(),
            0 <= i < self.entries@.len(),
        ensures
            self.as_map().dom().contains(self.entries@[i].0),
            self.as_map()[self.entries@[i].0] == self.entries@[i].1,
    {
        let k = self.entries@[i].0;
        assert(self.has_at(k, i));
        let j = choose|j: int| self.has_at(k, j);
        assert(self.entries@[j].0 == self.entries@[i].0);
    }

    proof fn lemma_all_entries(self)
        requires
            self.distinct_keys(),
        ensures
            forall|i: int|
                0 <= i < self.entries@.len() ==> {
                    &&& self.as_map().dom().contains(#[trigger] self.entries@[i].0)
                    &&& self.as_map()[self.entries@[i].0] == self.entries@[i].1
                },
            forall|k: K|
                #[trigger] self.as_map().dom().contains(k) ==> exists|i: int|
                    0 <= i < self.entries@.len() && self.entries@[i].0 == k,
    {
        assert forall|i: int| 0 <= i < self.entries@.len() implies {
            &&& self.as_map().dom().contains(#[trigger] self.entries@[i].0)
            &&& self.as_map()[self.entries@[i].0] == self.entries@[i].1
        } by {
            self.lemma_entry(i);
        }
        assert forall|k: K| #[trigger] self.as_map().dom().contains(k) implies exists|i: int|
            0 <= i < self.entries@.len() && self.entries@[i].0 == k by {
            let i = choose|i: int| self.has_at(k, i);
        }
    }

}

impl<K: MapKey, V> KeyedMap<K, V> {
    /// An empty map.
    pub fn new() -> (map: Self)
        ensures
            map@ == Map::<K, V>::empty(),
    {
        let map = KeyedMap { entries: Vec::new() };
        assert(map.as_map() =~= Map::<K, V>::empty());
        map
    }

    fn find(&self, k: &K) -> (idx: Option<usize>)
        ensures
            match idx {
                Some(i) => i < self.entries@.len() && self.entries@[i as int].0 == *k,
                None => forall|i: int| 0 <= i < self.entries@.len() ==> self.entries@[i].0 != *k,
            },
    {
        let mut i: usize = 0;
        while i < self.entries.len()
            invariant
                0 <= i <= self.entries@.len(),
                forall|j: int| 0 <= j < i ==> self.entries@[j].0 != *k,
            decreases self.entries@.len() - i,
        {
            if self.entries[i].0.same_key(k) {
                return Some(i);
            }
            i = i + 1;
        }
        None
    }

    /// Whether `k` has an entry.
    pub fn contains_key(&self, k: &K) -> (found: bool)
        ensures
            found == self@.dom().contains(*k),
    {
        proof {
            use_type_invariant(self);
            self.lemma_all_entries();
        }
        self.find(k).is_some()
    }

    /// The value stored under `k`, if any.
    pub fn get(&self, k: &K) -> (value: Option<&V>)
        ensures
            match value {
                Some(v) => self@.dom().contains(*k) && *v == self@[*k],
                None => !self@.dom().contains(*k),
            },
    {
        proof {
            use_type_invariant(self);
            self.lemma_all_entries();
        }
        match self.find(k) {
            Some(i) => Some(&self.entries[i].1),
            None => None,
        }
    }

    /// Stores `v` under `k` and returns the value that was stored there before.
    pub fn insert(&mut self, k: K, v: V) -> (previous: Option<V>)
        ensures
            final(self)@ == old(self)@.insert(k, v),
            match previous {
                Some(p) => old(self)@.dom().contains(k) && p == old(self)@[k],
                None => !old(self)@.dom().contains(k),
            },
    {
        proof {
            use_type_invariant(&*self);
            self.lemma_all_entries();
        }
        let ghost before = *self;
        let found = self.find(&k);
        let mut entries: Vec<(K, V)> = Vec::new();
        std::mem::swap(&mut entries, &mut self.entries);
        let ghost old_entries = entries@;
        match found {
            None => {
                entries.push((k, v));
                self.entries = entries;
                proof {
                    let n = old_entries.len() as int;
                    assert(self.entries@ == old_entries.push((k, v)));
                    self.lemma_all_entries();
                    assert(self.has_at(k, n));
                    assert forall|key: K| #[trigger] self.as_map().dom().contains(key)
                        <==> before.as_map().insert(k, v).dom().contains(key) by {
                        if before.as_map().dom().contains(key) {
                            let j = choose|j: int| 0 <= j < old_entries.len() && old_entries[j].0 == key;
                            assert(self.has_at(key, j));
                        }
                        if self.as_map().dom().contains(key) && key != k {
                            let j = choose|j: int| 0 <= j < self.entries@.len() && self.entries@[j].0 == key;
                            assert(before.has_at(key, j));
                        }
                    }
                    assert forall|key: K| #[trigger] self.as_map().dom().contains(key)
                        implies self.as_map()[key] == before.as_map().insert(k, v)[key] by {
                        let j = choose|j: int| 0 <= j < self.entries@.len() && self.entries@[j].0 == key;
                        if j < n {
                            before.lemma_entry(j);
                        }
                    }
                    assert(self.as_map() =~= before.as_map().insert(k, v));
                }
                None
            },
            Some(i) => {
                let old_entry = entries.remove(i);
                entries.insert(i, (k, v));
                self.entries = entries;
                proof {
                    assert(self.entries@ =~= old_entries.update(i as int, (k, v)));
                    self.lemma_all_entries();
                    before.lemma_entry(i as int);
                    assert forall|key: K| #[trigger] self.as_map().dom().contains(key)
                        <==> before.as_map().insert(k, v).dom().contains(key) by {
                        assert(self.has_at(k, i as int));
                        if before.as_map().dom().contains(key) {
                            let j = choose|j: int| 0 <= j < old_entries.len() && old_entries[j].0 == key;
                            if j != i {
                                assert(self.has_at(key, j));
                            }
                        }
                        if self.as_map().dom().contains(key) {
                            let j = choose|j: int| 0 <= j < self.entries@.len() && self.entries@[j].0 == key;
                            if j != i {
                                assert(before.has_at(key, j));
                            }
                        }
                    }
                    assert forall|key: K| #[trigger] self.as_map().dom().contains(key)
                        implies self.as_map()[key] == before.as_map().insert(k, v)[key] by {
                        let j = choose|j: int| 0 <= j < self.entries@.len() && self.entries@[j].0 == key;
                        if j != i {
                            assert(old_entries[j] == self.entries@[j]);
                        }
                    }
                    assert(self.as_map() =~= before.as_map().insert(k, v));
                }
                Some(old_entry.1)
            },
        }
    }

    /// Removes the entry of `k` and returns its value.
    pub fn remove(&mut self, k: &K) -> (removed: Option<V>)
        ensures
            final(self)@ == old(self)@.remove(*k),
            match removed {
                Some(p) => old(self)@.dom().contains(*k) && p == old(self)@[*k],
                None => !old(self)@.dom().contains(*k),
            },
    {
        proof {
            use_type_invariant(&*self);
            self.lemma_all_entries();
        }
        let ghost before = *self;
        match self.find(k) {
            None => {
                proof {
                    assert(self.as_map() =~= before.as_map().remove(*k));
                }
                None
            },
            Some(i) => {
                let mut entries: Vec<(K, V)> = Vec::new();
                std::mem::swap(&mut entries, &mut self.entries);
                let ghost old_entries = entries@;
                let old_entry = entries.remove(i);
                self.entries = entries;
                proof {
                    before.lemma_entry(i as int);
                    self.lemma_all_entries();
                    assert forall|j: int| 0 <= j < self.entries@.len() implies #[trigger] self.entries@[j]
                        == (if j < i { old_entries[j] } else { old_entries[j + 1] }) by {}
                    assert forall|key: K| #[trigger] self.as_map().dom().contains(key)
                        <==> before.as_map().remove(*k).dom().contains(key) by {
                        if before.as_map().dom().contains(key) && key != *k {
                            let j = choose|j: int| 0 <= j < old_entries.len() && old_entries[j].0 == key;
                            if j < i {
                                assert(self.entries@[j].0 == key);
                            } else {
                                assert(self.entries@[j - 1].0 == key);
                            }
                        }
                        if self.as_map().dom().contains(key) {
                            let j = choose|j: int| 0 <= j < self.entries@.len() && self.entries@[j].0 == key;
                            if j < i {
                                assert(old_entries[j].0 == key);
                            } else {
                                assert(old_entries[j + 1].0 == key);
                            }
                        }
                    }
                    assert forall|key: K| #[trigger] self.as_map().dom().contains(key)
                        implies self.as_map()[key] == before.as_map()[key] by {
                        let j = choose|j: int| 0 <= j < self.entries@.len() && self.entries@[j].0 == key;
                        if j < i {
                            before.lemma_entry(j);
                        } else {
                            before.lemma_entry(j + 1);
                        }
                    }
                    assert(self.as_map() =~= before.as_map().remove(*k));
                }
                Some(old_entry.1)
            },
        }
    }

    /// The number of entries; the keys, in entry order, are exactly the
    /// map's domain, each once.
    pub fn entry_count(&self) -> (n: usize)
        ensures
            n == self.key_seq().len(),
            self.key_seq().no_duplicates(),
            forall|k: K| self@.dom().contains(k) <==> #[trigger] self.key_seq().contains(k),
    {
        proof {
            use_type_invariant(self);
            self.lemma_all_entries();
            assert forall|k: K| self@.dom().contains(k) <==> #[trigger] self.key_seq().contains(k) by {
                if self@.dom().contains(k) {
                    let i = choose|i: int| 0 <= i < self.entries@.len() && self.entries@[i].0 == k;
                    assert(self.key_seq()[i] == k);
                }
                if self.key_seq().contains(k) {
                    let i = choose|i: int| 0 <= i < self.key_seq().len() && self.key_seq()[i] == k;
                    assert(self.entries@[i].0 == k);
                }
            }
        }
        self.entries.len()
    }

    /// The entry at position `i` of the entry list.
    pub fn entry_at(&self, i: usize) -> (entry: (&K, &V))
        requires
            i < self.key_seq().len(),
        ensures
            *entry.0 == self.key_seq()[i as int],
            self@.dom().contains(*entry.0),
            self@[*entry.0] == *entry.1,
    {
        proof {
            use_type_invariant(self);
            self.lemma_entry(i as int);
        }
        let e = &self.entries[i];
        (&e.0, &e.1)
    }

    /// The keys in entry order.
    pub fn keys(&self) -> (keys: Vec<K>)
        ensures
            keys@ == self.key_seq(),
    {
        let mut keys: Vec<K> = Vec::new();
        let mut i: usize = 0;
        while i < self.entries.len()
            invariant
                0 <= i <= self.entries@.len(),
                keys@ == self.key_seq().take(i as int),
            decreases self.entries@.len() - i,
        {
            keys.push(self.entries[i].0);
            proof {
                assert(self.key_seq().take(i + 1) =~= self.key_seq().take(i as int).push(self.entries@[i as int].0));
            }
            i = i + 1;
        }
        proof {
            assert(self.key_seq().take(i as int) =~= self.key_seq());
        }
        keys
    }
}

impl<K, V> View for KeyedMap<K, V> {
    type V = Map<K, V>;

    open spec fn view(&self) -> Map<K, V> {
        self.as_map()
    }
}

} // verus!
