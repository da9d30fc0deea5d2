//! A finite map keyed by strings, kept as an association list in insertion
//! order. Inserting an existing key replaces its value in place.

use vstd::prelude::*;

verus! {

/// The keys of a list of entries, in order.
pub open spec fn entry_keys<V>(es: Seq<(String, V)>) -> Seq<Seq<char>> {
    es.map_values(|e: (String, V)| e.0@)
}

/// A map from strings to values of type `V`.
pub struct StrMap<V> {
    entries: Vec<(String, V)>,
    model: Ghost<Map<Seq<char>, V>>,
}

impl<V> StrMap<V> {
    /// The map as a mathematical map from keys to values.
    pub closed spec fn view(&self) -> Map<Seq<char>, V> {
        self.model@
    }

    /// The keys in insertion order.
    pub closed spec fn keys(&self) -> Seq<Seq<char>> {
        entry_keys(self.entries@)
    }

    /// Internal consistency: every entry is in the map, every key of the map has
    /// exactly one entry, and the map is finite with one key per entry.
    #[verifier::type_invariant]
    spec fn inv(&self) -> bool {
        &&& forall|i: int|
            0 <= i < self.entries@.len() ==> #[trigger] self.model@.contains_key(self.entries@[i].0@)
                && self.model@[self.entries@[i].0@] == self.entries@[i].1
        &&& forall|k: Seq<char>| #[trigger] self.model@.contains_key(k) ==> self.keys().contains(k)
        &&& forall|i: int, j: int|
            0 <= i < self.entries@.len() && 0 <= j < self.entries@.len() && i != j
                ==> #[trigger] self.entries@[i].0@ != #[trigger] self.entries@[j].0@
        &&& self.model@.dom().finite()
        &&& self.model@.dom().len() == self.entries@.len()
    }

    proof fn lemma_keys(&self)
        requires
            self.inv(),
        ensures
            self.keys().len() == self@.len(),
            self.keys().no_duplicates(),
            forall|k: Seq<char>| #[trigger] self@.contains_key(k) <==> self.keys().contains(k),
    {
        assert forall|k: Seq<char>| #[trigger] self.keys().contains(k) implies self@.contains_key(k) by {
            let i = choose|i: int| 0 <= i < self.keys().len() && self.keys()[i] == k;
            assert(self.model@.contains_key(self.entries@[i].0@));
        }
        assert forall|i: int, j: int|
            0 <= i < self.keys().len() && 0 <= j < self.keys().len() && i != j implies
            self.keys()[i] != self.keys()[j] by {
            assert(self.entries@[i].0@ != self.entries@[j].0@);
        }
    }

    /// An empty map.
    pub fn new() -> (m: Self)
        ensures
            m@ == Map::<Seq<char>, V>::empty(),
            m.keys() == Seq::<Seq<char>>::empty(),
    {
        let m = StrMap { entries: Vec::new(), model: Ghost(Map::empty()) };
        assert(m.keys() =~= Seq::<Seq<char>>::empty());
        m
    }

    /// Number of keys. The keys, in insertion order, are distinct and are exactly
    /// the keys of the map.
    pub fn len(&self) -> (n: usize)
        ensures
            n == self@.len(),
            self.keys().len() == n,
            self.keys().no_duplicates(),
            forall|k: Seq<char>| #[trigger] self@.contains_key(k) <==> self.keys().contains(k),
    {
        proof {
            use_type_invariant(self);
            self.lemma_keys();
        }
        self.entries.len()
    }

    /// Index of the entry for `key`, if any.
    fn find(&self, key: &String) -> (r: Option<usize>)
        ensures
            match r {
                Some(i) => i < self.entries@.len() && self.entries@[i as int].0@ == key@ && self@.contains_key(key@),
                None => !self@.contains_key(key@),
            },
    {
        proof {
            use_type_invariant(self);
        }
        let mut i: usize = 0;
        while i < self.entries.len()
            invariant
                self.inv(),
                i <= self.entries@.len(),
                forall|j: int| 0 <= j < i ==> self.entries@[j].0@ != key@,
            decreases self.entries@.len() - i,
        {
            if self.entries[i].0 == *key {
                assert(self.model@.contains_key(self.entries@[i as int].0@));
                return Some(i);
            }
            i = i + 1;
        }
        proof {
            if self@.contains_key(key@) {
                assert(self.keys().contains(key@));
                let j = choose|j: int| 0 <= j < self.keys().len() && self.keys()[j] == key@;
                assert(self.entries@[j].0@ == key@);
            }
        }
        None
    }

    /// Whether `key` is present.
    pub fn contains_key(&self, key: &str) -> (b: bool)
        ensures
            b == self@.contains_key(key@),
    {
        let k = key.to_owned();
        self.find(&k).is_some()
    }

    /// The value stored for `key`, if any.
    pub fn get(&self, key: &str) -> (r: Option<&V>)
        ensures
            match r {
                Some(v) => self@.contains_key(key@) && *v == self@[key@],
                None => !self@.contains_key(key@),
            },
    {
        proof {
            use_type_invariant(self);
        }
        let k = key.to_owned();
        match self.find(&k) {
            Some(i) => {
                assert(self.model@.contains_key(self.entries@[i as int].0@));
                Some(&self.entries[i].1)
            },
            None => None,
        }
    }

    /// Stores `value` for `key`, replacing any earlier value; a new key goes last.
    pub fn insert(&mut self, key: &str, value: V)
        ensures
            final(self)@ == old(self)@.insert(key@, value),
            final(self).keys() == if old(self)@.contains_key(key@) {
                old(self).keys()
            } else {
                old(self).keys().push(key@)
            },
    {
        proof {
            use_type_invariant(&*self);
        }
        let k = key.to_owned();
        let found = self.find(&k);
        let mut taken = StrMap::new();
        std::mem::swap(self, &mut taken);
        let StrMap { mut entries, model } = taken;
        let ghost old_entries = entries@;
        let ghost old_keys = old_entries.map_values(|e: (String, V)| e.0@);
        let ghost new_model = model@.insert(key@, value);
        match found {
            Some(i) => {
                entries.set(i, (k, value));
                proof {
                    assert(new_model.dom() =~= model@.dom());
                    assert(entry_keys(entries@) =~= old_keys);
                    assert forall|j: int| 0 <= j < entries@.len() implies
                        #[trigger] new_model.contains_key(entries@[j].0@)
                        && new_model[entries@[j].0@] == entries@[j].1 by {
                        if j != i {
                            assert(old_entries[j].0@ != old_entries[i as int].0@);
                        }
                    }
                }
            },
            None => {
                entries.push((k, value));
                proof {
                    assert(entry_keys(entries@) =~= old_keys.push(key@));
                    assert forall|kk: Seq<char>| #[trigger] new_model.contains_key(kk) implies
                        entry_keys(entries@).contains(kk) by {
                        if kk == key@ {
                            assert(entry_keys(entries@)[entry_keys(entries@).len() - 1] == kk);
                        } else {
                            assert(model@.contains_key(kk));
                            assert(old_keys.contains(kk));
                            let j = choose|j: int| 0 <= j < old_keys.len() && old_keys[j] == kk;
                            assert(entry_keys(entries@)[j] == kk);
                        }
                    }
                    assert forall|a: int, b: int|
                        0 <= a < entries@.len() && 0 <= b < entries@.len() && a != b
                        implies #[trigger] entries@[a].0@ != #[trigger] entries@[b].0@ by {
                        let n = entries@.len() - 1;
                        if a == n {
                            assert(model@.contains_key(old_entries[b].0@));
                        } else if b == n {
                            assert(model@.contains_key(old_entries[a].0@));
                        }
                    }
                }
            },
        }
        *self = StrMap { entries, model: Ghost(new_model) };
    }

    /// The key of the `i`-th entry in insertion order.
    pub fn key_at(&self, i: usize) -> (k: &String)
        requires
            i < self@.len(),
        ensures
            k@ == self.keys()[i as int],
    {
        proof {
            use_type_invariant(self);
        }
        assert(self.keys()[i as int] == self.entries@[i as int].0@);
        &self.entries[i].0
    }

    /// The value of the `i`-th entry in insertion order.
    pub fn value_at(&self, i: usize) -> (v: &V)
        requires
            i < self@.len(),
        ensures
            *v == self@[self.keys()[i as int]],
    {
        proof {
            use_type_invariant(self);
        }
        assert(self.keys()[i as int] == self.entries@[i as int].0@);
        assert(self.model@.contains_key(self.entries@[i as int].0@));
        &self.entries[i].1
    }
}

impl<V: Clone> Clone for StrMap<V> {
    /// A copy with the same keys in the same order, each value cloned.
    fn clone(&self) -> (r: Self)
        ensures
            r.keys() == self.keys(),
            r@.dom() == self@.dom(),
            forall|k: Seq<char>| #[trigger] self@.contains_key(k) ==> cloned(self@[k], r@[k]),
    {
        proof {
            use_type_invariant(self);
        }
        let mut entries: Vec<(String, V)> = Vec::new();
        let ghost mut model = Map::<Seq<char>, V>::empty();
        let mut i: usize = 0;
        while i < self.entries.len()
            invariant
                self.inv(),
                i <= self.entries@.len(),
                entries@.len() == i,
                forall|j: int| 0 <= j < i ==> #[trigger] entries@[j].0@ == self.entries@[j].0@
                    && cloned(self.entries@[j].1, entries@[j].1)
                    && model.contains_key(entries@[j].0@) && model[entries@[j].0@] == entries@[j].1,
                forall|k: Seq<char>| #[trigger] model.contains_key(k) ==> entry_keys(entries@).contains(k),
                model.dom().finite(),
                model.dom().len() == i,
            decreases self.entries@.len() - i,
        {
            let k = self.entries[i].0.clone();
            let v = self.entries[i].1.clone();
            let ghost prev_entries = entries@;
            let ghost prev_model = model;
            proof {
                assert(!model.contains_key(k@)) by {
                    if model.contains_key(k@) {
                        let j = choose|j: int| 0 <= j < entry_keys(prev_entries).len() && entry_keys(prev_entries)[j] == k@;
                        assert(prev_entries[j].0@ == k@);
                        assert(self.entries@[j].0@ != self.entries@[i as int].0@);
                    }
                }
                model = model.insert(k@, v);
            }
            entries.push((k, v));
            proof {
                assert(entry_keys(entries@) =~= entry_keys(prev_entries).push(k@));
                assert forall|kk: Seq<char>| #[trigger] model.contains_key(kk) implies entry_keys(entries@).contains(kk) by {
                    if kk == k@ {
                        assert(entry_keys(entries@)[i as int] == kk);
                    } else {
                        assert(prev_model.contains_key(kk));
                        let j = choose|j: int| 0 <= j < entry_keys(prev_entries).len() && entry_keys(prev_entries)[j] == kk;
                        assert(entry_keys(entries@)[j] == kk);
                    }
                }
            }
            i = i + 1;
        }
        proof {
            assert(entry_keys(entries@) =~= self.keys());
            assert forall|a: int, b: int|
                0 <= a < entries@.len() && 0 <= b < entries@.len() && a != b
                implies #[trigger] entries@[a].0@ != #[trigger] entries@[b].0@ by {
                assert(self.entries@[a].0@ != self.entries@[b].0@);
            }
        }
        let r = StrMap { entries, model: Ghost(model) };
        proof {
            assert forall|k: Seq<char>| #[trigger] r.model@.contains_key(k) <==> self.model@.contains_key(k) by {
                if r.model@.contains_key(k) {
                    let j = choose|j: int| 0 <= j < self.keys().len() && self.keys()[j] == k;
                    assert(self.model@.contains_key(self.entries@[j].0@));
                }
                if self.model@.contains_key(k) {
                    assert(self.keys().contains(k));
                    let j = choose|j: int| 0 <= j < self.keys().len() && self.keys()[j] == k;
                    assert(r.entries@[j].0@ == k);
                }
            }
            assert(r@.dom() =~= self@.dom());
            assert forall|k: Seq<char>| #[trigger] self@.contains_key(k) implies cloned(self@[k], r@[k]) by {
                assert(self.keys().contains(k));
                let j = choose|j: int| 0 <= j < self.keys().len() && self.keys()[j] == k;
                assert(self.model@.contains_key(self.entries@[j].0@));
                assert(r.entries@[j].0@ == k);
            }
        }
        r
    }
}

} // verus!
