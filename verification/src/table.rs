//! The composition table of a category: for a pair of morphism identifiers
//! `(f, g)` it records the identifier of `f ∘ g` ("f after g").

use vstd::prelude::*;

verus! {

/// A map from pairs of morphism identifiers to a morphism identifier, kept in
/// insertion order. Recording a pair again replaces its entry in place.
pub struct CompositionTable {
    entries: Vec<(String, String, String)>,
    model: Ghost<Map<(Seq<char>, Seq<char>), Seq<char>>>,
}

/// The key of one entry of the table.
pub open spec fn entry_key(e: (String, String, String)) -> (Seq<char>, Seq<char>) {
    (e.0@, e.1@)
}

/// The keys of a list of entries, in order.
pub open spec fn table_keys(es: Seq<(String, String, String)>) -> Seq<(Seq<char>, Seq<char>)> {
    es.map_values(|e: (String, String, String)| entry_key(e))
}

impl CompositionTable {
    /// The table as a mathematical map.
    pub closed spec fn view(&self) -> Map<(Seq<char>, Seq<char>), Seq<char>> {
        self.model@
    }

    /// The keys in insertion order.
    pub closed spec fn keys(&self) -> Seq<(Seq<char>, Seq<char>)> {
        table_keys(self.entries@)
    }

    /// Internal consistency: every entry is in the map, every key of the map has
    /// exactly one entry, and the map is finite with one key per entry.
    #[verifier::type_invariant]
    spec fn inv(&self) -> bool {
        &&& forall|i: int|
            0 <= i < self.entries@.len() ==> #[trigger] self.model@.contains_key(
                entry_key(self.entries@[i]),
            ) && self.model@[entry_key(self.entries@[i])] == self.entries@[i].2@
        &&& forall|k: (Seq<char>, Seq<char>)| #[trigger]
            self.model@.contains_key(k) ==> self.keys().contains(k)
        &&& forall|i: int, j: int|
            0 <= i < self.entries@.len() && 0 <= j < self.entries@.len() && i != j
                ==> #[trigger] entry_key(self.entries@[i]) != #[trigger] entry_key(self.entries@[j])
        &&& self.model@.dom().finite()
        &&& self.model@.dom().len() == self.entries@.len()
    }

    proof fn lemma_keys(&self)
        requires
            self.inv(),
        ensures
            self.keys().len() == self@.len(),
            forall|k: (Seq<char>, Seq<char>)| #[trigger] self@.contains_key(k) <==> self.keys().contains(k),
    {
        assert forall|k: (Seq<char>, Seq<char>)| #[trigger] self.keys().contains(k) implies self@.contains_key(k) by {
            let i = choose|i: int| 0 <= i < self.keys().len() && self.keys()[i] == k;
            assert(self.model@.contains_key(entry_key(self.entries@[i])));
        }
    }

    /// An empty table.
    pub fn new() -> (t: Self)
        ensures
            t@ == Map::<(Seq<char>, Seq<char>), Seq<char>>::empty(),
    {
        let t = CompositionTable { entries: Vec::new(), model: Ghost(Map::empty()) };
        assert(t.keys() =~= Seq::<(Seq<char>, Seq<char>)>::empty());
        t
    }

    /// Number of recorded pairs. The pairs, in insertion order, are exactly the
    /// keys of the table.
    pub fn len(&self) -> (n: usize)
        ensures
            n == self@.len(),
            self.keys().len() == n,
            forall|k: (Seq<char>, Seq<char>)| #[trigger] self@.contains_key(k) <==> self.keys().contains(k),
    {
        proof {
            use_type_invariant(self);
            self.lemma_keys();
        }
        self.entries.len()
    }

    fn find(&self, f: &String, g: &String) -> (r: Option<usize>)
        ensures
            match r {
                Some(i) => i < self.entries@.len() && entry_key(self.entries@[i as int]) == (f@, g@)
                    && self@.contains_key((f@, g@)),
                None => !self@.contains_key((f@, g@)),
            },
    {
        proof {
            use_type_invariant(self);
        }
        let mut i: usize = 0;
        while i < self.entries.len()
            invariant
                self.inv(),
                i <= self.entries@.len(),
                forall|j: int| 0 <= j < i ==> entry_key(self.entries@[j]) != (f@, g@),
            decreases self.entries@.len() - i,
        {
            if self.entries[i].0 == *f && self.entries[i].1 == *g {
                assert(self.model@.contains_key(entry_key(self.entries@[i as int])));
                return Some(i);
            }
            i = i + 1;
        }
        proof {
            if self@.contains_key((f@, g@)) {
                assert(self.keys().contains((f@, g@)));
                let j = choose|j: int| 0 <= j < self.keys().len() && self.keys()[j] == (f@, g@);
                assert(entry_key(self.entries@[j]) == (f@, g@));
            }
        }
        None
    }

    /// The recorded composite of `f` after `g`, if any.
    pub fn get(&self, f: &str, g: &str) -> (r: Option<&String>)
        ensures
            match r {
                Some(h) => self@.contains_key((f@, g@)) && h@ == self@[(f@, g@)],
                None => !self@.contains_key((f@, g@)),
            },
    {
        proof {
            use_type_invariant(self);
        }
        let fk = f.to_owned();
        let gk = g.to_owned();
        match self.find(&fk, &gk) {
            Some(i) => {
                assert(self.model@.contains_key(entry_key(self.entries@[i as int])));
                Some(&self.entries[i].2)
            },
            None => None,
        }
    }

    /// Records `h` as the composite of `f` after `g`.
    pub fn insert(&mut self, f: &str, g: &str, h: &str)
        ensures
            final(self)@ == old(self)@.insert((f@, g@), h@),
    {
        proof {
            use_type_invariant(&*self);
        }
        let fk = f.to_owned();
        let gk = g.to_owned();
        let hk = h.to_owned();
        let found = self.find(&fk, &gk);
        let mut taken = CompositionTable::new();
        std::mem::swap(self, &mut taken);
        let CompositionTable { mut entries, model } = taken;
        let ghost old_entries = entries@;
        let ghost old_keys = table_keys(old_entries);
        let ghost new_model = model@.insert((f@, g@), h@);
        match found {
            Some(i) => {
                entries.set(i, (fk, gk, hk));
                proof {
                    assert(new_model.dom() =~= model@.dom());
                    assert(table_keys(entries@) =~= old_keys);
                    assert forall|j: int| 0 <= j < entries@.len() implies
                        #[trigger] new_model.contains_key(entry_key(entries@[j]))
                        && new_model[entry_key(entries@[j])] == entries@[j].2@ by {
                        if j != i {
                            assert(entry_key(old_entries[j]) != entry_key(old_entries[i as int]));
                        }
                    }
                }
            },
            None => {
                entries.push((fk, gk, hk));
                proof {
                    assert(table_keys(entries@) =~= old_keys.push((f@, g@)));
                    assert forall|kk: (Seq<char>, Seq<char>)| #[trigger] new_model.contains_key(kk) implies
                        table_keys(entries@).contains(kk) by {
                        if kk == (f@, g@) {
                            assert(table_keys(entries@)[table_keys(entries@).len() - 1] == kk);
                        } else {
                            assert(model@.contains_key(kk));
                            assert(old_keys.contains(kk));
                            let j = choose|j: int| 0 <= j < old_keys.len() && old_keys[j] == kk;
                            assert(table_keys(entries@)[j] == kk);
                        }
                    }
                    assert forall|a: int, b: int|
                        0 <= a < entries@.len() && 0 <= b < entries@.len() && a != b
                        implies #[trigger] entry_key(entries@[a]) != #[trigger] entry_key(entries@[b]) by {
                        let n = entries@.len() - 1;
                        if a == n {
                            assert(model@.contains_key(entry_key(old_entries[b])));
                        } else if b == n {
                            assert(model@.contains_key(entry_key(old_entries[a])));
                        }
                    }
                }
            },
        }
        *self = CompositionTable { entries, model: Ghost(new_model) };
    }

    /// The `i`-th recorded pair and its composite, in insertion order.
    pub fn entry_at(&self, i: usize) -> (r: (&String, &String, &String))
        requires
            i < self@.len(),
        ensures
            (r.0@, r.1@) == self.keys()[i as int],
            r.2@ == self@[self.keys()[i as int]],
    {
        proof {
            use_type_invariant(self);
        }
        assert(self.keys()[i as int] == entry_key(self.entries@[i as int]));
        assert(self.model@.contains_key(entry_key(self.entries@[i as int])));
        let e = &self.entries[i];
        (&e.0, &e.1, &e.2)
    }
}

impl Clone for CompositionTable {
    /// A copy with the same entries in the same order.
    fn clone(&self) -> (r: Self)
        ensures
            r@ == self@,
            r.keys() == self.keys(),
    {
        proof {
            use_type_invariant(self);
        }
        let mut entries: Vec<(String, String, String)> = Vec::new();
        let mut i: usize = 0;
        while i < self.entries.len()
            invariant
                i <= self.entries@.len(),
                entries@.len() == i,
                forall|j: int| 0 <= j < i ==> #[trigger] entries@[j] == self.entries@[j],
            decreases self.entries@.len() - i,
        {
            let e = &self.entries[i];
            entries.push((e.0.clone(), e.1.clone(), e.2.clone()));
            i = i + 1;
        }
        assert(entries@ =~= self.entries@);
        CompositionTable { entries, model: Ghost(self.model@) }
    }
}

} // verus!
