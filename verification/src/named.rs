//! A small map keyed by text, kept as a list of entries with distinct keys.

use vstd::prelude::*;


verus! {

/// A map from names to values, held as a list of `(name, value)` entries whose
/// names are pairwise different.
pub struct NamedMap<V> {
    entries: Vec<(String, V)>,
}

impl<V> NamedMap<V> {
    /// No two entries share a name.
    #[verifier::type_invariant]
    closed spec fn names_distinct(&self) -> bool {
        forall|i: int, j: int|
            0 <= i < self.entries@.len() && 0 <= j < self.entries@.len() && i != j
                ==> #[trigger] self.entries@[i].0@ != #[trigger] self.entries@[j].0@
    }

    /// The index of the entry named `k`.
    closed spec fn slot(&self, k: Seq<char>) -> int {
        choose|i: int| 0 <= i < self.entries@.len() && self.entries@[i].0@ == k
    }

    /// Some entry is named `k`.
    closed spec fn has(&self, k: Seq<char>) -> bool {
        exists|i: int| 0 <= i < self.entries@.len() && self.entries@[i].0@ == k
    }

    /// The map from names to values.
    pub closed spec fn as_map(&self) -> Map<Seq<char>, V> {
        Map::new(|k: Seq<char>| self.has(k), |k: Seq<char>| self.entries@[self.slot(k)].1)
    }

    /// An empty map.
    pub fn new() -> (m: Self)
        ensures
            m@ == Map::<Seq<char>, V>::empty(),
    {
        let m = NamedMap { entries: Vec::new() };
        assert(m@ =~= Map::<Seq<char>, V>::empty());
        m
    }

    fn position(&self, key: &str) -> (r: Option<usize>)
        ensures
            match r {
                Some(i) => i < self.entries@.len() && self.entries@[i as int].0@ == key@,
                None => !self.has(key@),
            },
    {
        let name = key.to_owned();
        let mut i: usize = 0;
        while i < self.entries.len()
            invariant
                name@ == key@,
                i <= self.entries@.len(),
                forall|j: int| 0 <= j < i ==> self.entries@[j].0@ != key@,
            decreases self.entries@.len() - i,
        {
            if self.entries[i].0.eq(&name) {
                return Some(i);
            }
            i = i + 1;
        }
        None
    }

    /// The value stored under `key`, if any.
    pub fn get(&self, key: &str) -> (r: Option<&V>)
        ensures
            match r {
                Some(v) => self@.contains_key(key@) && self@[key@] == *v,
                None => !self@.contains_key(key@),
            },
    {
        proof {
            use_type_invariant(self);
        }
        match self.position(key) {
            Some(i) => {
                assert(self.has(key@));
                let ghost i_ghost = self.slot(key@);
                assert(i_ghost == i as int);
                Some(&self.entries[i].1)
            },
            None => None,
        }
    }

    /// Stores `value` under `key`, replacing any value stored there.
    pub fn insert(&mut self, key: String, value: V)
        ensures
            final(self)@ == old(self)@.insert(key@, value),
    {
        proof {
            use_type_invariant(&*self);
        }
        let ghost before = self@;
        let ghost old_entries = self.entries@;
        match self.position(key.as_str()) {
            Some(i) => {
                let ghost k = key@;
                let mut v: Vec<(String, V)> = Vec::new();
                std::mem::swap(&mut v, &mut self.entries);
                v.set(i, (key, value));
                self.entries = v;
                assert(self.entries@ == old_entries.update(i as int, (self.entries@[i as int].0, value)));
                assert(self@ =~= before.insert(k, value)) by {
                    assert forall|n: Seq<char>| #[trigger] self.has(n) <==> before.contains_key(n) || n == k by {
                        if before.contains_key(n) {
                            let j = choose|j: int| 0 <= j < old_entries.len() && old_entries[j].0@ == n;
                            if j != i {
                                assert(self.entries@[j] == old_entries[j]);
                            }
                        }
                        if self.has(n) {
                            let j = choose|j: int| 0 <= j < self.entries@.len() && self.entries@[j].0@ == n;
                            if j != i {
                                assert(self.entries@[j] == old_entries[j]);
                            }
                        }
                    }
                    assert forall|n: Seq<char>| #[trigger] self.has(n) implies self.entries@[self.slot(n)].1
                        == (if n == k { value } else { before[n] }) by {
                        let j = self.slot(n);
                        if n == k {
                            assert(j == i);
                        } else {
                            let jo = choose|jo: int| 0 <= jo < old_entries.len() && old_entries[jo].0@ == n;
                            assert(self.entries@[jo] == old_entries[jo]);
                            assert(j == jo);
                        }
                    }
                }
            },
            None => {
                let ghost k = key@;
                let mut v: Vec<(String, V)> = Vec::new();
                std::mem::swap(&mut v, &mut self.entries);
                v.push((key, value));
                self.entries = v;
                assert(self@ =~= before.insert(k, value)) by {
                    let last = old_entries.len() as int;
                    assert forall|n: Seq<char>| #[trigger] self.has(n) <==> before.contains_key(n) || n == k by {
                        if before.contains_key(n) {
                            let j = choose|j: int| 0 <= j < old_entries.len() && old_entries[j].0@ == n;
                            assert(self.entries@[j] == old_entries[j]);
                        }
                        if n == k {
                            assert(self.entries@[last].0@ == k);
                        }
                    }
                    assert forall|n: Seq<char>| #[trigger] self.has(n) implies self.entries@[self.slot(n)].1
                        == (if n == k { value } else { before[n] }) by {
                        let j = self.slot(n);
                        if n == k {
                            assert(j == last);
                        } else {
                            let jo = choose|jo: int| 0 <= jo < old_entries.len() && old_entries[jo].0@ == n;
                            assert(self.entries@[jo] == old_entries[jo]);
                            assert(j == jo);
                        }
                    }
                }
            },
        }
    }

    /// Takes out the value stored under `key`, if any, and forgets the name.
    pub fn remove(&mut self, key: &str) -> (r: Option<V>)
        ensures
            final(self)@ == old(self)@.remove(key@),
            match r {
                Some(v) => old(self)@.contains_key(key@) && old(self)@[key@] == v,
                None => !old(self)@.contains_key(key@),
            },
    {
        proof {
            use_type_invariant(&*self);
        }
        let ghost before = self@;
        let ghost old_entries = self.entries@;
        match self.position(key) {
            None => {
                assert(self@ =~= before.remove(key@));
                None
            },
            Some(i) => {
                let ghost k = key@;
                assert(self.has(k));
                assert(self.slot(k) == i as int);
                let mut v: Vec<(String, V)> = Vec::new();
                std::mem::swap(&mut v, &mut self.entries);
                let (_name, value) = v.remove(i);
                self.entries = v;
                assert(self@ =~= before.remove(k)) by {
                    assert forall|n: Seq<char>| #[trigger] self.has(n) <==> before.contains_key(n) && n != k by {
                        if self.has(n) {
                            let j = choose|j: int| 0 <= j < self.entries@.len() && self.entries@[j].0@ == n;
                            if j < i {
                                assert(self.entries@[j] == old_entries[j]);
                            } else {
                                assert(self.entries@[j] == old_entries[j + 1]);
                            }
                        }
                        if before.contains_key(n) && n != k {
                            let j = choose|j: int| 0 <= j < old_entries.len() && old_entries[j].0@ == n;
                            if j < i {
                                assert(self.entries@[j] == old_entries[j]);
                            } else {
                                assert(j != i);
                                assert(self.entries@[j - 1] == old_entries[j]);
                            }
                        }
                    }
                    assert forall|n: Seq<char>| #[trigger] self.has(n) implies self.entries@[self.slot(n)].1
                        == before[n] by {
                        let j = self.slot(n);
                        let jo = if j < i { j } else { j + 1 };
                        assert(self.entries@[j] == old_entries[jo]);
                        assert(old_entries[jo].0@ == n);
                    }
                }
                Some(value)
            },
        }
    }
}

impl<V> View for NamedMap<V> {
    type V = Map<Seq<char>, V>;

    open spec fn view(&self) -> Map<Seq<char>, V> {
        self.as_map()
    }
}

} // verus!
