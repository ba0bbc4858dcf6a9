//! A map keyed by strings, compared by their characters.

use vstd::prelude::*;

verus! {

/// The characters of each key.
pub open spec fn keys_of<V>(entries: Seq<(String, V)>) -> Seq<Seq<char>> {
    entries.map_values(|e: (String, V)| e.0@)
}

/// A finite map from strings to values; each key occurs once.
pub struct StrMap<V> {
    entries: Vec<(String, V)>,
}

impl<V> View for StrMap<V> {
    type V = Map<Seq<char>, V>;

    closed spec fn view(&self) -> Map<Seq<char>, V> {
        Map::new(
            |k: Seq<char>| keys_of(self.entries@).contains(k),
            |k: Seq<char>| self.entries@[self.slot(k)].1,
        )
    }
}

impl<V> StrMap<V> {
    #[verifier::type_invariant]
    closed spec fn distinct_keys(&self) -> bool {
        keys_of(self.entries@).no_duplicates()
    }

    /// The position of `k` among the entries.
    closed spec fn slot(&self, k: Seq<char>) -> int {
        choose|i: int| 0 <= i < self.entries.len() && self.entries@[i].0@ == k
    }

    /// The entry at position `i` is what the view holds for its key.
    proof fn lemma_entry(&self, i: int)
        requires
            self.distinct_keys(),
            0 <= i < self.entries.len(),
        ensures
            self@.contains_key(self.entries@[i].0@),
            self@[self.entries@[i].0@] == self.entries@[i].1,
    {
        assert(keys_of(self.entries@)[i] == self.entries@[i].0@);
        let j = self.slot(self.entries@[i].0@);
        assert(keys_of(self.entries@)[j] == self.entries@[j].0@);
    }

}

impl<V: Copy> StrMap<V> {
    /// The empty map.
    pub fn new() -> (m: StrMap<V>)
        ensures
            m@ == Map::<Seq<char>, V>::empty(),
    {
        let m = StrMap { entries: Vec::new() };
        assert(m@ =~= Map::<Seq<char>, V>::empty());
        m
    }

    /// The position of `key`.
    fn find(&self, key: &String) -> (idx: Option<usize>)
        ensures
            match idx {
                Some(i) => i < self.entries.len() && self.entries@[i as int].0@ == key@,
                None => !self@.contains_key(key@),
            },
    {
        let n = self.entries.len();
        for i in 0..n
            invariant
                n == self.entries.len(),
                forall|k: int| 0 <= k < i ==> self.entries@[k].0@ != key@,
        {
            if self.entries[i].0 == *key {
                return Some(i);
            }
        }
        proof {
            if self@.contains_key(key@) {
                let k = choose|k: int|
                    0 <= k < keys_of(self.entries@).len() && keys_of(self.entries@)[k] == key@;
                assert(self.entries@[k].0@ == key@);
            }
        }
        None
    }

    /// The value of `key`, if it has one.
    pub fn get(&self, key: &String) -> (v: Option<V>)
        ensures
            v == (if self@.contains_key(key@) { Some(self@[key@]) } else { None::<V> }),
    {
        proof {
            use_type_invariant(self);
        }
        match self.find(key) {
            Some(i) => {
                proof {
                    self.lemma_entry(i as int);
                }
                Some(self.entries[i].1)
            },
            None => None,
        }
    }

    /// Whether `key` has a value.
    pub fn contains_key(&self, key: &String) -> (r: bool)
        ensures
            r == self@.contains_key(key@),
    {
        proof {
            use_type_invariant(self);
        }
        match self.find(key) {
            Some(i) => {
                proof {
                    self.lemma_entry(i as int);
                }
                true
            },
            None => false,
        }
    }

    /// Gives `key` the value `value`, replacing the one it had.
    pub fn insert(&mut self, key: String, value: V)
        ensures
            final(self)@ == old(self)@.insert(key@, value),
    {
        proof {
            use_type_invariant(&*self);
        }
        let ghost old_entries = self.entries@;
        let found = self.find(&key);
        let mut entries: Vec<(String, V)> = Vec::new();
        std::mem::swap(&mut entries, &mut self.entries);
        match found {
            Some(i) => {
                entries.set(i, (key, value));
                assert(keys_of(entries@) =~= keys_of(old_entries));
            },
            None => {
                entries.push((key, value));
                proof {
                    assert(keys_of(entries@) =~= keys_of(old_entries).push(key@));
                    assert forall|a: int, b: int|
                        0 <= a < keys_of(entries@).len() && 0 <= b < keys_of(entries@).len() && a != b
                        implies keys_of(entries@)[a] != keys_of(entries@)[b] by {
                        if a == old_entries.len() {
                            assert(!keys_of(old_entries).contains(key@) ==> keys_of(old_entries)[b] != key@);
                        } else if b == old_entries.len() {
                            assert(!keys_of(old_entries).contains(key@) ==> keys_of(old_entries)[a] != key@);
                        }
                    }
                }
            },
        }
        self.entries = entries;
        proof {
            let m = old(self)@.insert(key@, value);
            let keys = keys_of(self.entries@);
            let old_keys = keys_of(old_entries);
            assert forall|k: Seq<char>| #[trigger] self@.contains_key(k) == m.contains_key(k) by {
                if self@.contains_key(k) {
                    let i = choose|i: int| 0 <= i < keys.len() && keys[i] == k;
                    if i < old_entries.len() && k != key@ {
                        assert(old_keys[i] == k);
                    }
                }
                if old(self)@.contains_key(k) {
                    let i = choose|i: int| 0 <= i < old_keys.len() && old_keys[i] == k;
                    if found is Some && i == found->0 {
                        assert(keys[i] == key@);
                    } else {
                        assert(keys[i] == k);
                    }
                }
                if k == key@ {
                    match found {
                        Some(i) => assert(keys[i as int] == k),
                        None => assert(keys[old_entries.len() as int] == k),
                    }
                }
            }
            assert forall|k: Seq<char>| #[trigger] self@.contains_key(k) implies self@[k] == m[k] by {
                let i = choose|i: int| 0 <= i < keys.len() && keys[i] == k;
                self.lemma_entry(i);
                if k == key@ {
                    let pos: int = match found {
                        Some(j) => j as int,
                        None => old_entries.len() as int,
                    };
                    assert(keys[pos] == k);
                    assert(i == pos);
                } else {
                    assert(i < old_entries.len());
                    assert(old_keys[i] == k);
                    old(self).lemma_entry(i);
                }
            }
            assert(self@ =~= m);
        }
    }

    /// The keys, each once, in no particular order.
    pub fn keys(&self) -> (ks: Vec<String>)
        ensures
            crate::paths::views(ks@).to_set() == self@.dom(),
            crate::paths::views(ks@).no_duplicates(),
    {
        proof {
            use_type_invariant(self);
        }
        let mut ks: Vec<String> = Vec::new();
        let n = self.entries.len();
        for i in 0..n
            invariant
                n == self.entries.len(),
                crate::paths::views(ks@) == keys_of(self.entries@).take(i as int),
        {
            let ghost before = ks@;
            let name = self.entries[i].0.clone();
            ks.push(name);
            assert(ks@ =~= before.push(name));
            assert(crate::paths::views(ks@) =~= crate::paths::views(before).push(name@));
            assert(crate::paths::views(ks@) =~= keys_of(self.entries@).take(i + 1));
        }
        proof {
            assert(keys_of(self.entries@).take(n as int) =~= keys_of(self.entries@));
            assert(crate::paths::views(ks@).to_set() =~= self@.dom());
        }
        ks
    }
}

} // verus!
