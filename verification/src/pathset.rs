//! A set of path strings, such as the open projects or the expanded folders.

use vstd::prelude::*;
use crate::paths::views;

verus! {

/// A finite set of path strings. Each path occurs once.
pub struct PathSet {
    items: Vec<String>,
}

impl View for PathSet {
    type V = Set<Seq<char>>;

    closed spec fn view(&self) -> Set<Seq<char>> {
        views(self.items@).to_set()
    }
}

impl PathSet {
    #[verifier::type_invariant]
    closed spec fn distinct(&self) -> bool {
        views(self.items@).no_duplicates()
    }

    /// The empty set.
    pub fn new() -> (s: PathSet)
        ensures
            s@ == Set::<Seq<char>>::empty(),
    {
        let s = PathSet { items: Vec::new() };
        assert(s@ =~= Set::<Seq<char>>::empty());
        s
    }

    /// The position of `path` among the items, if it is there.
    fn find(&self, path: &String) -> (idx: Option<usize>)
        ensures
            match idx {
                Some(i) => i < self.items.len() && self.items[i as int]@ == path@,
                None => !self@.contains(path@),
            },
    {
        let n = self.items.len();
        for i in 0..n
            invariant
                n == self.items.len(),
                forall|k: int| 0 <= k < i ==> self.items[k]@ != path@,
        {
            if self.items[i] == *path {
                return Some(i);
            }
        }
        proof {
            if self@.contains(path@) {
                let k = choose|k: int| 0 <= k < views(self.items@).len() && views(self.items@)[k] == path@;
                assert(self.items[k]@ == path@);
            }
        }
        None
    }

    /// Whether `path` is in the set.
    pub fn contains(&self, path: &String) -> (r: bool)
        ensures
            r == self@.contains(path@),
    {
        match self.find(path) {
            Some(i) => {
                assert(views(self.items@)[i as int] == path@);
                true
            },
            None => false,
        }
    }

    /// Adds `path`; returns whether it was new.
    pub fn insert(&mut self, path: String) -> (added: bool)
        ensures
            final(self)@ == old(self)@.insert(path@),
            added == !old(self)@.contains(path@),
    {
        proof {
            use_type_invariant(&*self);
        }
        if self.contains(&path) {
            assert(self@.insert(path@) =~= self@);
            false
        } else {
            let ghost before = views(self.items@);
            let mut items: Vec<String> = Vec::new();
            std::mem::swap(&mut items, &mut self.items);
            items.push(path);
            assert(views(items@) =~= before.push(path@));
            self.items = items;
            proof {
                assert(views(self.items@) =~= before.push(path@));
                before.lemma_push_to_set_commute(path@);
            }
            true
        }
    }

    /// Takes `path` out; returns whether it was there.
    pub fn remove(&mut self, path: &String) -> (removed: bool)
        ensures
            final(self)@ == old(self)@.remove(path@),
            removed == old(self)@.contains(path@),
    {
        proof {
            use_type_invariant(&*self);
        }
        match self.find(path) {
            None => {
                assert(self@.remove(path@) =~= self@);
                false
            },
            Some(i) => {
                let ghost before = views(self.items@);
                assert(before[i as int] == path@);
                let mut items: Vec<String> = Vec::new();
                std::mem::swap(&mut items, &mut self.items);
                items.remove(i);
                assert(views(items@) =~= before.remove(i as int));
                proof {
                    assert forall|a: int, b: int|
                        0 <= a < views(items@).len() && 0 <= b < views(items@).len() && a != b
                        implies views(items@)[a] != views(items@)[b] by {
                        let a0 = if a < i { a } else { a + 1 };
                        let b0 = if b < i { b } else { b + 1 };
                        assert(before[a0] == views(items@)[a]);
                        assert(before[b0] == views(items@)[b]);
                    }
                }
                self.items = items;
                proof {
                    assert(views(self.items@) =~= before.remove(i as int));
                    assert forall|x: Seq<char>| #[trigger] self@.contains(x) == old(self)@.remove(path@).contains(x) by {
                        if self@.contains(x) {
                            let k = choose|k: int| 0 <= k < views(self.items@).len() && views(self.items@)[k] == x;
                            if k < i {
                                assert(before[k] == x);
                            } else {
                                assert(before[k + 1] == x);
                            }
                        }
                        if old(self)@.remove(path@).contains(x) {
                            let k = choose|k: int| 0 <= k < before.len() && before[k] == x;
                            assert(k != i);
                            if k < i {
                                assert(views(self.items@)[k] == x);
                            } else {
                                assert(views(self.items@)[k - 1] == x);
                            }
                        }
                    }
                    assert(self@ =~= old(self)@.remove(path@));
                }
                true
            },
        }
    }

    /// The paths of the set, each once, in no particular order.
    pub fn to_vec(&self) -> (v: Vec<String>)
        ensures
            views(v@).to_set() == self@,
            views(v@).no_duplicates(),
    {
        proof {
            use_type_invariant(self);
        }
        let v = self.items.clone();
        assert(views(v@) =~= views(self.items@));
        v
    }

    /// The set of the paths in `paths`.
    pub fn from_vec(paths: &Vec<String>) -> (s: PathSet)
        ensures
            s@ == views(paths@).to_set(),
    {
        let mut s = PathSet::new();
        let n = paths.len();
        for i in 0..n
            invariant
                n == paths.len(),
                s@ == views(paths@.take(i as int)).to_set(),
        {
            s.insert(paths[i].clone());
            proof {
                assert(views(paths@.take(i + 1)) =~= views(paths@.take(i as int)).push(paths[i as int]@));
                views(paths@.take(i as int)).lemma_push_to_set_commute(paths[i as int]@);
            }
        }
        assert(paths@.take(n as int) =~= paths@);
        s
    }
}

} // verus!
