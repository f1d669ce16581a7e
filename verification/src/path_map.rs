//! Maps from paths to values.

use vstd::prelude::*;

use crate::paths::{is_same_path, path_parts, Part};
use crate::text::copy;

verus! {

/// A map from paths to values. Texts that denote the same path are the same key.
#[derive(Debug)]
pub struct PathMap<V> {
    pub entries: Vec<(String, V)>,
}

/// Whether the `i`-th entry has the key `key`.
pub open spec fn holds_key<V>(entries: Seq<(String, V)>, i: int, key: Seq<Part>) -> bool {
    0 <= i < entries.len() && path_parts(entries[i].0@) == key
}

impl<V> View for PathMap<V> {
    type V = Map<Seq<Part>, V>;

    open spec fn view(&self) -> Map<Seq<Part>, V> {
        Map::new(
            |key: Seq<Part>| exists|i: int| holds_key(self.entries@, i, key),
            |key: Seq<Part>| self.entries@[choose|i: int| holds_key(self.entries@, i, key)].1,
        )
    }
}

impl<V> PathMap<V> {
    /// No two entries have the same key.
    pub open spec fn wf(&self) -> bool {
        forall|i: int, j: int, key: Seq<Part>|
            holds_key(self.entries@, i, key) && holds_key(self.entries@, j, key) ==> i == j
    }

    /// What an entry says of the map.
    pub proof fn lemma_entry(&self, i: int)
        requires
            self.wf(),
            0 <= i < self.entries@.len(),
        ensures
            self@.contains_key(path_parts(self.entries@[i].0@)),
            self@[path_parts(self.entries@[i].0@)] == self.entries@[i].1,
    {
        let key = path_parts(self.entries@[i].0@);
        assert(holds_key(self.entries@, i, key));
        let k = choose|k: int| holds_key(self.entries@, k, key);
        assert(holds_key(self.entries@, k, key));
    }

    pub fn new() -> (r: Self)
        ensures
            r@ == Map::<Seq<Part>, V>::empty(),
            r.wf(),
    {
        let r = PathMap { entries: Vec::new() };
        assert(r@ =~= Map::empty());
        r
    }

    fn find(&self, path: &str) -> (r: Option<usize>)
        requires
            self.wf(),
        ensures
            match r {
                Some(i) => holds_key(self.entries@, i as int, path_parts(path@))
                    && self@.contains_key(path_parts(path@)) && self@[path_parts(path@)]
                    == self.entries@[i as int].1,
                None => !self@.contains_key(path_parts(path@)) && forall|i: int|
                    !holds_key(self.entries@, i, path_parts(path@)),
            },
    {
        let ghost key = path_parts(path@);
        let mut i: usize = 0;
        while i < self.entries.len()
            invariant
                self.wf(),
                i <= self.entries@.len(),
                key == path_parts(path@),
                forall|k: int| 0 <= k < i ==> !holds_key(self.entries@, k, key),
            decreases self.entries@.len() - i,
        {
            if is_same_path(&self.entries[i].0, path) {
                proof {
                    self.lemma_entry(i as int);
                }
                return Some(i);
            }
            i = i + 1;
        }
        None
    }

    /// The value at a path.
    pub fn get(&self, path: &str) -> (r: Option<&V>)
        requires
            self.wf(),
        ensures
            match r {
                Some(v) => self@.contains_key(path_parts(path@)) && *v == self@[path_parts(path@)],
                None => !self@.contains_key(path_parts(path@)),
            },
    {
        match self.find(path) {
            Some(i) => Some(&self.entries[i].1),
            None => None,
        }
    }

    /// Whether there is a value at a path.
    pub fn contains_key(&self, path: &str) -> (r: bool)
        requires
            self.wf(),
        ensures
            r == self@.contains_key(path_parts(path@)),
    {
        self.find(path).is_some()
    }

    /// Whether there is no value at all.
    pub fn is_empty(&self) -> (r: bool)
        requires
            self.wf(),
        ensures
            r == (self@ == Map::<Seq<Part>, V>::empty()),
    {
        if self.entries.len() == 0 {
            assert(self@ =~= Map::empty());
            true
        } else {
            proof {
                self.lemma_entry(0);
            }
            false
        }
    }

    /// Takes away the value at a path.
    pub fn remove(&mut self, path: &str) -> (r: Option<V>)
        requires
            old(self).wf(),
        ensures
            final(self)@ == old(self)@.remove(path_parts(path@)),
            final(self).wf(),
            match r {
                Some(v) => old(self)@.contains_key(path_parts(path@)) && v
                    == old(self)@[path_parts(path@)],
                None => !old(self)@.contains_key(path_parts(path@)),
            },
    {
        let ghost key = path_parts(path@);
        let ghost before = self.entries@;
        let ghost map = self@;
        match self.find(path) {
            Some(i) => {
                let (_, v) = self.entries.remove(i);
                proof {
                    let after = self.entries@;
                    assert(after == before.remove(i as int));
                    assert forall|a: int, b: int, k: Seq<Part>|
                        holds_key(after, a, k) && holds_key(after, b, k) implies a == b by {
                        let x: int = if a < i { a } else { a + 1 };
                        let y: int = if b < i { b } else { b + 1 };
                        assert(holds_key(before, x, k));
                        assert(holds_key(before, y, k));
                    }
                    assert forall|k: Seq<Part>| #[trigger]
                        self@.contains_key(k) <==> map.remove(key).contains_key(k) by {
                        if self@.contains_key(k) {
                            let a = choose|a: int| holds_key(after, a, k);
                            let x: int = if a < i { a } else { a + 1 };
                            assert(holds_key(before, x, k));
                            assert(holds_key(before, i as int, key));
                        }
                        if map.contains_key(k) && k != key {
                            let x = choose|x: int| holds_key(before, x, k);
                            let a: int = if x < i { x } else { x - 1 };
                            assert(holds_key(after, a, k));
                        }
                    }
                    assert forall|k: Seq<Part>| #[trigger] self@.contains_key(k) implies self@[k]
                        == map[k] by {
                        let a = choose|a: int| holds_key(after, a, k);
                        let x: int = if a < i { a } else { a + 1 };
                        assert(holds_key(before, x, k));
                        let y = choose|y: int| holds_key(before, y, k);
                        assert(holds_key(before, y, k));
                    }
                    assert(self@ =~= map.remove(key));
                }
                Some(v)
            },
            None => {
                assert(self@ =~= map.remove(key));
                None
            },
        }
    }

    /// Puts a value at a path.
    pub fn insert(&mut self, path: &str, v: V)
        requires
            old(self).wf(),
        ensures
            final(self)@ == old(self)@.insert(path_parts(path@), v),
            final(self).wf(),
    {
        let ghost key = path_parts(path@);
        let ghost map = self@;
        self.remove(path);
        let ghost before = self.entries@;
        let ghost without = self@;
        assert(without == map.remove(key));
        self.entries.push((copy(path), v));
        proof {
            let after = self.entries@;
            let n = before.len() as int;
            assert forall|a: int, b: int, k: Seq<Part>|
                holds_key(after, a, k) && holds_key(after, b, k) implies a == b by {
                if a < n && b < n {
                    assert(holds_key(before, a, k) && holds_key(before, b, k));
                } else if a < n {
                    assert(holds_key(before, a, key));
                    assert(without.contains_key(key));
                } else if b < n {
                    assert(holds_key(before, b, key));
                    assert(without.contains_key(key));
                }
            }
            assert(holds_key(after, n, key));
            assert forall|k: Seq<Part>| #[trigger]
                self@.contains_key(k) <==> map.insert(key, v).contains_key(k) by {
                if self@.contains_key(k) {
                    let a = choose|a: int| holds_key(after, a, k);
                    if a < n {
                        assert(holds_key(before, a, k));
                        assert(without.contains_key(k));
                    }
                }
                if without.contains_key(k) {
                    let x = choose|x: int| holds_key(before, x, k);
                    assert(holds_key(after, x, k));
                }
            }
            assert forall|k: Seq<Part>| #[trigger] self@.contains_key(k) implies self@[k]
                == map.insert(key, v)[k] by {
                let a = choose|a: int| holds_key(after, a, k);
                assert(holds_key(after, a, k));
                if k != key {
                    assert(holds_key(before, a, k));
                    let y = choose|y: int| holds_key(before, y, k);
                    assert(holds_key(before, y, k));
                    assert(holds_key(after, y, k));
                    assert(without.contains_key(k));
                    assert(without[k] == before[y].1);
                } else {
                    assert(holds_key(after, n, k));
                }
            }
            assert(self@ =~= map.insert(key, v));
        }
    }
}

} // verus!
