//! A map keyed by paths.

use crate::paths::{components, same_path};
use vstd::prelude::*;

verus! {

/// A map from paths to values, for the few entries that a session has. Paths
/// with the same components are the same: `/m` and `/m/` share an entry.
pub struct PathMap<V> {
    entries: Vec<(String, V)>,
}

impl<V> PathMap<V> {
    /// No path has two entries.
    #[verifier::type_invariant]
    pub closed spec fn distinct(self) -> bool {
        forall|i: int, j: int|
            0 <= i < j < self.entries@.len() ==> components((#[trigger] self.entries@[i]).0@)
                != components((#[trigger] self.entries@[j]).0@)
    }

    spec fn holds(self, key: Seq<Seq<char>>, i: int) -> bool {
        0 <= i < self.entries@.len() && components(self.entries@[i].0@) == key
    }

    /// The entries of the map.
    pub closed spec fn view(self) -> Map<Seq<Seq<char>>, V> {
        Map::new(
            |key: Seq<Seq<char>>| exists|i: int| self.holds(key, i),
            |key: Seq<Seq<char>>| self.entries@[choose|i: int| self.holds(key, i)].1,
        )
    }

    /// The number of entries.
    pub closed spec fn size(self) -> nat {
        self.entries@.len()
    }

    proof fn entry_is_viewed(self, i: int)
        requires
            self.distinct(),
            0 <= i < self.entries@.len(),
        ensures
            self@.dom().contains(components(self.entries@[i].0@)),
            self@[components(self.entries@[i].0@)] == self.entries@[i].1,
    {
        let key = components(self.entries@[i].0@);
        assert(self.holds(key, i));
        let k = choose|k: int| self.holds(key, k);
        assert(k == i);
    }

    proof fn viewed_has_entry(self, key: Seq<Seq<char>>) -> (i: int)
        requires
            self.distinct(),
            self@.dom().contains(key),
        ensures
            self.holds(key, i),
            self@[key] == self.entries@[i].1,
    {
        choose|i: int| self.holds(key, i)
    }

    /// The size of the map is the number of paths it holds.
    pub proof fn size_is_domain_size(&self)
        requires
            self.distinct(),
        ensures
            self@.dom().finite(),
            self@.dom().len() == self.size(),
    {
        let keys = Seq::new(self.entries@.len(), |i: int| components(self.entries@[i].0@));
        assert(keys.no_duplicates());
        keys.unique_seq_to_set();
        assert(self@.dom() =~= keys.to_set()) by {
            assert forall|key: Seq<Seq<char>>| self@.dom().contains(key) implies keys.to_set().contains(
                key,
            ) by {
                let i = self.viewed_has_entry(key);
                assert(keys[i] == key);
            }
            assert forall|key: Seq<Seq<char>>| keys.to_set().contains(key) implies self@.dom().contains(
                key,
            ) by {
                let i = choose|i: int| 0 <= i < keys.len() && keys[i] == key;
                self.entry_is_viewed(i);
            }
        }
    }

    /// An empty map.
    pub fn new() -> (r: Self)
        ensures
            r@ == Map::<Seq<Seq<char>>, V>::empty(),
            r.size() == 0,
    {
        let r = PathMap { entries: Vec::new() };
        assert(r@ =~= Map::<Seq<Seq<char>>, V>::empty());
        r
    }

    fn position(&self, key: &str) -> (r: Option<usize>)
        ensures
            match r {
                Some(i) => self.holds(components(key@), i as int) && self@.dom().contains(components(key@)) && self@[components(key@)]
                    == self.entries@[i as int].1,
                None => !self@.dom().contains(components(key@)),
            },
    {
        proof {
            use_type_invariant(&*self);
        }
        let mut i: usize = 0;
        while i < self.entries.len()
            invariant
                self.distinct(),
                i <= self.entries@.len(),
                forall|j: int| 0 <= j < i ==> !self.holds(components(key@), j),
            decreases self.entries@.len() - i,
        {
            if same_path(self.entries[i].0.as_str(), key) {
                proof {
                    self.entry_is_viewed(i as int);
                }
                return Some(i);
            }
            i += 1;
        }
        proof {
            if self@.dom().contains(components(key@)) {
                let k = self.viewed_has_entry(components(key@));
            }
        }
        None
    }

    /// The value at `key`.
    pub fn get(&self, key: &str) -> (r: Option<&V>)
        ensures
            match r {
                Some(v) => self@.dom().contains(components(key@)) && self@[components(key@)] == *v,
                None => !self@.dom().contains(components(key@)),
            },
    {
        match self.position(key) {
            Some(i) => Some(&self.entries[i].1),
            None => None,
        }
    }

    /// Whether there is a value at `key`.
    pub fn contains_key(&self, key: &str) -> (r: bool)
        ensures
            r == self@.dom().contains(components(key@)),
    {
        self.position(key).is_some()
    }

    /// The number of entries.
    pub fn len(&self) -> (r: usize)
        ensures
            r == self.size(),
            self@.dom().finite(),
            r == self@.dom().len(),
    {
        proof {
            use_type_invariant(&*self);
            self.size_is_domain_size();
        }
        self.entries.len()
    }

    /// Removes the value at `key` and returns it.
    pub fn remove(&mut self, key: &str) -> (r: Option<V>)
        ensures
            final(self)@ == old(self)@.remove(components(key@)),
            match r {
                Some(v) => old(self)@.dom().contains(components(key@)) && old(self)@[components(key@)] == v,
                None => !old(self)@.dom().contains(components(key@)),
            },
    {
        proof {
            use_type_invariant(&*self);
        }
        match self.position(key) {
            Some(i) => {
                let ghost before = *self;
                let mut entries: Vec<(String, V)> = Vec::new();
                std::mem::swap(&mut self.entries, &mut entries);
                let (k, v) = entries.remove(i);
                self.entries = entries;
                proof {
                    let after = *self;
                    assert(after.distinct());
                    assert forall|x: Seq<Seq<char>>| #[trigger]
                        after@.dom().contains(x) implies before@.remove(components(key@)).dom().contains(x)
                        && after@[x] == before@.remove(components(key@))[x] by {
                        let j = after.viewed_has_entry(x);
                        before.entry_is_viewed(
                            if j < i {
                                j
                            } else {
                                j + 1
                            },
                        );
                    }
                    assert forall|x: Seq<Seq<char>>| #[trigger]
                        before@.remove(components(key@)).dom().contains(x) implies after@.dom().contains(x) by {
                        let j = before.viewed_has_entry(x);
                        after.entry_is_viewed(
                            if j < i {
                                j
                            } else {
                                j - 1
                            },
                        );
                    }
                    assert(after@ =~= before@.remove(components(key@)));
                }
                Some(v)
            },
            None => {
                assert(self@ =~= old(self)@.remove(components(key@)));
                None
            },
        }
    }

    /// Sets the value at `key`, and returns what was there.
    pub fn insert(&mut self, key: String, value: V) -> (r: Option<V>)
        ensures
            final(self)@ == old(self)@.insert(components(key@), value),
            match r {
                Some(v) => old(self)@.dom().contains(components(key@)) && old(self)@[components(key@)] == v,
                None => !old(self)@.dom().contains(components(key@)),
            },
    {
        let r = self.remove(key.as_str());
        let ghost before = *self;
        let ghost key_view = components(key@);
        proof {
            use_type_invariant(&*self);
            assert forall|i: int| 0 <= i < self.entries@.len() implies components(
                (#[trigger] self.entries@[i]).0@,
            ) != key_view by {
                self.entry_is_viewed(i);
            }
        }
        let mut entries: Vec<(String, V)> = Vec::new();
        std::mem::swap(&mut self.entries, &mut entries);
        entries.push((key, value));
        self.entries = entries;
        proof {
            let after = *self;
            assert forall|x: Seq<Seq<char>>| #[trigger]
                after@.dom().contains(x) implies before@.insert(key_view, value).dom().contains(x)
                && after@[x] == before@.insert(key_view, value)[x] by {
                let j = after.viewed_has_entry(x);
                if j < before.entries@.len() {
                    before.entry_is_viewed(j);
                }
            }
            assert forall|x: Seq<Seq<char>>| #[trigger]
                before@.insert(key_view, value).dom().contains(x) implies after@.dom().contains(
                x,
            ) by {
                if x == key_view {
                    after.entry_is_viewed(before.entries@.len() as int);
                } else {
                    let j = before.viewed_has_entry(x);
                    after.entry_is_viewed(j);
                }
            }
            assert(after@ =~= before@.insert(key_view, value));
            assert(after@ =~= old(self)@.insert(key_view, value));
        }
        r
    }

    /// The components of the paths of the map, one path per entry.
    pub closed spec fn keys(self) -> Seq<Seq<Seq<char>>> {
        Seq::new(self.entries@.len(), |i: int| components(self.entries@[i].0@))
    }

    /// The path and the value of the `i`-th entry.
    pub fn entry(&self, i: usize) -> (r: (&str, &V))
        requires
            i < self.size(),
        ensures
            self.keys().len() == self.size(),
            components(r.0@) == self.keys()[i as int],
            self@.dom().contains(components(r.0@)),
            self@[components(r.0@)] == *r.1,
    {
        proof {
            use_type_invariant(&*self);
            self.entry_is_viewed(i as int);
        }
        (self.entries[i].0.as_str(), &self.entries[i].1)
    }

    /// Every path of the map has an entry.
    pub proof fn keys_are_the_domain(&self, key: Seq<Seq<char>>)
        requires
            self.distinct(),
        ensures
            self@.dom().contains(key) <==> self.keys().contains(key),
            self.keys().len() == self.size(),
    {
        if self@.dom().contains(key) {
            let i = self.viewed_has_entry(key);
            assert(self.keys()[i] == key);
        }
        if self.keys().contains(key) {
            let i = choose|i: int| 0 <= i < self.keys().len() && self.keys()[i] == key;
            self.entry_is_viewed(i);
        }
    }
}

} // verus!
