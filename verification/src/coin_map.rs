//! A small map from names to values, kept in insertion order.

use vstd::prelude::*;
use crate::text::str_eq;

verus! {

/// One name and what it maps to.
pub struct CoinEntry<V> {
    pub key: String,
    pub value: V,
}

/// A map keyed by name. No name occurs twice; entries keep the order in
/// which their names first arrived.
pub struct CoinMap<V> {
    pub entries: Vec<CoinEntry<V>>,
}

impl<V> CoinMap<V> {
    /// No two entries share a name.
    pub open spec fn wf(&self) -> bool {
        forall|i: int, j: int|
            0 <= i < j < self.entries@.len() ==> (#[trigger] self.entries@[i]).key@ != (
            #[trigger] self.entries@[j]).key@
    }

    pub open spec fn has(&self, k: Seq<char>) -> bool {
        exists|i: int| 0 <= i < self.entries@.len() && (#[trigger] self.entries@[i]).key@ == k
    }

    /// Position of a name that the map holds.
    pub open spec fn pos(&self, k: Seq<char>) -> int {
        choose|i: int| 0 <= i < self.entries@.len() && (#[trigger] self.entries@[i]).key@ == k
    }

    /// The mapping itself.
    pub open spec fn view(&self) -> Map<Seq<char>, V> {
        Map::new(|k: Seq<char>| self.has(k), |k: Seq<char>| self.entries@[self.pos(k)].value)
    }

    /// In a well-formed map the entry at `i` is the one its name maps to.
    pub proof fn lemma_entry(&self, i: int)
        requires
            self.wf(),
            0 <= i < self.entries@.len(),
        ensures
            self.has(self.entries@[i].key@),
            self.pos(self.entries@[i].key@) == i,
            self@.contains_key(self.entries@[i].key@),
            self@[self.entries@[i].key@] == self.entries@[i].value,
    {
        let k = self.entries@[i].key@;
        assert(self.has(k));
        let j = self.pos(k);
        assert(0 <= j < self.entries@.len() && self.entries@[j].key@ == k);
        if j != i {
            if j < i {
                assert(self.entries@[j].key@ != self.entries@[i].key@);
            } else {
                assert(self.entries@[i].key@ != self.entries@[j].key@);
            }
        }
    }

    /// An empty map.
    pub fn new() -> (m: Self)
        ensures
            m.wf(),
            m@ == Map::<Seq<char>, V>::empty(),
            m.entries@.len() == 0,
    {
        let m = CoinMap { entries: Vec::new() };
        assert(m@ =~= Map::<Seq<char>, V>::empty());
        m
    }

    /// Number of names in the map.
    pub fn len(&self) -> (n: usize)
        ensures
            n == self.entries@.len(),
    {
        self.entries.len()
    }

    /// Position of a name, if the map holds it.
    pub fn find(&self, key: &str) -> (r: Option<usize>)
        ensures
            match r {
                Some(i) => i < self.entries@.len() && self.entries@[i as int].key@ == key@,
                None => !self.has(key@),
            },
    {
        let mut i: usize = 0;
        while i < self.entries.len()
            invariant
                i <= self.entries@.len(),
                forall|j: int| 0 <= j < i ==> (#[trigger] self.entries@[j]).key@ != key@,
            decreases self.entries@.len() - i,
        {
            if str_eq(self.entries[i].key.as_str(), key) {
                return Some(i);
            }
            i += 1;
        }
        None
    }

    /// Whether the map holds a name.
    pub fn contains_key(&self, key: &str) -> (r: bool)
        requires
            self.wf(),
        ensures
            r == self@.contains_key(key@),
    {
        self.find(key).is_some()
    }

    /// The value a name maps to.
    pub fn get(&self, key: &str) -> (r: Option<&V>)
        requires
            self.wf(),
        ensures
            match r {
                Some(v) => self@.contains_key(key@) && *v == self@[key@],
                None => !self@.contains_key(key@),
            },
    {
        match self.find(key) {
            Some(i) => {
                proof {
                    self.lemma_entry(i as int);
                }
                Some(&self.entries[i].value)
            },
            None => None,
        }
    }

    /// Maps `key` to `value`, replacing what it mapped to before.
    pub fn insert(&mut self, key: &str, value: V)
        requires
            old(self).wf(),
        ensures
            final(self).wf(),
            final(self)@ == old(self)@.insert(key@, value),
            old(self)@.contains_key(key@) ==> final(self).entries@.len() == old(self).entries@.len(),
            !old(self)@.contains_key(key@) ==> final(self).entries@ == old(self).entries@.push(
                final(self).entries@.last(),
            ),
    {
        let ghost before = *self;
        let found = self.find(key);
        let entry = CoinEntry { key: String::from_str(key), value };
        match found {
            Some(i) => {
                self.entries.set(i, entry);
                proof {
                    assert(self.wf()) by {
                        assert forall|a: int, b: int| 0 <= a < b < self.entries@.len() implies (
                        #[trigger] self.entries@[a]).key@ != (#[trigger] self.entries@[b]).key@ by {
                            assert(before.entries@[a].key@ != before.entries@[b].key@);
                        }
                    }
                    assert forall|k: Seq<char>| #[trigger] self.has(k) == (before.has(k) || k == key@) by {
                        if before.has(k) {
                            let j = before.pos(k);
                            assert(self.entries@[j].key@ == k);
                        }
                        if k == key@ {
                            assert(self.entries@[i as int].key@ == k);
                        }
                        if self.has(k) {
                            let j = self.pos(k);
                            assert(before.entries@[j].key@ == k);
                        }
                    }
                    assert forall|k: Seq<char>| self.has(k) implies #[trigger] self@[k]
                        == before@.insert(key@, value)[k] by {
                        let j = self.pos(k);
                        self.lemma_entry(j);
                        if k != key@ {
                            assert(j != i);
                            before.lemma_entry(j);
                        } else {
                            assert(self.entries@[i as int].key@ == k);
                            self.lemma_entry(i as int);
                        }
                    }
                    assert(self@ =~= before@.insert(key@, value));
                }
            },
            None => {
                self.entries.push(entry);
                proof {
                    let n = before.entries@.len() as int;
                    assert(self.wf()) by {
                        assert forall|a: int, b: int| 0 <= a < b < self.entries@.len() implies (
                        #[trigger] self.entries@[a]).key@ != (#[trigger] self.entries@[b]).key@ by {
                            if b < n {
                                assert(before.entries@[a].key@ != before.entries@[b].key@);
                            } else {
                                assert(before.entries@[a].key@ != key@);
                            }
                        }
                    }
                    assert forall|k: Seq<char>| #[trigger] self.has(k) == (before.has(k) || k == key@) by {
                        if before.has(k) {
                            let j = before.pos(k);
                            assert(self.entries@[j].key@ == k);
                        }
                        if k == key@ {
                            assert(self.entries@[n].key@ == k);
                        }
                        if self.has(k) {
                            let j = self.pos(k);
                            if j < n {
                                assert(before.entries@[j].key@ == k);
                            }
                        }
                    }
                    assert forall|k: Seq<char>| self.has(k) implies #[trigger] self@[k]
                        == before@.insert(key@, value)[k] by {
                        let j = self.pos(k);
                        self.lemma_entry(j);
                        if k != key@ {
                            assert(j < n);
                            before.lemma_entry(j);
                        } else {
                            self.lemma_entry(n);
                        }
                    }
                    assert(self@ =~= before@.insert(key@, value));
                    assert(self.entries@ =~= before.entries@.push(self.entries@.last()));
                }
            },
        }
    }

    /// Takes a name out of the map and hands back what it mapped to.
    pub fn remove(&mut self, key: &str) -> (r: Option<V>)
        requires
            old(self).wf(),
        ensures
            final(self).wf(),
            final(self)@ == old(self)@.remove(key@),
            match r {
                Some(v) => old(self)@.contains_key(key@) && v == old(self)@[key@],
                None => !old(self)@.contains_key(key@),
            },
    {
        let ghost before = *self;
        match self.find(key) {
            Some(i) => {
                proof {
                    before.lemma_entry(i as int);
                }
                let e = self.entries.remove(i);
                proof {
                    assert forall|a: int| 0 <= a < self.entries@.len() implies #[trigger] self.entries@[a]
                        == before.entries@[if a < i {
                        a
                    } else {
                        a + 1
                    }] by {}
                    assert(self.wf()) by {
                        assert forall|a: int, b: int| 0 <= a < b < self.entries@.len() implies (
                        #[trigger] self.entries@[a]).key@ != (#[trigger] self.entries@[b]).key@ by {
                            let a0 = if a < i {
                                a
                            } else {
                                a + 1
                            };
                            let b0 = if b < i {
                                b
                            } else {
                                b + 1
                            };
                            assert(before.entries@[a0].key@ != before.entries@[b0].key@);
                        }
                    }
                    assert forall|k: Seq<char>| #[trigger] self.has(k) == (before.has(k) && k != key@) by {
                        if before.has(k) && k != key@ {
                            let j = before.pos(k);
                            let j1 = if j < i {
                                j
                            } else {
                                j - 1
                            };
                            assert(self.entries@[j1].key@ == k);
                        }
                        if self.has(k) {
                            let j = self.pos(k);
                            let j0 = if j < i {
                                j
                            } else {
                                j + 1
                            };
                            assert(before.entries@[j0].key@ == k);
                            if j0 < i {
                                assert(before.entries@[j0].key@ != before.entries@[i as int].key@);
                            } else {
                                assert(before.entries@[i as int].key@ != before.entries@[j0].key@);
                            }
                        }
                    }
                    assert forall|k: Seq<char>| self.has(k) implies #[trigger] self@[k]
                        == before@.remove(key@)[k] by {
                        let j = self.pos(k);
                        self.lemma_entry(j);
                        let j0 = if j < i {
                            j
                        } else {
                            j + 1
                        };
                        before.lemma_entry(j0);
                    }
                    assert(self@ =~= before@.remove(key@));
                }
                Some(e.value)
            },
            None => {
                proof {
                    assert(self@ =~= before@.remove(key@));
                }
                None
            },
        }
    }

    /// The name of the entry at `i`.
    pub fn key_at(&self, i: usize) -> (k: &String)
        requires
            i < self.entries@.len(),
        ensures
            *k == self.entries@[i as int].key,
    {
        &self.entries[i].key
    }

    /// The value of the entry at `i`.
    pub fn value_at(&self, i: usize) -> (v: &V)
        requires
            i < self.entries@.len(),
        ensures
            *v == self.entries@[i as int].value,
    {
        &self.entries[i].value
    }
}

} // verus!
