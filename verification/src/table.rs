//! An association list whose keys are distinct.
use crate::text::same_text;
use vstd::prelude::*;

verus! {

/// A key that can be compared by what it stands for.
pub trait Key: View + Sized {
    /// Whether two keys stand for the same thing.
    fn same(&self, other: &Self) -> (same: bool)
        ensures
            same == (self@ == other@),
    ;
}

impl Key for String {
    fn same(&self, other: &String) -> (same: bool) {
        same_text(self.as_str(), other.as_str())
    }
}

impl Key for u64 {
    fn same(&self, other: &u64) -> (same: bool) {
        *self == *other
    }
}

/// A map from keys to values, kept in the order in which keys were first inserted.
pub struct Table<K, V> {
    entries: Vec<(K, V)>,
}

/// The index at which `key` stands in `entries`, if any.
pub open spec fn position<K: View, V>(entries: Seq<(K, V)>, key: K::V) -> int {
    choose|i: int| 0 <= i < entries.len() && entries[i].0@ == key
}

/// `key` stands in `entries`.
pub open spec fn holds_key<K: View, V>(entries: Seq<(K, V)>, key: K::V) -> bool {
    exists|i: int| 0 <= i < entries.len() && #[trigger] entries[i].0@ == key
}

impl<K: View, V: View> View for Table<K, V> {
    type V = Map<K::V, V::V>;

    closed spec fn view(&self) -> Map<K::V, V::V> {
        Map::new(
            |key: K::V| holds_key(self.entries@, key),
            |key: K::V| self.entries@[position(self.entries@, key)].1@,
        )
    }
}

impl<K: Key, V: View> Table<K, V> {
    /// No key occurs twice.
    pub closed spec fn wf(&self) -> bool {
        forall|i: int, j: int|
            0 <= i < j < self.entries@.len() ==> #[trigger] self.entries@[i].0@
                != #[trigger] self.entries@[j].0@
    }

    /// The keys, in order.
    pub closed spec fn keys(&self) -> Seq<K::V> {
        self.entries@.map_values(|entry: (K, V)| entry.0@)
    }

    proof fn lemma_at(&self, i: int)
        requires
            self.wf(),
            0 <= i < self.entries@.len(),
        ensures
            self@.contains_key(self.entries@[i].0@),
            self@[self.entries@[i].0@] == self.entries@[i].1@,
            self.keys().len() == self.entries@.len(),
            self.keys()[i] == self.entries@[i].0@,
    {
        let key = self.entries@[i].0@;
        assert(holds_key(self.entries@, key));
        let p = position(self.entries@, key);
        assert(self.entries@[p].0@ == key);
        assert(p == i);
    }

    /// The keys listed are the keys of the map, each once.
    pub proof fn keys_are_the_domain(&self)
        requires
            self.wf(),
        ensures
            self.keys().no_duplicates(),
            self.keys().to_set() == self@.dom(),
            forall|key: K::V| #[trigger] self@.contains_key(key) <==> self.keys().contains(key),
    {
        assert forall|key: K::V| #[trigger] self@.contains_key(key) <==> self.keys().contains(
            key,
        ) by {
            if self@.contains_key(key) {
                let p = position(self.entries@, key);
                assert(self.keys()[p] == key);
            }
            if self.keys().contains(key) {
                let i = choose|i: int| 0 <= i < self.keys().len() && self.keys()[i] == key;
                assert(self.entries@[i].0@ == key);
            }
        }
        assert(self.keys().to_set() =~= self@.dom());
    }

    /// An empty table.
    pub fn new() -> (table: Table<K, V>)
        ensures
            table.wf(),
            table@ == Map::<K::V, V::V>::empty(),
            table.keys() == Seq::<K::V>::empty(),
    {
        let table = Table { entries: Vec::new() };
        assert(table@ =~= Map::<K::V, V::V>::empty());
        assert(table.keys() =~= Seq::<K::V>::empty());
        table
    }

    /// How many keys there are.
    pub fn len(&self) -> (len: usize)
        ensures
            len == self.keys().len(),
    {
        self.entries.len()
    }

    /// Where `key` stands.
    pub fn find(&self, key: &K) -> (at: Option<usize>)
        requires
            self.wf(),
        ensures
            at is Some <==> self@.contains_key(key@),
            at is Some ==> at->0 < self.keys().len() && self.keys()[at->0 as int] == key@,
    {
        let mut i: usize = 0;
        while i < self.entries.len()
            invariant
                i <= self.entries@.len(),
                forall|j: int| 0 <= j < i ==> #[trigger] self.entries@[j].0@ != key@,
            decreases self.entries.len() - i,
        {
            if self.entries[i].0.same(key) {
                proof {
                    assert(self.entries@[i as int].0@ == key@);
                    assert(holds_key(self.entries@, key@));
                }
                return Some(i);
            }
            i += 1;
        }
        None
    }

    /// Whether `key` is there.
    pub fn contains_key(&self, key: &K) -> (found: bool)
        requires
            self.wf(),
        ensures
            found == self@.contains_key(key@),
    {
        self.find(key).is_some()
    }

    /// The key at position `at`.
    pub fn key_at(&self, at: usize) -> (key: &K)
        requires
            self.wf(),
            at < self.keys().len(),
        ensures
            key@ == self.keys()[at as int],
            self@.contains_key(key@),
    {
        proof {
            self.lemma_at(at as int);
        }
        &self.entries[at].0
    }

    /// The value at position `at`.
    pub fn value_at(&self, at: usize) -> (value: &V)
        requires
            self.wf(),
            at < self.keys().len(),
        ensures
            value@ == self@[self.keys()[at as int]],
            self@.contains_key(self.keys()[at as int]),
    {
        proof {
            self.lemma_at(at as int);
        }
        &self.entries[at].1
    }

    /// The value of `key`.
    pub fn get(&self, key: &K) -> (value: Option<&V>)
        requires
            self.wf(),
        ensures
            value is Some <==> self@.contains_key(key@),
            value is Some ==> value->0@ == self@[key@],
    {
        match self.find(key) {
            Some(at) => Some(self.value_at(at)),
            None => None,
        }
    }

    /// The value at position `at`, to be changed.
    pub fn value_at_mut(&mut self, at: usize) -> (value: &mut V)
        requires
            old(self).wf(),
            at < old(self).keys().len(),
        ensures
            value@ == old(self)@[old(self).keys()[at as int]],
            final(self).wf(),
            final(self).keys() == old(self).keys(),
            final(self)@ == old(self)@.insert(old(self).keys()[at as int], final(value)@),
    {
        let ghost before = *self;
        let ghost key = self.keys()[at as int];
        proof {
            before.lemma_at(at as int);
        }
        proof {
            assert forall|after: Table<K, V>, value: V|
                #![trigger after.view(), before@.insert(key, value@)]
                after.entries@ == before.entries@.update(
                    at as int,
                    (before.entries@[at as int].0, value),
                ) implies after.wf() && after.keys() == before.keys() && after@ == before@.insert(
                key,
                value@,
            ) by {
                assert forall|i: int|
                    0 <= i < after.entries@.len() implies #[trigger] after.entries@[i].0
                    == before.entries@[i].0 by {}
                after.lemma_same_keys(before, key, value);
            }
        }
        &mut self.entries[at].1
    }

    /// Replaces the value at position `at`.
    pub fn set_at(&mut self, at: usize, value: V)
        requires
            old(self).wf(),
            at < old(self).keys().len(),
        ensures
            final(self).wf(),
            final(self).keys() == old(self).keys(),
            final(self)@ == old(self)@.insert(old(self).keys()[at as int], value@),
    {
        let slot = self.value_at_mut(at);
        *slot = value;
    }

    proof fn lemma_same_keys(&self, before: Table<K, V>, key: K::V, value: V)
        requires
            self.wf(),
            before.wf(),
            self.entries@.len() == before.entries@.len(),
            forall|i: int|
                0 <= i < self.entries@.len() ==> #[trigger] self.entries@[i].0
                    == before.entries@[i].0,
            forall|i: int|
                0 <= i < self.entries@.len() ==> (#[trigger] self.entries@[i]).1 == if self.entries@[i].0@ == key {
                    value
                } else {
                    before.entries@[i].1
                },
            holds_key(before.entries@, key),
        ensures
            self.keys() == before.keys(),
            self@ == before@.insert(key, value@),
    {
        assert(self.keys() =~= before.keys());
        assert forall|k: K::V| self@.contains_key(k) <==> before@.insert(key, value@).contains_key(
            k,
        ) by {
            if self@.contains_key(k) {
                let p = position(self.entries@, k);
                assert(before.entries@[p].0@ == k);
            }
            if before@.contains_key(k) {
                let p = position(before.entries@, k);
                assert(self.entries@[p].0@ == k);
            }
        }
        assert forall|k: K::V| self@.contains_key(k) implies self@[k] == before@.insert(
            key,
            value@,
        )[k] by {
            let p = position(self.entries@, k);
            self.lemma_at(p);
            before.lemma_at(p);
        }
        assert(self@ =~= before@.insert(key, value@));
    }

    /// Gives `key` a value, in place of the one it had.
    pub fn insert(&mut self, key: K, value: V)
        requires
            old(self).wf(),
        ensures
            final(self).wf(),
            final(self)@ == old(self)@.insert(key@, value@),
            old(self)@.contains_key(key@) ==> final(self).keys() == old(self).keys(),
            !old(self)@.contains_key(key@) ==> final(self).keys() == old(self).keys().push(key@),
    {
        match self.find(&key) {
            Some(at) => self.set_at(at, value),
            None => {
                let ghost before = *self;
                self.entries.push((key, value));
                proof {
                    assert forall|i: int|
                        0 <= i < before.entries@.len() implies #[trigger] self.entries@[i].0@
                        != key@ by {
                        assert(before.entries@[i].0@ != key@);
                    }
                    assert(self.wf());
                    assert(self.keys() =~= before.keys().push(key@));
                    assert forall|k: K::V|
                        self@.contains_key(k) <==> before@.insert(key@, value@).contains_key(k) by {
                        if self@.contains_key(k) {
                            let p = position(self.entries@, k);
                            if p < before.entries@.len() {
                                assert(before.entries@[p].0@ == k);
                            }
                        }
                        if before@.contains_key(k) {
                            let p = position(before.entries@, k);
                            assert(self.entries@[p].0@ == k);
                        }
                        if k == key@ {
                            assert(self.entries@[before.entries@.len() as int].0@ == k);
                        }
                    }
                    assert forall|k: K::V| self@.contains_key(k) implies self@[k] == before@.insert(
                        key@,
                        value@,
                    )[k] by {
                        let p = position(self.entries@, k);
                        self.lemma_at(p);
                        if p < before.entries@.len() {
                            before.lemma_at(p);
                        }
                    }
                    assert(self@ =~= before@.insert(key@, value@));
                }
            },
        }
    }

    /// Takes the entry at position `at` out.
    pub fn remove_at(&mut self, at: usize) -> (entry: (K, V))
        requires
            old(self).wf(),
            at < old(self).keys().len(),
        ensures
            final(self).wf(),
            entry.0@ == old(self).keys()[at as int],
            entry.1@ == old(self)@[old(self).keys()[at as int]],
            final(self)@ == old(self)@.remove(old(self).keys()[at as int]),
            final(self).keys() == old(self).keys().remove(at as int),
    {
        let ghost before = *self;
        let ghost key = self.keys()[at as int];
        proof {
            before.lemma_at(at as int);
        }
        let entry = self.entries.remove(at);
        proof {
            assert forall|i: int| 0 <= i < self.entries@.len() implies #[trigger] self.entries@[i]
                == before.entries@[if i < at {
                i
            } else {
                i + 1
            }] by {}
            assert(self.wf());
            assert(self.keys() =~= before.keys().remove(at as int));
            assert forall|k: K::V| self@.contains_key(k) <==> before@.remove(key).contains_key(
                k,
            ) by {
                if self@.contains_key(k) {
                    let p = position(self.entries@, k);
                    let q = if p < at {
                        p
                    } else {
                        p + 1
                    };
                    assert(before.entries@[q].0@ == k);
                }
                if before@.remove(key).contains_key(k) {
                    let p = position(before.entries@, k);
                    let q = if p < at {
                        p
                    } else {
                        p - 1
                    };
                    assert(self.entries@[q].0@ == k);
                }
            }
            assert forall|k: K::V| self@.contains_key(k) implies self@[k] == before@.remove(
                key,
            )[k] by {
                let p = position(self.entries@, k);
                self.lemma_at(p);
                before.lemma_at(
                    if p < at {
                        p
                    } else {
                        p + 1
                    },
                );
            }
            assert(self@ =~= before@.remove(key));
        }
        entry
    }

    /// Takes `key` and its value out, if they are there.
    pub fn remove(&mut self, key: &K) -> (value: Option<V>)
        requires
            old(self).wf(),
        ensures
            final(self).wf(),
            final(self)@ == old(self)@.remove(key@),
            value is Some <==> old(self)@.contains_key(key@),
            value is Some ==> value->0@ == old(self)@[key@],
    {
        match self.find(key) {
            Some(at) => {
                let (_, value) = self.remove_at(at);
                Some(value)
            },
            None => {
                assert(self@.remove(key@) =~= self@);
                None
            },
        }
    }

    /// Keeps the entries for which `keep` holds a `true` at the same position.
    pub fn retain(&mut self, keep: &Vec<bool>)
        requires
            old(self).wf(),
            keep@.len() == old(self).keys().len(),
        ensures
            final(self).wf(),
            final(self)@ == old(self)@.restrict(
                Set::new(
                    |key: K::V|
                        exists|i: int|
                            0 <= i < keep@.len() && #[trigger] old(self).keys()[i] == key && keep@[i],
                ),
            ),
    {
        let ghost before = *self;
        let ghost keys = self.keys();
        proof {
            before.keys_are_the_domain();
        }
        let mut left: usize = keep.len();
        while left > 0
            invariant
                left <= keep@.len(),
                keep@.len() == keys.len(),
                keys == before.keys(),
                keys.no_duplicates(),
                self.wf(),
                left <= self.keys().len(),
                self.keys().take(left as int) == keys.take(left as int),
                forall|key: K::V| #[trigger] self@.contains_key(key) ==> before@.contains_key(key)
                    && self@[key] == before@[key],
                forall|i: int|
                    0 <= i < keys.len() && (i < left || keep@[i]) ==> self@.contains_key(
                        #[trigger] keys[i],
                    ),
                forall|i: int|
                    left <= i < keys.len() && !keep@[i] ==> !self@.contains_key(
                        #[trigger] keys[i],
                    ),
            decreases left,
        {
            left = left - 1;
            let ghost now = self.keys();
            proof {
                assert(now.take(left + 1)[left as int] == keys.take(left + 1)[left as int]);
                assert(now[left as int] == keys[left as int]);
                assert(now.take(left as int) =~= now.take(left + 1).take(left as int));
                assert(keys.take(left as int) =~= keys.take(left + 1).take(left as int));
            }
            if !keep[left] {
                let _ = self.remove_at(left);
                assert(self.keys().take(left as int) =~= now.take(left as int));
            }
        }
        proof {
            let kept = Set::new(
                |key: K::V|
                    exists|i: int|
                        0 <= i < keep@.len() && #[trigger] before.keys()[i] == key && keep@[i],
            );
            assert forall|key: K::V| #[trigger] self@.contains_key(key) implies kept.contains(
                key,
            ) by {
                assert(before@.contains_key(key));
                let i = choose|i: int| 0 <= i < keys.len() && keys[i] == key;
                assert(self@.contains_key(keys[i]));
            }
            assert forall|key: K::V| before@.contains_key(key) && kept.contains(
                key,
            ) implies #[trigger] self@.contains_key(key) by {
                let i = choose|i: int|
                    0 <= i < keep@.len() && #[trigger] before.keys()[i] == key && keep@[i];
                assert(self@.contains_key(keys[i]));
            }
            assert(self@ =~= before@.restrict(kept));
        }
    }
}

} // verus!
