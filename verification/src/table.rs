//! A small map that keeps its entries in the order of their first insertion.

use crate::seqs::{lemma_filter_keeps_all, lemma_filter_out_one};
use vstd::prelude::*;

verus! {

/// What a type needs to serve as the key of a [`Table`].
pub trait TableKey: View + Sized {
    /// Whether both keys have the same mathematical content.
    fn same(&self, other: &Self) -> (same: bool)
        ensures
            same == (self@ == other@),
    ;

    /// A second key with the same mathematical content.
    fn duplicate(&self) -> (copy: Self)
        ensures
            copy@ == self@,
    ;
}

impl TableKey for String {
    fn same(&self, other: &Self) -> (same: bool) {
        *self == *other
    }

    fn duplicate(&self) -> (copy: Self) {
        self.clone()
    }
}

/// A map from keys to values, walked in the order in which keys first came in.
#[derive(Debug)]
pub struct Table<K, V> {
    entries: Vec<(K, V)>,
}

impl<K: TableKey, V> View for Table<K, V> {
    type V = Map<K::V, V>;

    closed spec fn view(&self) -> Map<K::V, V> {
        Map::new(
            |key: K::V| exists|i: int| self.holds_at(key, i),
            |key: K::V| self.entries@[choose|i: int| self.holds_at(key, i)].1,
        )
    }
}

impl<K: TableKey, V> Table<K, V> {
    spec fn holds_at(self, key: K::V, i: int) -> bool {
        0 <= i < self.entries@.len() && self.entries@[i].0@ == key
    }

    /// The keys in the order in which they came in.
    pub closed spec fn keys(self) -> Seq<K::V> {
        Seq::new(self.entries@.len(), |i: int| self.entries@[i].0@)
    }

    /// No key is held twice.
    pub closed spec fn wf(self) -> bool {
        forall|i: int, j: int|
            0 <= i < j < self.entries@.len() ==> #[trigger] self.entries@[i].0@
                != #[trigger] self.entries@[j].0@
    }

    proof fn lemma_entry(self, i: int)
        requires
            self.wf(),
            0 <= i < self.entries@.len(),
        ensures
            self@.contains_key(self.entries@[i].0@),
            self@[self.entries@[i].0@] == self.entries@[i].1,
    {
        let key = self.entries@[i].0@;
        assert(self.holds_at(key, i));
        let j = choose|j: int| self.holds_at(key, j);
        assert(self.holds_at(key, j));
        assert(i == j);
    }

    proof fn lemma_updated(self, after: Self, i: int, value: V)
        requires
            self.wf(),
            0 <= i < self.entries@.len(),
            after.entries@ == self.entries@.update(i, (self.entries@[i].0, value)),
        ensures
            after.wf(),
            after.keys() == self.keys(),
            after@ == self@.insert(self.entries@[i].0@, value),
    {
        let key = self.entries@[i].0@;
        assert(after.keys() =~= self.keys());
        assert forall|k: K::V| after@.contains_key(k) == self@.insert(key, value).contains_key(k) by {
            self.lemma_entry(i);
            self.lemma_keys();
            after.lemma_keys();
            assert(self.keys().contains(k) == after.keys().contains(k));
        }
        assert forall|k: K::V| after@.contains_key(k) implies after@[k] == self@.insert(
            key,
            value,
        )[k] by {
            let j = choose|j: int| after.holds_at(k, j);
            assert(after.holds_at(k, j));
            after.lemma_entry(j);
            self.lemma_entry(j);
        }
        assert(after@ =~= self@.insert(key, value));
    }

    proof fn lemma_pushed(self, after: Self, pushed: (K, V))
        requires
            self.wf(),
            !self@.contains_key(pushed.0@),
            after.entries@ == self.entries@.push(pushed),
        ensures
            after.wf(),
            after.keys() == self.keys().push(pushed.0@),
            after@ == self@.insert(pushed.0@, pushed.1),
    {
        let last = self.entries@.len() as int;
        assert(after.keys() =~= self.keys().push(pushed.0@));
        assert forall|i: int, j: int| 0 <= i < j < after.entries@.len() implies #[trigger] after.entries@[i].0@
            != #[trigger] after.entries@[j].0@ by {
            if j == last {
                self.lemma_entry(i);
            }
        }
        assert forall|k: K::V| after@.contains_key(k) == self@.insert(
            pushed.0@,
            pushed.1,
        ).contains_key(k) by {
            after.lemma_entry(last);
            self.lemma_keys();
            after.lemma_keys();
            if self.keys().contains(k) {
                let j = choose|j: int| 0 <= j < self.keys().len() && self.keys()[j] == k;
                assert(after.keys()[j] == k);
            }
            if after.keys().contains(k) && k != pushed.0@ {
                let j = choose|j: int| 0 <= j < after.keys().len() && after.keys()[j] == k;
                assert(self.keys()[j] == k);
            }
        }
        assert forall|k: K::V| after@.contains_key(k) implies after@[k] == self@.insert(
            pushed.0@,
            pushed.1,
        )[k] by {
            let j = choose|j: int| after.holds_at(k, j);
            assert(after.holds_at(k, j));
            after.lemma_entry(j);
            if j < last {
                self.lemma_entry(j);
            }
        }
        assert(after@ =~= self@.insert(pushed.0@, pushed.1));
    }

    proof fn lemma_removed(self, after: Self, i: int)
        requires
            self.wf(),
            0 <= i < self.entries@.len(),
            after.entries@ == self.entries@.remove(i),
        ensures
            after.wf(),
            after.keys() == self.keys().filter(|k: K::V| k != self.entries@[i].0@),
            after@ == self@.remove(self.entries@[i].0@),
    {
        let key = self.entries@[i].0@;
        self.lemma_keys();
        assert(self.keys()[i] == key);
        lemma_filter_out_one(self.keys(), i);
        assert(after.keys() =~= self.keys().remove(i));
        assert(after.wf()) by {
            assert forall|a: int, b: int| 0 <= a < b < after.entries@.len() implies #[trigger] after.entries@[a].0@
                != #[trigger] after.entries@[b].0@ by {
                let a2 = if a < i { a } else { a + 1 };
                let b2 = if b < i { b } else { b + 1 };
                assert(self.entries@[a2].0@ != self.entries@[b2].0@);
            }
        }
        assert forall|k: K::V| after@.contains_key(k) == self@.remove(key).contains_key(k) by {
            self.lemma_keys();
            after.lemma_keys();
            if self.keys().contains(k) && k != key {
                let j = choose|j: int| 0 <= j < self.keys().len() && self.keys()[j] == k;
                if j < i {
                    assert(after.keys()[j] == k);
                } else {
                    assert(after.keys()[j - 1] == k);
                }
            }
            if after.keys().contains(k) {
                let j = choose|j: int| 0 <= j < after.keys().len() && after.keys()[j] == k;
                if j < i {
                    assert(self.keys()[j] == k);
                } else {
                    assert(self.keys()[j + 1] == k);
                }
            }
        }
        assert forall|k: K::V| after@.contains_key(k) implies after@[k] == self@.remove(key)[k] by {
            let j = choose|j: int| after.holds_at(k, j);
            assert(after.holds_at(k, j));
            after.lemma_entry(j);
            if j < i {
                self.lemma_entry(j);
            } else {
                self.lemma_entry(j + 1);
            }
        }
        assert(after@ =~= self@.remove(key));
    }

    /// The keys are those of the map, each once.
    pub proof fn lemma_keys(self)
        requires
            self.wf(),
        ensures
            self.keys().no_duplicates(),
            forall|key: K::V| self@.contains_key(key) <==> #[trigger] self.keys().contains(key),
            forall|i: int|
                0 <= i < self.keys().len() ==> self@.contains_key(#[trigger] self.keys()[i]),
    {
        assert forall|key: K::V| self@.contains_key(key) implies #[trigger] self.keys().contains(
            key,
        ) by {
            let i = choose|i: int| self.holds_at(key, i);
            assert(self.holds_at(key, i));
            assert(self.keys()[i] == key);
        }
        assert forall|key: K::V| #[trigger] self.keys().contains(key) implies self@.contains_key(
            key,
        ) by {
            let i = choose|i: int| 0 <= i < self.keys().len() && self.keys()[i] == key;
            assert(self.holds_at(key, i));
        }
        assert forall|i: int| 0 <= i < self.keys().len() implies self@.contains_key(
            #[trigger] self.keys()[i],
        ) by {
            self.lemma_entry(i);
        }
    }

    /// There are as many keys as there are entries.
    pub proof fn lemma_len(self)
        requires
            self.wf(),
        ensures
            self@.dom().finite(),
            self@.dom().len() == self.keys().len(),
    {
        self.lemma_keys();
        self.keys().unique_seq_to_set();
        assert(self.keys().to_set() =~= self@.dom()) by {
            assert forall|key: K::V| self.keys().to_set().contains(key) == self@.dom().contains(
                key,
            ) by {
                assert(self.keys().contains(key) == self@.contains_key(key));
            }
        }
    }

    /// An empty table.
    pub fn new() -> (table: Self)
        ensures
            table.wf(),
            table@ == Map::<K::V, V>::empty(),
            table.keys() == Seq::<K::V>::empty(),
    {
        let table = Table { entries: Vec::new() };
        assert(table@ =~= Map::<K::V, V>::empty());
        table
    }

    /// How many entries the table holds.
    pub fn len(&self) -> (len: usize)
        ensures
            len == self.keys().len(),
    {
        self.entries.len()
    }

    /// The key at a position of the walk.
    pub fn key_at(&self, i: usize) -> (key: &K)
        requires
            i < self.keys().len(),
        ensures
            key@ == self.keys()[i as int],
    {
        &self.entries[i].0
    }

    /// The value at a position of the walk.
    pub fn value_at(&self, i: usize) -> (value: &V)
        requires
            self.wf(),
            i < self.keys().len(),
        ensures
            *value == self@[self.keys()[i as int]],
    {
        proof {
            self.lemma_entry(i as int);
        }
        &self.entries[i].1
    }

    fn position(&self, key: &K) -> (found: Option<usize>)
        requires
            self.wf(),
        ensures
            match found {
                Some(i) => i < self.entries@.len() && self.entries@[i as int].0@ == key@
                    && self@.contains_key(key@) && self@[key@] == self.entries@[i as int].1,
                None => !self@.contains_key(key@),
            },
    {
        let mut i: usize = 0;
        while i < self.entries.len()
            invariant
                self.wf(),
                i <= self.entries@.len(),
                forall|j: int| 0 <= j < i ==> (#[trigger] self.entries@[j]).0@ != key@,
            decreases self.entries@.len() - i,
        {
            if self.entries[i].0.same(key) {
                proof {
                    self.lemma_entry(i as int);
                }
                return Some(i);
            }
            i += 1;
        }
        assert forall|j: int| !self.holds_at(key@, j) by {
            if self.holds_at(key@, j) {
                assert(self.entries@[j].0@ == key@);
            }
        }
        None
    }

    /// Whether the key is held.
    pub fn contains(&self, key: &K) -> (held: bool)
        requires
            self.wf(),
        ensures
            held == self@.contains_key(key@),
    {
        self.position(key).is_some()
    }

    /// The value of a key.
    pub fn get(&self, key: &K) -> (found: Option<&V>)
        requires
            self.wf(),
        ensures
            match found {
                Some(value) => self@.contains_key(key@) && *value == self@[key@],
                None => !self@.contains_key(key@),
            },
    {
        match self.position(key) {
            Some(i) => Some(&self.entries[i].1),
            None => None,
        }
    }

    /// Sets the value of a key. A key that is not held yet comes last in the
    /// walk. Gives back the value that was there before.
    pub fn insert(&mut self, key: K, value: V) -> (before: Option<V>)
        requires
            old(self).wf(),
        ensures
            final(self).wf(),
            final(self)@ == old(self)@.insert(key@, value),
            before == (if old(self)@.contains_key(key@) {
                Some(old(self)@[key@])
            } else {
                None
            }),
            final(self).keys() == (if old(self)@.contains_key(key@) {
                old(self).keys()
            } else {
                old(self).keys().push(key@)
            }),
    {
        match self.position(&key) {
            Some(i) => {
                let mut value = value;
                let ghost new_value = value;
                std::mem::swap(&mut self.entries[i].1, &mut value);
                proof {
                    old(self).lemma_updated(*self, i as int, new_value);
                }
                Some(value)
            },
            None => {
                let ghost pushed = (key, value);
                self.entries.push((key, value));
                proof {
                    old(self).lemma_pushed(*self, pushed);
                }
                None
            },
        }
    }

    /// Takes a key out. Gives back its value, where it had one.
    pub fn remove(&mut self, key: &K) -> (removed: Option<V>)
        requires
            old(self).wf(),
        ensures
            final(self).wf(),
            final(self)@ == old(self)@.remove(key@),
            removed == (if old(self)@.contains_key(key@) {
                Some(old(self)@[key@])
            } else {
                None
            }),
            final(self).keys() == old(self).keys().filter(|k: K::V| k != key@),
    {
        match self.position(key) {
            Some(i) => {
                let (_, value) = self.entries.remove(i);
                proof {
                    old(self).lemma_removed(*self, i as int);
                }
                Some(value)
            },
            None => {
                proof {
                    self.lemma_keys();
                    assert(self@ =~= self@.remove(key@));
                    assert forall|j: int| 0 <= j < self.keys().len() implies (|k: K::V| k != key@)(
                        #[trigger] self.keys()[j],
                    ) by {
                        assert(self.keys().contains(self.keys()[j]));
                    }
                    lemma_filter_keeps_all(self.keys(), |k: K::V| k != key@);
                }
                None
            },
        }
    }

    /// The value at a position of the walk, to be changed in place.
    pub fn value_at_mut(&mut self, i: usize) -> (value: &mut V)
        requires
            old(self).wf(),
            i < old(self).keys().len(),
        ensures
            final(self).wf(),
            final(self).keys() == old(self).keys(),
            *value == old(self)@[old(self).keys()[i as int]],
            final(self)@ == old(self)@.insert(old(self).keys()[i as int], *final(value)),
    {
        proof {
            let before = *self;
            before.lemma_entry(i as int);
            assert forall|after: Self|
                #![trigger after.wf()]
                #![trigger after@]
                after.entries@ == before.entries@.update(
                    i as int,
                    (before.entries@[i as int].0, after.entries@[i as int].1),
                ) implies after.wf() && after.keys() == before.keys() && after@ == before@.insert(
                before.keys()[i as int],
                after.entries@[i as int].1,
            ) by {
                before.lemma_updated(after, i as int, after.entries@[i as int].1);
            }
        }
        &mut self.entries[i].1
    }

    /// The value of a key, to be changed in place.
    pub fn get_mut(&mut self, key: &K) -> (found: Option<&mut V>)
        requires
            old(self).wf(),
        ensures
            final(self).wf(),
            final(self).keys() == old(self).keys(),
            match found {
                Some(value) => old(self)@.contains_key(key@) && *value == old(self)@[key@]
                    && final(self)@ == old(self)@.insert(key@, *final(value)),
                None => !old(self)@.contains_key(key@) && final(self)@ == old(self)@,
            },
    {
        match self.position(key) {
            Some(i) => {
                assert(self.keys()[i as int] == key@);
                Some(self.value_at_mut(i))
            },
            None => None,
        }
    }
}

} // verus!
