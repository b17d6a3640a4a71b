//! A set that keeps its items in the order of their first insertion.

use crate::table::{Table, TableKey};
use vstd::prelude::*;

verus! {

/// A set, walked in the order in which items first came in.
#[derive(Debug)]
pub struct KeySet<K> {
    items: Table<K, ()>,
}

impl<K: TableKey> View for KeySet<K> {
    type V = Set<K::V>;

    closed spec fn view(&self) -> Set<K::V> {
        self.items@.dom()
    }
}

impl<K: TableKey> KeySet<K> {
    /// No item is held twice.
    pub closed spec fn wf(self) -> bool {
        self.items.wf()
    }

    /// The items in the order in which they came in.
    pub closed spec fn ordered(self) -> Seq<K::V> {
        self.items.keys()
    }

    /// The ordered items are those of the set, each once.
    pub proof fn lemma_ordered(self)
        requires
            self.wf(),
        ensures
            self.ordered().no_duplicates(),
            forall|item: K::V| self@.contains(item) <==> #[trigger] self.ordered().contains(item),
            forall|i: int|
                0 <= i < self.ordered().len() ==> self@.contains(#[trigger] self.ordered()[i]),
    {
        self.items.lemma_keys();
    }

    /// An empty set.
    pub fn new() -> (set: Self)
        ensures
            set.wf(),
            set@ == Set::<K::V>::empty(),
            set.ordered() == Seq::<K::V>::empty(),
    {
        let set = KeySet { items: Table::new() };
        assert(set@ =~= Set::<K::V>::empty());
        set
    }

    /// How many items the set holds.
    pub fn len(&self) -> (len: usize)
        ensures
            len == self.ordered().len(),
    {
        self.items.len()
    }

    /// The item at a position of the walk.
    pub fn item_at(&self, i: usize) -> (item: &K)
        requires
            i < self.ordered().len(),
        ensures
            item@ == self.ordered()[i as int],
    {
        self.items.key_at(i)
    }

    /// Whether the set holds nothing.
    pub fn is_empty(&self) -> (empty: bool)
        requires
            self.wf(),
        ensures
            empty == self@.is_empty(),
            empty == (self@ =~= Set::<K::V>::empty()),
    {
        proof {
            self.lemma_ordered();
        }
        if self.items.len() == 0 {
            assert forall|item: K::V| !self@.contains(item) by {
                assert(!self.ordered().contains(item));
            }
            assert(self@ =~= Set::<K::V>::empty());
            true
        } else {
            assert(self@.contains(self.ordered()[0]));
            false
        }
    }

    /// Whether the item is in the set.
    pub fn contains(&self, item: &K) -> (held: bool)
        requires
            self.wf(),
        ensures
            held == self@.contains(item@),
    {
        self.items.contains(item)
    }

    /// Puts an item in. Says whether it was new.
    pub fn insert(&mut self, item: K) -> (new: bool)
        requires
            old(self).wf(),
        ensures
            final(self).wf(),
            final(self)@ == old(self)@.insert(item@),
            new == !old(self)@.contains(item@),
            final(self).ordered() == (if new {
                old(self).ordered().push(item@)
            } else {
                old(self).ordered()
            }),
    {
        let before = self.items.insert(item, ());
        assert(self@ =~= old(self)@.insert(item@));
        before.is_none()
    }

    /// Takes an item out. Says whether it was there.
    pub fn remove(&mut self, item: &K) -> (removed: bool)
        requires
            old(self).wf(),
        ensures
            final(self).wf(),
            final(self)@ == old(self)@.remove(item@),
            removed == old(self)@.contains(item@),
            final(self).ordered() == old(self).ordered().filter(|k: K::V| k != item@),
    {
        let before = self.items.remove(item);
        assert(self@ =~= old(self)@.remove(item@));
        before.is_some()
    }
}

} // verus!
