//! The connections of a pool, one for each key.

use crate::connection_handle::{ConnectionHandle, HandleView};
use crate::connection_key::{ConnectionKey, KeyView};
use crate::table::Table;
use vstd::prelude::*;

verus! {

/// The connections of a pool.
pub struct Connections {
    table: Table<ConnectionKey, ConnectionHandle>,
    next: u64,
}

impl View for Connections {
    type V = Map<KeyView, HandleView>;

    closed spec fn view(&self) -> Map<KeyView, HandleView> {
        self.table@.map_values(|handle: ConnectionHandle| handle@)
    }
}

/// The number after another one, starting from zero again after the largest.
pub open spec fn handle_after(number: u64) -> u64 {
    if number < u64::MAX {
        (number + 1) as u64
    } else {
        0
    }
}

/// Whether the connection with the number is the one that is held under a key.
pub open spec fn is_live(connections: Map<KeyView, HandleView>, key: KeyView, id: u64) -> bool {
    connections.contains_key(key) && connections[key].id == id
}

/// Every connection is held under its own key.
pub open spec fn keys_agree(connections: Map<KeyView, HandleView>) -> bool {
    forall|key: KeyView| #[trigger] connections.contains_key(key) ==> connections[key].key == key
}

impl Connections {
    /// The table is in order, and every connection is held under its own key.
    pub closed spec fn wf(self) -> bool {
        &&& self.table.wf()
        &&& forall|key: KeyView| #[trigger]
            self.table@.contains_key(key) ==> self.table@[key].wf()
        &&& keys_agree(self@)
    }

    /// The keys in the order in which their connections came in.
    pub closed spec fn keys(self) -> Seq<KeyView> {
        self.table.keys()
    }

    /// The number that the next connection gets.
    pub closed spec fn next_id(self) -> u64 {
        self.next
    }

    /// The ordered keys are those of the connections, each once.
    pub proof fn lemma_keys(self)
        requires
            self.wf(),
        ensures
            keys_agree(self@),
            self.keys().no_duplicates(),
            forall|key: KeyView| self@.contains_key(key) <==> #[trigger] self.keys().contains(key),
            forall|i: int|
                0 <= i < self.keys().len() ==> self@.contains_key(#[trigger] self.keys()[i]),
    {
        self.table.lemma_keys();
    }

    /// No connection.
    pub fn new() -> (connections: Self)
        ensures
            connections.wf(),
            (connections@ == Map::<KeyView, HandleView>::empty()),
            connections.next_id() == 0,
    {
        let connections = Connections { table: Table::new(), next: 0 };
        assert(connections@ =~= Map::<KeyView, HandleView>::empty());
        connections
    }

    /// How many connections there are.
    pub fn len(&self) -> (len: usize)
        ensures
            len == self.keys().len(),
    {
        self.table.len()
    }

    /// The connection at a position of the walk.
    pub fn handle_at(&self, i: usize) -> (handle: &ConnectionHandle)
        requires
            self.wf(),
            i < self.keys().len(),
        ensures
            handle.wf(),
            handle@ == self@[self.keys()[i as int]],
            handle@.key == self.keys()[i as int],
    {
        proof {
            self.lemma_keys();
            assert(self@.contains_key(self.keys()[i as int]));
            assert(self.table@.contains_key(self.keys()[i as int]));
        }
        self.table.value_at(i)
    }

    /// The connection at a position of the walk, to be changed in place.
    pub fn handle_at_mut(&mut self, i: usize) -> (handle: &mut ConnectionHandle)
        requires
            old(self).wf(),
            i < old(self).keys().len(),
        ensures
            handle.wf(),
            handle@ == old(self)@[old(self).keys()[i as int]],
            handle@.key == old(self).keys()[i as int],
            final(self)@ == old(self)@.insert(old(self).keys()[i as int], final(handle)@),
            final(self).keys() == old(self).keys(),
            final(self).next_id() == old(self).next_id(),
            final(handle).wf() && final(handle)@.key == handle@.key ==> final(self).wf(),
    {
        proof {
            let before = *self;
            before.lemma_keys();
            let key = before.keys()[i as int];
            assert(before@.contains_key(key));
            assert(before.table@.contains_key(key));
            assert forall|after: Self, handle: ConnectionHandle|
                #![trigger after.wf(), handle.wf()]
                #![trigger after@, handle@]
                after.table.wf() && after.table@ == before.table@.insert(key, handle) implies after@
                == before@.insert(key, handle@) && (handle.wf() && handle@.key == key
                ==> after.wf()) by {
                before.lemma_put(after, key, handle);
            }
        }
        self.table.value_at_mut(i)
    }

    proof fn lemma_put(self, after: Self, key: KeyView, handle: ConnectionHandle)
        requires
            self.wf(),
            after.table.wf(),
            after.table@ == self.table@.insert(key, handle),
        ensures
            after@ == self@.insert(key, handle@),
            handle.wf() && handle@.key == key ==> after.wf(),
    {
        assert(after@ =~= self@.insert(key, handle@));
        if handle.wf() && handle@.key == key {
            assert forall|other: KeyView| #[trigger]
                after.table@.contains_key(other) implies after.table@[other].wf() by {
                if other != key {
                    assert(self.table@.contains_key(other));
                }
            }
            assert forall|other: KeyView| #[trigger] after@.contains_key(other) implies after@[other].key
                == other by {
                if other != key {
                    assert(self@.contains_key(other));
                }
            }
        }
    }

    /// The connection of a key.
    pub fn get(&self, key: &ConnectionKey) -> (found: Option<&ConnectionHandle>)
        requires
            self.wf(),
        ensures
            match found {
                Some(handle) => self@.contains_key(key@) && handle.wf() && handle@ == self@[key@]
                    && handle@.key == key@,
                None => !self@.contains_key(key@),
            },
    {
        let found = self.table.get(key);
        proof {
            if self.table@.contains_key(key@) {
                assert(self@.contains_key(key@));
            }
        }
        found
    }

    /// The connection of a key, to be changed in place.
    pub fn get_mut(&mut self, key: &ConnectionKey) -> (found: Option<&mut ConnectionHandle>)
        requires
            old(self).wf(),
        ensures
            final(self).keys() == old(self).keys(),
            final(self).next_id() == old(self).next_id(),
            match found {
                Some(handle) => old(self)@.contains_key(key@) && handle.wf() && handle@ == old(self)@[key@] && handle@.key == key@ && final(self)@ == old(self)@.insert(
                    key@,
                    final(handle)@,
                ) && (final(handle).wf() && final(handle)@.key == key@ ==> final(self).wf()),
                None => !old(self)@.contains_key(key@) && final(self)@ == old(self)@ && final(self).wf(),
            },
    {
        proof {
            let before = *self;
            if before.table@.contains_key(key@) {
                assert(before@.contains_key(key@));
            }
            assert forall|after: Self, handle: ConnectionHandle|
                #![trigger after.wf(), handle.wf()]
                #![trigger after@, handle@]
                after.table.wf() && after.table@ == before.table@.insert(
                    key@,
                    handle,
                ) implies after@ == before@.insert(key@, handle@) && (handle.wf() && handle@.key
                == key@ ==> after.wf()) by {
                before.lemma_put(after, key@, handle);
            }
        }
        self.table.get_mut(key)
    }

    /// A number that no connection had before.
    pub fn fresh_id(&mut self) -> (id: u64)
        ensures
            id == old(self).next_id(),
            final(self).next_id() == handle_after(id),
            final(self)@ == old(self)@,
            final(self).keys() == old(self).keys(),
            old(self).wf() ==> final(self).wf(),
    {
        let id: u64 = self.next;
        self.next = self.next.wrapping_add(1);
        id
    }

    /// Puts a connection under its key, in the place of another one if need be.
    pub fn insert(&mut self, handle: ConnectionHandle)
        requires
            old(self).wf(),
            handle.wf(),
        ensures
            final(self).wf(),
            final(self)@ == old(self)@.insert(handle@.key, handle@),
            final(self).keys() == (if old(self)@.contains_key(handle@.key) {
                old(self).keys()
            } else {
                old(self).keys().push(handle@.key)
            }),
            final(self).next_id() == old(self).next_id(),
    {
        let key = handle.key().clone();
        let ghost put = handle;
        proof {
            assert(self@.contains_key(key@) == self.table@.contains_key(key@));
        }
        self.table.insert(key, handle);
        proof {
            old(self).lemma_put(*self, key@, put);
        }
    }

    /// Takes the connection of a key out.
    pub fn remove(&mut self, key: &ConnectionKey) -> (removed: Option<ConnectionHandle>)
        requires
            old(self).wf(),
        ensures
            final(self).wf(),
            final(self)@ == old(self)@.remove(key@),
            final(self).keys() == old(self).keys().filter(|k: KeyView| k != key@),
            final(self).next_id() == old(self).next_id(),
            match removed {
                Some(handle) => old(self)@.contains_key(key@) && handle.wf() && handle@ == old(self)@[key@] && handle@.key == key@,
                None => !old(self)@.contains_key(key@),
            },
    {
        let removed = self.table.remove(key);
        proof {
            assert(self@ =~= old(self)@.remove(key@));
            if old(self).table@.contains_key(key@) {
                assert(old(self)@.contains_key(key@));
            }
            assert forall|other: KeyView| #[trigger]
                self.table@.contains_key(other) implies self.table@[other].wf() by {
                assert(old(self).table@.contains_key(other));
            }
            assert forall|other: KeyView| #[trigger] self@.contains_key(other) implies self@[other].key
                == other by {
                assert(old(self)@.contains_key(other));
            }
        }
        removed
    }
}

/// Numbers of connections count up, until they run out, and never repeat at once.
pub proof fn handle_numbers_count_up(number: u64)
    ensures
        number < u64::MAX ==> handle_after(number) == number + 1,
        handle_after(number) != number,
{
}

} // verus!
