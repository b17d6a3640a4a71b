//! A map from texts to values, found through a `DashMap` of positions.

use crate::outside::{clear_number, new_numbers, set_number, number_contents, number_at};
use vstd::prelude::*;

verus! {

/// A map from texts to values. The values lie side by side; the slots say where
/// the value of each text is.
pub struct TextTable<V> {
    slots: dashmap::DashMap<String, usize>,
    entries: Vec<(String, V)>,
}

impl<V> View for TextTable<V> {
    type V = Map<Seq<char>, V>;

    closed spec fn view(&self) -> Map<Seq<char>, V> {
        Map::new(
            |text: Seq<char>| number_contents(self.slots).contains_key(text),
            |text: Seq<char>| self.entries@[number_contents(self.slots)[text] as int].1,
        )
    }
}

impl<V> TextTable<V> {
    /// Every slot leads to the entry of its text, and every entry has its slot.
    pub closed spec fn wf(self) -> bool {
        &&& forall|text: Seq<char>| #[trigger]
            number_contents(self.slots).contains_key(text) ==> number_contents(self.slots)[text]
                < self.entries@.len() && self.entries@[number_contents(
                self.slots,
            )[text] as int].0@ == text
        &&& forall|i: int|
            0 <= i < self.entries@.len() ==> number_contents(self.slots).contains_key(
                (#[trigger] self.entries@[i]).0@,
            ) && number_contents(self.slots)[self.entries@[i].0@] == i
    }

    /// The texts that have a value, in some order.
    pub closed spec fn keys(self) -> Seq<Seq<char>> {
        self.entries@.map_values(|entry: (String, V)| entry.0@)
    }

    /// The listed texts are those that have a value, each once.
    pub proof fn lemma_keys(self)
        requires
            self.wf(),
        ensures
            self.keys().no_duplicates(),
            forall|text: Seq<char>| self@.contains_key(text) <==> #[trigger] self.keys().contains(text),
    {
        assert forall|text: Seq<char>| self@.contains_key(text) <==> #[trigger] self.keys().contains(
            text,
        ) by {
            if self@.contains_key(text) {
                let i = number_contents(self.slots)[text] as int;
                assert(self.keys()[i] == text);
            }
            if self.keys().contains(text) {
                let i = choose|i: int| 0 <= i < self.keys().len() && self.keys()[i] == text;
                assert(self.entries@[i].0@ == text);
            }
        }
        assert forall|i: int, j: int| 0 <= i < j < self.keys().len() implies self.keys()[i]
            != self.keys()[j] by {
            assert(number_contents(self.slots)[self.entries@[i].0@] == i);
            assert(number_contents(self.slots)[self.entries@[j].0@] == j);
        }
    }

    /// How many texts have a value.
    pub fn len(&self) -> (len: usize)
        ensures
            len == self.keys().len(),
    {
        self.entries.len()
    }

    /// One of the texts that have a value.
    pub fn key_at(&self, i: usize) -> (text: &String)
        requires
            i < self.keys().len(),
        ensures
            text@ == self.keys()[i as int],
    {
        &self.entries[i].0
    }

    /// An empty table.
    pub fn new() -> (table: Self)
        ensures
            table.wf(),
            table@ == Map::<Seq<char>, V>::empty(),
    {
        let table = TextTable { slots: new_numbers(), entries: Vec::new() };
        assert(table@ =~= Map::<Seq<char>, V>::empty());
        table
    }

    /// The value of a text.
    pub fn get(&self, text: &str) -> (found: Option<&V>)
        requires
            self.wf(),
        ensures
            match found {
                Some(value) => self@.contains_key(text@) && *value == self@[text@],
                None => !self@.contains_key(text@),
            },
    {
        match number_at(&self.slots, text) {
            Some(i) => Some(&self.entries[i].1),
            None => None,
        }
    }

    /// The value of a text, to be changed in place.
    pub fn get_mut(&mut self, text: &str) -> (found: Option<&mut V>)
        requires
            old(self).wf(),
        ensures
            final(self).wf(),
            match found {
                Some(value) => old(self)@.contains_key(text@) && *value == old(self)@[text@]
                    && final(self)@ == old(self)@.insert(text@, *final(value)),
                None => !old(self)@.contains_key(text@) && final(self)@ == old(self)@,
            },
    {
        match number_at(&self.slots, text) {
            Some(i) => {
                proof {
                    let before = *self;
                    assert forall|after: Self|
                        #![trigger after.wf()]
                        #![trigger after@]
                        after.slots == before.slots && after.entries@ == before.entries@.update(
                            i as int,
                            (before.entries@[i as int].0, after.entries@[i as int].1),
                        ) implies after.wf() && after@ == before@.insert(
                        text@,
                        after.entries@[i as int].1,
                    ) by {
                        assert(after@ =~= before@.insert(text@, after.entries@[i as int].1));
                    }
                }
                Some(&mut self.entries[i].1)
            },
            None => None,
        }
    }

    /// Sets the value of a text.
    pub fn insert(&mut self, text: String, value: V)
        requires
            old(self).wf(),
        ensures
            final(self).wf(),
            final(self)@ == old(self)@.insert(text@, value),
    {
        match number_at(&self.slots, text.as_str()) {
            Some(i) => {
                self.entries[i].1 = value;
                assert(self@ =~= old(self)@.insert(text@, value));
            },
            None => {
                let position = self.entries.len();
                let key = text.clone();
                self.entries.push((text, value));
                set_number(&mut self.slots, key, position);
                assert(self@ =~= old(self)@.insert(text@, value));
            },
        }
    }

    /// Takes a text out. Gives back its value, where it had one.
    pub fn remove(&mut self, text: &str) -> (removed: Option<V>)
        requires
            old(self).wf(),
        ensures
            final(self).wf(),
            final(self)@ == old(self)@.remove(text@),
            removed == (if old(self)@.contains_key(text@) {
                Some(old(self)@[text@])
            } else {
                None
            }),
    {
        match number_at(&self.slots, text) {
            Some(i) => {
                let last = self.entries.len() - 1;
                if i != last {
                    let moved = self.entries[last].0.clone();
                    assert(moved@ != text@);
                    set_number(&mut self.slots, moved, i);
                }
                let (_, value) = self.entries.swap_remove(i);
                clear_number(&mut self.slots, text);
                assert(self@ =~= old(self)@.remove(text@));
                Some(value)
            },
            None => {
                assert(self@ =~= old(self)@.remove(text@));
                None
            },
        }
    }
}

} // verus!
