//! Connections whose replacement owes the documents that were open before.
//!
//! When a connection is taken out of the pool its key is armed. The connection
//! that replaces it claims the key, and until its documents are open again no
//! command may overtake them.

use crate::connection_key::{ConnectionKey, KeyView};
use crate::key_set::KeySet;
use crate::table::Table;
use vstd::prelude::*;

verus! {

/// How long a command waits for the documents to be open again, in seconds.
pub const REOPEN_WAIT_SECS: u64 = 2;

/// The right to report on one round of opening documents again.
#[derive(Clone, Copy, Debug, PartialEq, Eq, Structural)]
pub struct ReopenTicket(u64);

impl ReopenTicket {
    /// The number of the round.
    pub closed spec fn number(self) -> u64 {
        self.0
    }
}

/// What became of waiting for a round to end.
#[derive(Clone, Copy, Debug, PartialEq, Eq, Structural)]
pub enum ReopenNews {
    /// The documents are open again.
    Repaired,
    /// There will be no further news. The last report said whether the documents
    /// are open.
    Gone(bool),
    /// The round is still under way.
    TimedOut,
}

/// Which keys owe a round, and which rounds are under way.
#[verifier::ext_equal]
pub struct ReopenView {
    pub armed: Set<KeyView>,
    pub in_flight: Map<KeyView, u64>,
    pub next: u64,
}

/// The number after another one, starting from zero again after the largest.
pub open spec fn round_after(number: u64) -> u64 {
    if number < u64::MAX {
        (number + 1) as u64
    } else {
        0
    }
}

/// A key owes a round.
pub open spec fn armed_with(state: ReopenView, key: KeyView) -> ReopenView {
    ReopenView { armed: state.armed.insert(key), ..state }
}

/// A key that owes a round has it under way.
pub open spec fn claimed(state: ReopenView, key: KeyView) -> ReopenView {
    if state.armed.contains(key) {
        ReopenView {
            armed: state.armed.remove(key),
            in_flight: state.in_flight.insert(key, state.next),
            next: round_after(state.next),
        }
    } else {
        state
    }
}

/// The round with the number is not under way any more. One with another number
/// stays.
pub open spec fn retired(state: ReopenView, key: KeyView, number: u64) -> ReopenView {
    if state.in_flight.contains_key(key) && state.in_flight[key] == number {
        ReopenView { in_flight: state.in_flight.remove(key), ..state }
    } else {
        state
    }
}

/// What waiting for a round comes to: whether the documents are open, and
/// whether the round is over.
pub open spec fn waited(news: ReopenNews) -> (bool, bool) {
    match news {
        ReopenNews::Repaired => (true, true),
        ReopenNews::Gone(open) => (open, true),
        ReopenNews::TimedOut => (false, false),
    }
}

/// Keeps track of which connections owe their documents.
pub struct PendingReopenRegistry {
    armed: KeySet<ConnectionKey>,
    in_flight: Table<ConnectionKey, u64>,
    next: u64,
}

impl View for PendingReopenRegistry {
    type V = ReopenView;

    closed spec fn view(&self) -> ReopenView {
        ReopenView { armed: self.armed@, in_flight: self.in_flight@, next: self.next }
    }
}

impl Default for PendingReopenRegistry {
    /// Nothing is owed.
    fn default() -> (registry: Self)
        ensures
            registry.wf(),
            registry@ == (ReopenView { armed: Set::empty(), in_flight: Map::empty(), next: 0 }),
    {
        PendingReopenRegistry { armed: KeySet::new(), in_flight: Table::new(), next: 0 }
    }
}

impl PendingReopenRegistry {
    /// The tables are in order.
    pub closed spec fn wf(self) -> bool {
        self.armed.wf() && self.in_flight.wf()
    }

    /// Notes that a connection was taken out, whatever it had open.
    pub fn arm(&mut self, key: &ConnectionKey)
        requires
            old(self).wf(),
        ensures
            final(self).wf(),
            final(self)@ == armed_with(old(self)@, key@),
    {
        self.armed.insert(key.clone());
    }

    /// Takes over what a key owes. Nothing is given back where it owes nothing.
    pub fn claim(&mut self, key: &ConnectionKey) -> (ticket: Option<ReopenTicket>)
        requires
            old(self).wf(),
        ensures
            final(self).wf(),
            final(self)@ == claimed(old(self)@, key@),
            match ticket {
                Some(ticket) => old(self)@.armed.contains(key@) && ticket.number() == old(
                    self,
                )@.next,
                None => !old(self)@.armed.contains(key@),
            },
    {
        if !self.armed.remove(key) {
            assert(self@ =~= old(self)@);
            return None;
        }
        let number: u64 = self.next;
        self.in_flight.insert(key.clone(), number);
        self.next = self.next.wrapping_add(1);
        Some(ReopenTicket(number))
    }

    fn retire(&mut self, key: &ConnectionKey, number: u64)
        requires
            old(self).wf(),
        ensures
            final(self).wf(),
            final(self)@ == retired(old(self)@, key@, number),
    {
        let current = match self.in_flight.get(key) {
            Some(current) => *current == number,
            None => false,
        };
        if current {
            self.in_flight.remove(key);
        }
    }

    /// Gives back a claim that could not be acted on: the key owes the round
    /// again. A later round that is under way is left alone.
    pub fn rearm(&mut self, key: &ConnectionKey, ticket: ReopenTicket)
        requires
            old(self).wf(),
        ensures
            final(self).wf(),
            final(self)@ == armed_with(retired(old(self)@, key@, ticket.number()), key@),
    {
        self.retire(key, ticket.0);
        self.arm(key);
    }

    /// The round that a command on this key has to wait for. Where there is none
    /// the command may go ahead.
    pub fn outstanding(&self, key: &ConnectionKey) -> (ticket: Option<ReopenTicket>)
        requires
            self.wf(),
        ensures
            match ticket {
                Some(ticket) => self@.in_flight.contains_key(key@) && self@.in_flight[key@]
                    == ticket.number(),
                None => !self@.in_flight.contains_key(key@),
            },
    {
        match self.in_flight.get(key) {
            Some(number) => Some(ReopenTicket(*number)),
            None => None,
        }
    }

    /// What waiting for a round comes to. A command may go ahead only where the
    /// documents are open. A round that is over is not waited for again; one that
    /// is still under way is.
    pub fn wait_for_reopen(
        &mut self,
        key: &ConnectionKey,
        ticket: Option<ReopenTicket>,
        news: ReopenNews,
    ) -> (settled: bool)
        requires
            old(self).wf(),
        ensures
            final(self).wf(),
            match ticket {
                Some(ticket) => settled == waited(news).0 && final(self)@ == (if waited(news).1 {
                    retired(old(self)@, key@, ticket.number())
                } else {
                    old(self)@
                }),
                None => settled && final(self)@ == old(self)@,
            },
    {
        let ticket = match ticket {
            Some(ticket) => ticket,
            None => return true,
        };
        let (settled, over) = match news {
            ReopenNews::Repaired => (true, true),
            ReopenNews::Gone(open) => (open, true),
            ReopenNews::TimedOut => (false, false),
        };
        if over {
            self.retire(key, ticket.0);
        }
        settled
    }
}

/// One replacement owes one round: a claim takes all of it, however often the key
/// was armed.
pub proof fn a_claim_takes_all(state: ReopenView, key: KeyView)
    ensures
        armed_with(armed_with(state, key), key) == armed_with(state, key),
        !claimed(state, key).armed.contains(key),
        claimed(claimed(state, key), key) == claimed(state, key),
        claimed(armed_with(state, key), key).in_flight.contains_key(key),
{
    assert(armed_with(armed_with(state, key), key) =~= armed_with(state, key));
    assert(armed_with(state, key).armed.contains(key));
}

/// A claim that is given back is owed again, and nobody waits for it.
pub proof fn a_claim_given_back_is_owed_again(state: ReopenView, key: KeyView)
    requires
        state.armed.contains(key),
    ensures
        armed_with(retired(claimed(state, key), key, state.next), key).armed == state.armed,
        !armed_with(retired(claimed(state, key), key, state.next), key).in_flight.contains_key(key),
{
    assert(armed_with(retired(claimed(state, key), key, state.next), key).armed =~= state.armed);
}

/// A round that began later is not put aside by an older one, neither by giving
/// the older claim back nor by a command that waited for it.
pub proof fn later_rounds_survive(state: ReopenView, key: KeyView, older: u64)
    requires
        state.armed.contains(key),
        older != state.next,
    ensures
        retired(claimed(state, key), key, older) == claimed(state, key),
{
}

/// Keys owe and wait independently of each other.
pub proof fn keys_are_kept_apart(state: ReopenView, key: KeyView, number: u64, other: KeyView)
    requires
        key != other,
    ensures
        armed_with(state, key).armed.contains(other) == state.armed.contains(other),
        claimed(state, key).armed.contains(other) == state.armed.contains(other),
        claimed(state, key).in_flight.contains_key(other) == state.in_flight.contains_key(other),
        state.in_flight.contains_key(other) ==> claimed(state, key).in_flight[other]
            == state.in_flight[other],
        retired(state, key, number).in_flight.contains_key(other) == state.in_flight.contains_key(
            other,
        ),
{
}

/// A command may go ahead exactly where the documents are open, and a round is over
/// exactly where there is news of it.
pub proof fn only_open_documents_let_commands_through(news: ReopenNews)
    ensures
        waited(news).0 <==> news is Repaired || news == ReopenNews::Gone(true),
        waited(news).1 <==> !(news is TimedOut),
{
    if let ReopenNews::Gone(open) = news {
        assert(open || !open);
    }
}

/// Only what is owed can be taken over: a key that owes nothing is left alone, and
/// one that does gets the next number. Putting a round aside forgets no debt.
pub proof fn only_debts_are_taken_over(state: ReopenView, key: KeyView, number: u64)
    ensures
        armed_with(state, key).armed.contains(key),
        armed_with(state, key).in_flight == state.in_flight,
        armed_with(state, key).next == state.next,
        !state.armed.contains(key) ==> claimed(state, key) == state,
        state.armed.contains(key) ==> claimed(state, key).in_flight.contains_key(key) && claimed(
            state,
            key,
        ).in_flight[key] == state.next && claimed(state, key).next != state.next,
        state.armed.contains(key) && state.next < u64::MAX ==> claimed(state, key).next
            == state.next + 1,
        retired(state, key, number).armed == state.armed,
        retired(state, key, number).next == state.next,
        retired(state, key, number).in_flight.contains_key(key) <==> state.in_flight.contains_key(
            key,
        ) && state.in_flight[key] != number,
        retired(state, key, number).in_flight.contains_key(key) ==> retired(
            state,
            key,
            number,
        ).in_flight[key] == state.in_flight[key],
{
}

} // verus!
