//! How forwarding cancellations went.

use vstd::prelude::*;

verus! {

/// Counts of how forwarding a cancellation ended.
#[derive(Debug)]
pub struct CancelForwardingMetrics {
    successful: u64,
    no_connection: u64,
    not_ready: u64,
    unknown_id: u64,
    not_in_registry: u64,
}

/// The mathematical content of [`CancelForwardingMetrics`].
pub struct MetricsView {
    pub successful: u64,
    pub no_connection: u64,
    pub not_ready: u64,
    pub unknown_id: u64,
    pub not_in_registry: u64,
}

impl View for CancelForwardingMetrics {
    type V = MetricsView;

    closed spec fn view(&self) -> MetricsView {
        MetricsView {
            successful: self.successful,
            no_connection: self.no_connection,
            not_ready: self.not_ready,
            unknown_id: self.unknown_id,
            not_in_registry: self.not_in_registry,
        }
    }
}

/// One more, starting from zero again after the largest count.
pub open spec fn one_more(count: u64) -> u64 {
    if count < u64::MAX {
        (count + 1) as u64
    } else {
        0
    }
}

impl Default for CancelForwardingMetrics {
    fn default() -> (metrics: Self)
        ensures
            metrics@ == (MetricsView {
                successful: 0,
                no_connection: 0,
                not_ready: 0,
                unknown_id: 0,
                not_in_registry: 0,
            }),
    {
        CancelForwardingMetrics {
            successful: 0,
            no_connection: 0,
            not_ready: 0,
            unknown_id: 0,
            not_in_registry: 0,
        }
    }
}

impl CancelForwardingMetrics {
    /// Counts a cancellation that was handed to a server.
    pub fn record_success(&mut self)
        ensures
            final(self)@ == (MetricsView {
                successful: one_more(old(self)@.successful),
                ..old(self)@
            }),
    {
        self.successful = self.successful.wrapping_add(1);
    }

    /// Counts a cancellation for which there was no connection.
    pub fn record_no_connection(&mut self)
        ensures
            final(self)@ == (MetricsView {
                no_connection: one_more(old(self)@.no_connection),
                ..old(self)@
            }),
    {
        self.no_connection = self.no_connection.wrapping_add(1);
    }

    /// Counts a cancellation whose connection was not ready.
    pub fn record_not_ready(&mut self)
        ensures
            final(self)@ == (MetricsView { not_ready: one_more(old(self)@.not_ready), ..old(self)@ }),
    {
        self.not_ready = self.not_ready.wrapping_add(1);
    }

    /// Counts a cancellation of a request that the connection does not know.
    pub fn record_unknown_id(&mut self)
        ensures
            final(self)@ == (MetricsView {
                unknown_id: one_more(old(self)@.unknown_id),
                ..old(self)@
            }),
    {
        self.unknown_id = self.unknown_id.wrapping_add(1);
    }

    /// Counts a cancellation of a request that was not registered.
    pub fn record_not_in_registry(&mut self)
        ensures
            final(self)@ == (MetricsView {
                not_in_registry: one_more(old(self)@.not_in_registry),
                ..old(self)@
            }),
    {
        self.not_in_registry = self.not_in_registry.wrapping_add(1);
    }

    /// All counts: successful, without a connection, not ready, unknown to the
    /// connection, not registered.
    pub fn snapshot(&self) -> (counts: (u64, u64, u64, u64, u64))
        ensures
            counts == (
                self@.successful,
                self@.no_connection,
                self@.not_ready,
                self@.unknown_id,
                self@.not_in_registry,
            ),
    {
        (
            self.successful,
            self.no_connection,
            self.not_ready,
            self.unknown_id,
            self.not_in_registry,
        )
    }
}

/// Counting adds one, until the numbers run out.
pub proof fn counting_adds_one(count: u64)
    ensures
        count < u64::MAX ==> one_more(count) == count + 1,
        one_more(count) != count,
{
}

} // verus!
