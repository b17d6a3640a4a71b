//! Forwarding cancellations to the servers that work on a request.

use crate::cancel_metrics::{one_more, MetricsView};
use crate::connection_handle::{HandleView, NotificationSendResult};
use crate::connection_key::{key_views, ConnectionKey, KeyView};
use crate::connection_ref::{ref_views, ConnectionRef, RefView};
use crate::connection_state::ConnectionState;
use crate::error::{ErrorKind, PoolError};
use crate::pool::LanguageServerPool;
use crate::pool_state::PoolView;
use crate::upstream::UpstreamId;
use vstd::prelude::*;

verus! {

/// What a connection knows of a request of the editor.
#[derive(Debug)]
pub struct CancelLookup {
    pub target: ConnectionRef,
    /// Whether the connection knows the request.
    pub known: bool,
    /// The numbers of the requests that the server works on for it.
    pub downstream_ids: Vec<i64>,
}

/// The mathematical content of a [`CancelLookup`].
pub struct LookupView {
    pub target: RefView,
    pub known: bool,
    pub downstream_ids: Seq<i64>,
}

impl View for CancelLookup {
    type V = LookupView;

    open spec fn view(&self) -> LookupView {
        LookupView {
            target: self.target@,
            known: self.known,
            downstream_ids: self.downstream_ids@,
        }
    }
}

/// The contents of a list.
pub open spec fn lookup_views(list: Seq<CancelLookup>) -> Seq<LookupView> {
    Seq::new(list.len(), |i: int| list[i]@)
}

/// What looking for connections to cancel on comes to: the counts, and those that
/// can be asked.
#[verifier::ext_equal]
pub struct CancelSearch {
    pub metrics: MetricsView,
    pub found: Seq<RefView>,
}

/// One connection is looked for. Where there is none, or it is not ready, that is
/// counted.
pub open spec fn looked_for(
    connections: Map<KeyView, HandleView>,
    search: CancelSearch,
    key: KeyView,
) -> CancelSearch {
    if !connections.contains_key(key) {
        CancelSearch {
            metrics: MetricsView {
                no_connection: one_more(search.metrics.no_connection),
                ..search.metrics
            },
            ..search
        }
    } else if !(connections[key].state is Ready) {
        CancelSearch {
            metrics: MetricsView {
                not_ready: one_more(search.metrics.not_ready),
                ..search.metrics
            },
            ..search
        }
    } else {
        CancelSearch { found: search.found.push(RefView { key, id: connections[key].id }), ..search }
    }
}

/// Several connections are looked for, one after the other.
pub open spec fn all_looked_for(
    connections: Map<KeyView, HandleView>,
    metrics: MetricsView,
    keys: Seq<KeyView>,
) -> CancelSearch
    decreases keys.len(),
{
    if keys.len() == 0 {
        CancelSearch { metrics, found: Seq::empty() }
    } else {
        looked_for(
            connections,
            all_looked_for(connections, metrics, keys.drop_last()),
            keys.last(),
        )
    }
}

/// Holds of the lookups that call for a message to the server.
pub open spec fn calls_for_message() -> spec_fn(LookupView) -> bool {
    |lookup: LookupView| lookup.known && lookup.downstream_ids.len() > 0
}

/// The counts after some lookups: requests that a connection does not know are
/// counted.
pub open spec fn unknown_counted(metrics: MetricsView, lookups: Seq<LookupView>) -> MetricsView
    decreases lookups.len(),
{
    if lookups.len() == 0 {
        metrics
    } else {
        let before = unknown_counted(metrics, lookups.drop_last());
        if lookups.last().known {
            before
        } else {
            MetricsView { unknown_id: one_more(before.unknown_id), ..before }
        }
    }
}

impl LanguageServerPool {
    /// Looks for a connection to forward a cancellation to. Gives back its number
    /// where it is ready; what is missing is counted.
    pub fn ready_handle_for_cancel(&mut self, key: &ConnectionKey) -> (id: Option<u64>)
        requires
            old(self).wf(),
        ensures
            final(self).wf(),
            final(self).order() == old(self).order(),
            ({
                let start = CancelSearch { metrics: old(self)@.metrics, found: Seq::empty() };
                let search = looked_for(old(self)@.connections, start, key@);
                &&& final(self)@ == (PoolView { metrics: search.metrics, ..old(self)@ })
                &&& match id {
                    Some(id) => search.found == seq![RefView { key: key@, id }],
                    None => search.found.len() == 0,
                }
            }),
    {
        match self.connections.get(key) {
            Some(handle) => match handle.state() {
                ConnectionState::Ready => {
                    let id: u64 = handle.id();
                    assert(Seq::<RefView>::empty().push(RefView { key: key@, id }) =~= seq![
                        RefView { key: key@, id },
                    ]);
                    Some(id)
                },
                _ => {
                    self.cancel_metrics.record_not_ready();
                    None
                },
            },
            None => {
                self.cancel_metrics.record_no_connection();
                None
            },
        }
    }

    /// The connections to ask about a request that the editor cancels: those that
    /// work on it and are ready. Nothing is given back where the request is not
    /// known; whatever keeps a cancellation from being forwarded is counted.
    pub fn cancel_targets(&mut self, id: &UpstreamId) -> (targets: Option<Vec<ConnectionRef>>)
        requires
            old(self).wf(),
        ensures
            final(self).wf(),
            match targets {
                Some(targets) => old(self)@.requests.contains_key(id@) && exists|
                    keys: Seq<KeyView>,
                | #[trigger]
                    keys.no_duplicates() && (forall|key: KeyView|
                        old(self)@.requests[id@].contains_key(key) <==> #[trigger] keys.contains(
                            key,
                        )) && ({
                        let search = all_looked_for(
                            old(self)@.connections,
                            old(self)@.metrics,
                            keys,
                        );
                        final(self)@ == (PoolView { metrics: search.metrics, ..old(self)@ })
                            && ref_views(targets@) == search.found
                    }),
                None => !old(self)@.requests.contains_key(id@) && final(self)@ == (PoolView {
                    metrics: MetricsView {
                        not_in_registry: one_more(old(self)@.metrics.not_in_registry),
                        ..old(self)@.metrics
                    },
                    ..old(self)@
                }),
            },
    {
        let keys = match self.requests.connections_for(id) {
            Some(keys) => keys,
            None => {
                self.cancel_metrics.record_not_in_registry();
                return None;
            },
        };
        let ghost views = key_views(keys@);
        let ghost connections = self@.connections;
        let ghost metrics = self@.metrics;
        let mut targets: Vec<ConnectionRef> = Vec::new();
        let mut i: usize = 0;
        proof {
            assert(ref_views(targets@) =~= Seq::<RefView>::empty());
            assert(views.take(0) =~= Seq::<KeyView>::empty());
        }
        while i < keys.len()
            invariant
                self.wf(),
                i <= keys@.len(),
                views == key_views(keys@),
                connections == old(self)@.connections,
                metrics == old(self)@.metrics,
                self@ == (PoolView {
                    metrics: all_looked_for(connections, metrics, views.take(i as int)).metrics,
                    ..old(self)@
                }),
                ref_views(targets@) == all_looked_for(
                    connections,
                    metrics,
                    views.take(i as int),
                ).found,
            decreases keys@.len() - i,
        {
            proof {
                assert(views.take(i + 1).drop_last() =~= views.take(i as int));
                assert(views.take(i + 1).last() == keys@[i as int]@);
            }
            let ghost before = all_looked_for(connections, metrics, views.take(i as int));
            if let Some(handle) = self.ready_handle_for_cancel(&keys[i]) {
                let target = ConnectionRef { key: keys[i].clone(), id: handle };
                let ghost list = targets@;
                targets.push(target);
                proof {
                    let one = RefView { key: keys@[i as int]@, id: handle };
                    assert(seq![one][0] == one);
                    assert(ref_views(targets@) =~= ref_views(list).push(target@));
                }
            } else {
                proof {
                    let key = keys@[i as int]@;
                    if connections.contains_key(key) && connections[key].state is Ready {
                        assert(Seq::<RefView>::empty().push(
                            RefView { key, id: connections[key].id },
                        ).len() == 1);
                    }
                }
            }
            i += 1;
        }
        proof {
            assert(views.take(keys@.len() as int) =~= views);
            assert(views.no_duplicates());
        }
        Some(targets)
    }

    /// Which connections are to be told to cancel what, given what each of them
    /// knows of the request.
    pub fn cancel_plan(&mut self, lookups: Vec<CancelLookup>) -> (plan: Vec<CancelLookup>)
        requires
            old(self).wf(),
        ensures
            final(self).wf(),
            final(self)@ == (PoolView {
                metrics: unknown_counted(old(self)@.metrics, lookup_views(lookups@)),
                ..old(self)@
            }),
            lookup_views(plan@) == lookup_views(lookups@).filter(calls_for_message()),
    {
        let ghost views = lookup_views(lookups@);
        let ghost keep = calls_for_message();
        let mut plan: Vec<CancelLookup> = Vec::new();
        let mut i: usize = 0;
        proof {
            reveal(Seq::filter);
            assert(lookup_views(plan@) =~= views.take(0).filter(keep));
            assert(views.take(0) =~= Seq::<LookupView>::empty());
        }
        while i < lookups.len()
            invariant
                self.wf(),
                i <= lookups@.len(),
                views == lookup_views(lookups@),
                keep == calls_for_message(),
                self@ == (PoolView {
                    metrics: unknown_counted(old(self)@.metrics, views.take(i as int)),
                    ..old(self)@
                }),
                lookup_views(plan@) == views.take(i as int).filter(keep),
            decreases lookups@.len() - i,
        {
            proof {
                assert(views.take(i + 1) =~= views.take(i as int).push(views[i as int]));
                assert(views.take(i + 1).drop_last() =~= views.take(i as int));
                views.take(i as int).lemma_filter_push(views[i as int], keep);
            }
            let lookup = &lookups[i];
            if !lookup.known {
                self.cancel_metrics.record_unknown_id();
            } else if lookup.downstream_ids.len() > 0 {
                let entry = copy_lookup(lookup);
                let ghost list = plan@;
                plan.push(entry);
                assert(lookup_views(plan@) =~= lookup_views(list).push(entry@));
            }
            i += 1;
        }
        assert(views.take(lookups@.len() as int) =~= views);
        plan
    }

    /// Settles telling a server to cancel a request. A message that was queued is
    /// counted.
    pub fn send_cancel_notification(&mut self, result: NotificationSendResult) -> (sent: Result<
        (),
        PoolError,
    >)
        requires
            old(self).wf(),
        ensures
            final(self).wf(),
            match cancel_error(result) {
                None => sent is Ok && final(self)@ == (PoolView {
                    metrics: MetricsView {
                        successful: one_more(old(self)@.metrics.successful),
                        ..old(self)@.metrics
                    },
                    ..old(self)@
                }),
                Some(error) => sent is Err && sent->Err_0.says(error.0, error.1) && final(self)@
                    == old(self)@,
            },
    {
        match result {
            NotificationSendResult::Queued => {
                self.cancel_metrics.record_success();
                Ok(())
            },
            NotificationSendResult::QueueFull => Err(
                PoolError::of(ErrorKind::WouldBlock, "bridge: cancel notification queue full"),
            ),
            NotificationSendResult::ChannelClosed => Err(
                PoolError::of(ErrorKind::BrokenPipe, "bridge: cancel notification channel closed"),
            ),
            NotificationSendResult::SerializationFailed => Err(
                PoolError::of(
                    ErrorKind::InvalidData,
                    "bridge: failed to serialize cancel notification",
                ),
            ),
        }
    }
}

fn copy_lookup(lookup: &CancelLookup) -> (copy: CancelLookup)
    ensures
        copy@ == lookup@,
{
    let mut ids: Vec<i64> = Vec::new();
    let mut i: usize = 0;
    while i < lookup.downstream_ids.len()
        invariant
            i <= lookup.downstream_ids@.len(),
            ids@ == lookup.downstream_ids@.take(i as int),
        decreases lookup.downstream_ids@.len() - i,
    {
        ids.push(lookup.downstream_ids[i]);
        i += 1;
    }
    assert(ids@ =~= lookup.downstream_ids@);
    CancelLookup {
        target: ConnectionRef { key: lookup.target.key.clone(), id: lookup.target.id },
        known: lookup.known,
        downstream_ids: ids,
    }
}

/// The error that a cancellation which was not queued stands for.
pub open spec fn cancel_error(result: NotificationSendResult) -> Option<(ErrorKind, Seq<char>)> {
    match result {
        NotificationSendResult::Queued => None,
        NotificationSendResult::QueueFull => Some(
            (ErrorKind::WouldBlock, "bridge: cancel notification queue full"@),
        ),
        NotificationSendResult::ChannelClosed => Some(
            (ErrorKind::BrokenPipe, "bridge: cancel notification channel closed"@),
        ),
        NotificationSendResult::SerializationFailed => Some(
            (ErrorKind::InvalidData, "bridge: failed to serialize cancel notification"@),
        ),
    }
}

/// A cancellation reaches ready connections among those that work on the request
/// only, and each at most once where they are listed once.
pub proof fn only_ready_connections_are_asked(
    connections: Map<KeyView, HandleView>,
    metrics: MetricsView,
    keys: Seq<KeyView>,
)
    ensures
        forall|i: int|
            0 <= i < all_looked_for(connections, metrics, keys).found.len() ==> ({
                let target = #[trigger] all_looked_for(connections, metrics, keys).found[i];
                &&& keys.contains(target.key)
                &&& connections.contains_key(target.key)
                &&& connections[target.key].state is Ready
                &&& connections[target.key].id == target.id
            }),
        keys.no_duplicates() ==> forall|i: int, j: int|
            0 <= i < j < all_looked_for(connections, metrics, keys).found.len() ==> (
            #[trigger] all_looked_for(connections, metrics, keys).found[i]).key != (
            #[trigger] all_looked_for(connections, metrics, keys).found[j]).key,
        forall|key: KeyView| #[trigger]
            keys.contains(key) && connections.contains_key(key) && connections[key].state is Ready
                ==> all_looked_for(connections, metrics, keys).found.contains(
                RefView { key, id: connections[key].id },
            ),
    decreases keys.len(),
{
    if keys.len() > 0 {
        let shorter = keys.drop_last();
        only_ready_connections_are_asked(connections, metrics, shorter);
        let before = all_looked_for(connections, metrics, shorter).found;
        let after = all_looked_for(connections, metrics, keys).found;
        assert forall|i: int| 0 <= i < after.len() implies ({
            let target = #[trigger] after[i];
            &&& keys.contains(target.key)
            &&& connections.contains_key(target.key)
            &&& connections[target.key].state is Ready
            &&& connections[target.key].id == target.id
        }) by {
            if i < before.len() {
                assert(after[i] == before[i]);
                assert(shorter.contains(before[i].key));
                let j = choose|j: int| 0 <= j < shorter.len() && shorter[j] == before[i].key;
                assert(keys[j] == before[i].key);
            } else {
                assert(keys[keys.len() - 1] == after[i].key);
            }
        }
        if keys.no_duplicates() {
            assert forall|i: int, j: int| 0 <= i < j < after.len() implies (#[trigger] after[i]).key
                != (#[trigger] after[j]).key by {
                assert(after[i] == before[i]);
                if j < before.len() {
                    assert(after[j] == before[j]);
                } else {
                    assert(shorter.contains(before[i].key));
                    let k = choose|k: int| 0 <= k < shorter.len() && shorter[k] == before[i].key;
                    assert(keys[k] != keys[keys.len() - 1]);
                }
            }
        }
        assert forall|key: KeyView| #[trigger]
            keys.contains(key) && connections.contains_key(key)
                && connections[key].state is Ready implies after.contains(
            RefView { key, id: connections[key].id },
        ) by {
            let target = RefView { key, id: connections[key].id };
            assert(keys =~= shorter.push(keys.last()));
            crate::seqs::lemma_push_contains(shorter, keys.last(), key);
            if shorter.contains(key) {
                assert(before.contains(target));
                let k = choose|k: int| 0 <= k < before.len() && before[k] == target;
                assert(after[k] == target);
            } else {
                assert(after[after.len() - 1] == target);
            }
        }
    }
}

/// Every downstream request that a connection knows for what the editor cancels is
/// in the plan, with its connection, and nothing else is: each entry is what one of
/// the connections said, whole and in its turn.
pub proof fn every_known_request_is_cancelled(lookups: Seq<LookupView>, i: int, j: int)
    ensures
        ({
            let plan = lookups.filter(calls_for_message());
            &&& 0 <= i < lookups.len() && lookups[i].known && 0 <= j
                < lookups[i].downstream_ids.len() ==> exists|k: int|
                0 <= k < plan.len() && (#[trigger] plan[k]).target == lookups[i].target
                    && plan[k].downstream_ids == lookups[i].downstream_ids
                    && plan[k].downstream_ids.contains(lookups[i].downstream_ids[j])
            &&& 0 <= i < plan.len() ==> plan[i].known && plan[i].downstream_ids.len() > 0
                && lookups.contains(plan[i])
        }),
{
    let keep = calls_for_message();
    let plan = lookups.filter(keep);
    crate::seqs::lemma_filter_members(lookups, keep);
    if 0 <= i < lookups.len() && lookups[i].known && 0 <= j < lookups[i].downstream_ids.len() {
        assert(lookups.contains(lookups[i]));
        assert(keep(lookups[i]));
        assert(plan.contains(lookups[i]));
        let k = choose|k: int| 0 <= k < plan.len() && plan[k] == lookups[i];
        assert(plan[k].target == lookups[i].target);
        assert(plan[k].downstream_ids[j] == lookups[i].downstream_ids[j]);
    }
    if 0 <= i < plan.len() {
        assert(plan.contains(plan[i]));
    }
}

/// A plan of several groups of lookups is the plans of the groups, one after the
/// other: what one connection knows has no influence on another one's entry.
pub proof fn connections_are_cancelled_independently(one: Seq<LookupView>, two: Seq<LookupView>)
    ensures
        (one + two).filter(calls_for_message()) == one.filter(calls_for_message()) + two.filter(
            calls_for_message(),
        ),
{
    Seq::filter_distributes_over_add(one, two, calls_for_message());
}

/// Each lookup that finds nothing is counted once, and nothing else is.
pub proof fn unknown_requests_are_counted(metrics: MetricsView, lookups: Seq<LookupView>)
    requires
        metrics.unknown_id + lookups.len() <= u64::MAX,
    ensures
        unknown_counted(metrics, lookups).unknown_id == metrics.unknown_id + lookups.filter(
            |lookup: LookupView| !lookup.known,
        ).len(),
        unknown_counted(metrics, lookups).successful == metrics.successful,
        unknown_counted(metrics, lookups).no_connection == metrics.no_connection,
        unknown_counted(metrics, lookups).not_ready == metrics.not_ready,
        unknown_counted(metrics, lookups).not_in_registry == metrics.not_in_registry,
        lookups.filter(|lookup: LookupView| !lookup.known).len() <= lookups.len(),
    decreases lookups.len(),
{
    reveal(Seq::filter);
    if lookups.len() > 0 {
        unknown_requests_are_counted(metrics, lookups.drop_last());
    }
}

/// Of the connections that are looked for, each is found, counted as missing or
/// counted as not ready, and only one of these.
pub proof fn every_search_ends_in_one_way(
    connections: Map<KeyView, HandleView>,
    metrics: MetricsView,
    keys: Seq<KeyView>,
)
    requires
        metrics.no_connection + keys.len() <= u64::MAX,
        metrics.not_ready + keys.len() <= u64::MAX,
    ensures
        ({
            let search = all_looked_for(connections, metrics, keys);
            let missing = keys.filter(|key: KeyView| !connections.contains_key(key));
            let waiting = keys.filter(
                |key: KeyView| connections.contains_key(key) && !(connections[key].state is Ready),
            );
            &&& search.metrics.no_connection == metrics.no_connection + missing.len()
            &&& search.metrics.not_ready == metrics.not_ready + waiting.len()
            &&& search.found.len() + missing.len() + waiting.len() == keys.len()
            &&& search.metrics.successful == metrics.successful
            &&& search.metrics.unknown_id == metrics.unknown_id
            &&& search.metrics.not_in_registry == metrics.not_in_registry
        }),
    decreases keys.len(),
{
    reveal(Seq::filter);
    if keys.len() > 0 {
        every_search_ends_in_one_way(connections, metrics, keys.drop_last());
    }
}

/// A cancellation counts as handed on exactly where its message was queued. Only a
/// full queue is worth another try.
pub proof fn only_queued_cancellations_count(result: NotificationSendResult)
    ensures
        cancel_error(result) is None <==> result is Queued,
        cancel_error(result) matches Some(error) ==> (error.0 is WouldBlock <==> result
            is QueueFull) && (error.0 is BrokenPipe <==> result is ChannelClosed) && (
        error.0 is InvalidData <==> result is SerializationFailed),
{
}

/// A lookup is its connection, whether it knows the request, and all the numbers that
/// it gave; a list has the content of each of its entries.
pub proof fn lookups_say_every_part(
    one: CancelLookup,
    two: CancelLookup,
    list: Seq<CancelLookup>,
    i: int,
)
    ensures
        one@ == two@ <==> one.target@ == two.target@ && one.known == two.known
            && one.downstream_ids@ == two.downstream_ids@,
        lookup_views(list).len() == list.len(),
        0 <= i < list.len() ==> lookup_views(list)[i] == list[i]@,
{
}

} // verus!
