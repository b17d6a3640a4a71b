//! The mathematical model of the virtual documents that are open downstream,
//! and the laws that every change to them keeps.

use crate::connection_key::{KeyView, other_than};
use crate::seqs::{
    lemma_filter_keeps_all, lemma_filter_members, lemma_filter_no_duplicates, lemma_push_contains,
};
use crate::virtual_uri::UriView;
use vstd::prelude::*;

verus! {

/// A virtual document and the connection it was opened on.
pub struct DocView {
    pub uri: UriView,
    pub key: KeyView,
}

/// Everything that is known about open virtual documents.
#[verifier::ext_equal]
pub struct TrackerView {
    /// For each connection, the version of each document that it holds.
    pub versions: Map<KeyView, Map<Seq<char>, i32>>,
    /// For each host document, the virtual documents that were opened for it.
    pub hosts: Map<Seq<char>, Seq<DocView>>,
    /// For each document, how many openings are counted.
    pub opened: Map<Seq<char>, usize>,
    /// For each document, the connections that it is open on.
    pub servers: Map<Seq<char>, Seq<KeyView>>,
}

/// Nothing is open.
pub open spec fn nothing_open() -> TrackerView {
    TrackerView {
        versions: Map::empty(),
        hosts: Map::empty(),
        opened: Map::empty(),
        servers: Map::empty(),
    }
}

/// Whether a connection holds a document.
pub open spec fn holds(
    versions: Map<KeyView, Map<Seq<char>, i32>>,
    key: KeyView,
    uri: Seq<char>,
) -> bool {
    versions.contains_key(key) && versions[key].contains_key(uri)
}

/// The documents of a connection.
pub open spec fn documents_of(
    versions: Map<KeyView, Map<Seq<char>, i32>>,
    key: KeyView,
) -> Map<Seq<char>, i32> {
    if versions.contains_key(key) {
        versions[key]
    } else {
        Map::empty()
    }
}

/// The connections that hold a document.
pub open spec fn holders(
    versions: Map<KeyView, Map<Seq<char>, i32>>,
    uri: Seq<char>,
) -> Set<KeyView> {
    versions.dom().filter(|key: KeyView| versions[key].contains_key(uri))
}

/// The connections that a document is open on.
pub open spec fn servers_of(
    servers: Map<Seq<char>, Seq<KeyView>>,
    uri: Seq<char>,
) -> Seq<KeyView> {
    if servers.contains_key(uri) {
        servers[uri]
    } else {
        Seq::empty()
    }
}

/// The virtual documents of a host document.
pub open spec fn docs_of(hosts: Map<Seq<char>, Seq<DocView>>, host: Seq<char>) -> Seq<DocView> {
    if hosts.contains_key(host) {
        hosts[host]
    } else {
        Seq::empty()
    }
}

/// The connections of a document with one more.
pub open spec fn with_server(
    servers: Map<Seq<char>, Seq<KeyView>>,
    uri: Seq<char>,
    key: KeyView,
) -> Map<Seq<char>, Seq<KeyView>> {
    let listed = servers_of(servers, uri);
    servers.insert(
        uri,
        if listed.contains(key) {
            listed
        } else {
            listed.push(key)
        },
    )
}

/// The connections of a document without one of them. A document that is open
/// nowhere is not listed.
pub open spec fn without_server(
    servers: Map<Seq<char>, Seq<KeyView>>,
    uri: Seq<char>,
    key: KeyView,
) -> Map<Seq<char>, Seq<KeyView>> {
    if !servers.contains_key(uri) {
        servers
    } else if servers[uri].filter(other_than(key)).len() == 0 {
        servers.remove(uri)
    } else {
        servers.insert(uri, servers[uri].filter(other_than(key)))
    }
}

/// The connections of several documents, each without one of them.
pub open spec fn without_servers(
    servers: Map<Seq<char>, Seq<KeyView>>,
    docs: Seq<DocView>,
) -> Map<Seq<char>, Seq<KeyView>>
    decreases docs.len(),
{
    if docs.len() == 0 {
        servers
    } else {
        without_server(
            without_servers(servers, docs.drop_last()),
            docs.last().uri.uri,
            docs.last().key,
        )
    }
}

/// The counts with one opening of a document less. A document without openings
/// is not counted.
pub open spec fn counted_down(opened: Map<Seq<char>, usize>, uri: Seq<char>) -> Map<
    Seq<char>,
    usize,
> {
    if !opened.contains_key(uri) {
        opened
    } else if opened[uri] <= 1 {
        opened.remove(uri)
    } else {
        opened.insert(uri, (opened[uri] - 1) as usize)
    }
}

/// The number of openings that are counted for a document.
pub open spec fn count_of(opened: Map<Seq<char>, usize>, uri: Seq<char>) -> usize {
    if opened.contains_key(uri) {
        opened[uri]
    } else {
        0
    }
}

/// A connection claims a document that it does not hold yet.
pub open spec fn claimed_by(tracker: TrackerView, uri: Seq<char>, key: KeyView) -> TrackerView {
    TrackerView {
        versions: tracker.versions.insert(
            key,
            documents_of(tracker.versions, key).insert(uri, 1),
        ),
        opened: tracker.opened.insert(uri, (count_of(tracker.opened, uri) + 1) as usize),
        servers: with_server(tracker.servers, uri, key),
        ..tracker
    }
}

/// A connection asks for a document that it holds already. Only the connection
/// itself may become known by that.
pub open spec fn claim_refused(tracker: TrackerView, key: KeyView) -> TrackerView {
    TrackerView {
        versions: tracker.versions.insert(key, documents_of(tracker.versions, key)),
        ..tracker
    }
}

/// A connection gives a document up.
pub open spec fn given_up(tracker: TrackerView, uri: Seq<char>, key: KeyView) -> TrackerView {
    TrackerView {
        versions: if tracker.versions.contains_key(key) {
            tracker.versions.insert(key, tracker.versions[key].remove(uri))
        } else {
            tracker.versions
        },
        opened: counted_down(tracker.opened, uri),
        servers: without_server(tracker.servers, uri, key),
        ..tracker
    }
}

/// Whether a list has an entry for a document on a connection.
pub open spec fn lists_doc(docs: Seq<DocView>, uri: Seq<char>, key: KeyView) -> bool {
    exists|i: int| 0 <= i < docs.len() && (#[trigger] docs[i]).uri.uri == uri && docs[i].key == key
}

/// A document is recorded as open on a connection, for a host document.
pub open spec fn recorded_open(
    tracker: TrackerView,
    host: Seq<char>,
    uri: UriView,
    key: KeyView,
) -> TrackerView {
    let held = documents_of(tracker.versions, key);
    let docs = docs_of(tracker.hosts, host);
    TrackerView {
        versions: tracker.versions.insert(
            key,
            if held.contains_key(uri.uri) {
                held
            } else {
                held.insert(uri.uri, 1)
            },
        ),
        hosts: tracker.hosts.insert(
            host,
            if lists_doc(docs, uri.uri, key) {
                docs
            } else {
                docs.push(DocView { uri, key })
            },
        ),
        opened: if tracker.opened.contains_key(uri.uri) {
            tracker.opened
        } else {
            tracker.opened.insert(uri.uri, 1)
        },
        servers: with_server(tracker.servers, uri.uri, key),
    }
}

/// The version after a version, starting from the smallest again after the
/// largest.
pub open spec fn version_after(version: i32) -> i32 {
    if version < i32::MAX {
        (version + 1) as i32
    } else {
        i32::MIN
    }
}

/// Holds of the documents on other connections.
pub open spec fn on_other_connection(key: KeyView) -> spec_fn(DocView) -> bool {
    |doc: DocView| doc.key != key
}

/// Everything that one connection held is forgotten.
pub open spec fn purged(tracker: TrackerView, key: KeyView) -> TrackerView {
    TrackerView {
        versions: tracker.versions.remove(key),
        hosts: Map::new(
            |host: Seq<char>|
                tracker.hosts.contains_key(host) && tracker.hosts[host].filter(
                    on_other_connection(key),
                ).len() > 0,
            |host: Seq<char>| tracker.hosts[host].filter(on_other_connection(key)),
        ),
        opened: Map::new(
            |uri: Seq<char>|
                tracker.opened.contains_key(uri) && !(holds(tracker.versions, key, uri)
                    && tracker.opened[uri] <= 1),
            |uri: Seq<char>|
                if holds(tracker.versions, key, uri) {
                    (tracker.opened[uri] - 1) as usize
                } else {
                    tracker.opened[uri]
                },
        ),
        servers: Map::new(
            |uri: Seq<char>|
                tracker.servers.contains_key(uri) && !(holds(tracker.versions, key, uri)
                    && tracker.servers[uri].filter(other_than(key)).len() == 0),
            |uri: Seq<char>|
                if holds(tracker.versions, key, uri) {
                    tracker.servers[uri].filter(other_than(key))
                } else {
                    tracker.servers[uri]
                },
        ),
    }
}

/// Holds of the documents with this address.
pub open spec fn at_uri(uri: Seq<char>) -> spec_fn(DocView) -> bool {
    |doc: DocView| doc.uri.uri == uri
}

/// Holds of the documents with another address.
pub open spec fn not_at_uri(uri: Seq<char>) -> spec_fn(DocView) -> bool {
    |doc: DocView| doc.uri.uri != uri
}

/// Holds of the document with this address on this connection.
pub open spec fn at_doc(uri: Seq<char>, key: KeyView) -> spec_fn(DocView) -> bool {
    |doc: DocView| doc.uri.uri == uri && doc.key == key
}

/// Holds of all documents but the one with this address on this connection.
pub open spec fn not_at_doc(uri: Seq<char>, key: KeyView) -> spec_fn(DocView) -> bool {
    |doc: DocView| !(doc.uri.uri == uri && doc.key == key)
}

/// Holds of the documents in one of these regions.
pub open spec fn in_regions(regions: Seq<Seq<char>>) -> spec_fn(DocView) -> bool {
    |doc: DocView| regions.contains(doc.uri.region_id)
}

/// Holds of the documents in none of these regions.
pub open spec fn outside_regions(regions: Seq<Seq<char>>) -> spec_fn(DocView) -> bool {
    |doc: DocView| !regions.contains(doc.uri.region_id)
}

/// Holds of the documents whose region is expected in another language.
pub open spec fn is_replaced(expected: Map<Seq<char>, String>) -> spec_fn(DocView) -> bool {
    |doc: DocView|
        expected.contains_key(doc.uri.region_id) && expected[doc.uri.region_id]@
            != doc.uri.language
}

/// Holds of the documents whose region is not expected in another language.
pub open spec fn not_replaced(expected: Map<Seq<char>, String>) -> spec_fn(DocView) -> bool {
    |doc: DocView| !is_replaced(expected)(doc)
}

/// The documents of a host that `go` picks are taken out, those that `stay`
/// picks remain.
pub open spec fn host_docs_split(
    tracker: TrackerView,
    host: Seq<char>,
    go: spec_fn(DocView) -> bool,
    stay: spec_fn(DocView) -> bool,
) -> TrackerView {
    if tracker.hosts.contains_key(host) {
        TrackerView {
            hosts: tracker.hosts.insert(host, tracker.hosts[host].filter(stay)),
            servers: without_servers(tracker.servers, tracker.hosts[host].filter(go)),
            ..tracker
        }
    } else {
        tracker
    }
}

/// All documents of a host are taken out.
pub open spec fn host_docs_removed(tracker: TrackerView, host: Seq<char>) -> TrackerView {
    TrackerView {
        hosts: tracker.hosts.remove(host),
        servers: without_servers(tracker.servers, docs_of(tracker.hosts, host)),
        ..tracker
    }
}

/// What always holds of the tracked documents: every counted opening is backed
/// by a connection that holds the document, a count is never zero, and a
/// document lists at least one connection, none twice, and only connections that
/// hold it.
pub open spec fn tracking_is_consistent(tracker: TrackerView) -> bool {
    &&& tracker.versions.dom().finite()
    &&& forall|uri: Seq<char>| #[trigger]
        tracker.opened.contains_key(uri) ==> 1 <= tracker.opened[uri] <= holders(
            tracker.versions,
            uri,
        ).len()
    &&& forall|uri: Seq<char>| #[trigger]
        tracker.servers.contains_key(uri) ==> tracker.servers[uri].len() > 0
            && tracker.servers[uri].no_duplicates()
    &&& listed_connections_hold(tracker.versions, tracker.servers)
}

/// Every connection that a document lists holds it.
pub open spec fn listed_connections_hold(
    versions: Map<KeyView, Map<Seq<char>, i32>>,
    servers: Map<Seq<char>, Seq<KeyView>>,
) -> bool {
    forall|uri: Seq<char>, key: KeyView| #[trigger]
        servers_of(servers, uri).contains(key) ==> holds(versions, key, uri)
}

proof fn lemma_listed_after_adding(
    servers: Map<Seq<char>, Seq<KeyView>>,
    uri: Seq<char>,
    key: KeyView,
)
    ensures
        forall|u: Seq<char>, k: KeyView| #[trigger]
            servers_of(with_server(servers, uri, key), u).contains(k) <==> servers_of(
                servers,
                u,
            ).contains(k) || (u == uri && k == key),
{
    assert forall|u: Seq<char>, k: KeyView| #[trigger]
        servers_of(with_server(servers, uri, key), u).contains(k) <==> servers_of(
            servers,
            u,
        ).contains(k) || (u == uri && k == key) by {
        lemma_push_contains(servers_of(servers, uri), key, k);
    }
}

proof fn lemma_listed_after_removing(
    servers: Map<Seq<char>, Seq<KeyView>>,
    uri: Seq<char>,
    key: KeyView,
)
    ensures
        forall|u: Seq<char>, k: KeyView| #[trigger]
            servers_of(without_server(servers, uri, key), u).contains(k) <==> servers_of(
                servers,
                u,
            ).contains(k) && !(u == uri && k == key),
{
    if servers.contains_key(uri) {
        lemma_filter_members(servers[uri], other_than(key));
    }
    assert forall|u: Seq<char>, k: KeyView| #[trigger]
        servers_of(without_server(servers, uri, key), u).contains(k) <==> servers_of(
            servers,
            u,
        ).contains(k) && !(u == uri && k == key) by {
        if u == uri && servers.contains_key(uri) {
            let left = servers[uri].filter(other_than(key));
            assert(left.contains(k) <==> servers[uri].contains(k) && other_than(key)(k));
            if left.len() == 0 {
                assert(!left.contains(k));
            }
        }
    }
}

proof fn lemma_listed_after_removing_all(servers: Map<Seq<char>, Seq<KeyView>>, docs: Seq<DocView>)
    ensures
        forall|u: Seq<char>, k: KeyView| #[trigger]
            servers_of(without_servers(servers, docs), u).contains(k) ==> servers_of(
                servers,
                u,
            ).contains(k),
    decreases docs.len(),
{
    if docs.len() > 0 {
        lemma_listed_after_removing_all(servers, docs.drop_last());
        lemma_listed_after_removing(
            without_servers(servers, docs.drop_last()),
            docs.last().uri.uri,
            docs.last().key,
        );
    }
}

proof fn lemma_holders_finite(versions: Map<KeyView, Map<Seq<char>, i32>>, uri: Seq<char>)
    requires
        versions.dom().finite(),
    ensures
        holders(versions, uri).finite(),
        holders(versions, uri).len() <= versions.dom().len(),
{
    vstd::set_lib::lemma_len_subset(holders(versions, uri), versions.dom());
}

/// The holders of documents after one connection changed what it holds.
proof fn lemma_holders_after(
    versions: Map<KeyView, Map<Seq<char>, i32>>,
    key: KeyView,
    held: Map<Seq<char>, i32>,
    uri: Seq<char>,
)
    requires
        versions.dom().finite(),
    ensures
        holders(versions.insert(key, held), uri) == (if held.contains_key(uri) {
            holders(versions, uri).insert(key)
        } else {
            holders(versions, uri).remove(key)
        }),
        holders(versions, uri).finite(),
        holders(versions, uri).contains(key) == holds(versions, key, uri),
{
    let after = versions.insert(key, held);
    lemma_holders_finite(versions, uri);
    if held.contains_key(uri) {
        assert(holders(after, uri) =~= holders(versions, uri).insert(key));
    } else {
        assert(holders(after, uri) =~= holders(versions, uri).remove(key));
    }
}

/// A connection that changes versions only leaves the holders as they are.
pub proof fn lemma_same_holders(
    versions: Map<KeyView, Map<Seq<char>, i32>>,
    key: KeyView,
    held: Map<Seq<char>, i32>,
)
    requires
        versions.dom().finite(),
        versions.contains_key(key),
        held.dom() == versions[key].dom(),
    ensures
        forall|uri: Seq<char>| #[trigger]
            holders(versions.insert(key, held), uri) == holders(versions, uri),
{
    assert forall|uri: Seq<char>| #[trigger]
        holders(versions.insert(key, held), uri) == holders(versions, uri) by {
        lemma_holders_after(versions, key, held, uri);
        assert(held.contains_key(uri) == held.dom().contains(uri));
        assert(holders(versions.insert(key, held), uri) =~= holders(versions, uri));
    }
}

proof fn lemma_servers_after_adding(
    servers: Map<Seq<char>, Seq<KeyView>>,
    uri: Seq<char>,
    key: KeyView,
)
    requires
        forall|u: Seq<char>| #[trigger]
            servers.contains_key(u) ==> servers[u].len() > 0 && servers[u].no_duplicates(),
    ensures
        forall|u: Seq<char>| #[trigger]
            with_server(servers, uri, key).contains_key(u) ==> with_server(
                servers,
                uri,
                key,
            )[u].len() > 0 && with_server(servers, uri, key)[u].no_duplicates(),
{
    let after = with_server(servers, uri, key);
    assert forall|u: Seq<char>| #[trigger] after.contains_key(u) implies after[u].len() > 0
        && after[u].no_duplicates() by {
        if u == uri {
            let listed = servers_of(servers, uri);
            if !listed.contains(key) {
                assert forall|i: int, j: int| 0 <= i < j < after[u].len() implies after[u][i]
                    != after[u][j] by {
                    if j == listed.len() {
                        assert(listed.contains(listed[i]));
                    } else {
                        assert(servers.contains_key(uri));
                    }
                }
            } else {
                assert(servers.contains_key(uri));
            }
        } else {
            assert(servers.contains_key(u));
        }
    }
}

proof fn lemma_servers_after_removing(
    servers: Map<Seq<char>, Seq<KeyView>>,
    uri: Seq<char>,
    key: KeyView,
)
    requires
        forall|u: Seq<char>| #[trigger]
            servers.contains_key(u) ==> servers[u].len() > 0 && servers[u].no_duplicates(),
    ensures
        forall|u: Seq<char>| #[trigger]
            without_server(servers, uri, key).contains_key(u) ==> without_server(
                servers,
                uri,
                key,
            )[u].len() > 0 && without_server(servers, uri, key)[u].no_duplicates(),
{
    let after = without_server(servers, uri, key);
    if servers.contains_key(uri) {
        lemma_filter_no_duplicates(servers[uri], other_than(key));
    }
    assert forall|u: Seq<char>| #[trigger] after.contains_key(u) implies after[u].len() > 0
        && after[u].no_duplicates() by {
        assert(servers.contains_key(u));
    }
}

proof fn lemma_servers_after_removing_all(
    servers: Map<Seq<char>, Seq<KeyView>>,
    docs: Seq<DocView>,
)
    requires
        forall|u: Seq<char>| #[trigger]
            servers.contains_key(u) ==> servers[u].len() > 0 && servers[u].no_duplicates(),
    ensures
        forall|u: Seq<char>| #[trigger]
            without_servers(servers, docs).contains_key(u) ==> without_servers(
                servers,
                docs,
            )[u].len() > 0 && without_servers(servers, docs)[u].no_duplicates(),
    decreases docs.len(),
{
    if docs.len() > 0 {
        lemma_servers_after_removing_all(servers, docs.drop_last());
        lemma_servers_after_removing(
            without_servers(servers, docs.drop_last()),
            docs.last().uri.uri,
            docs.last().key,
        );
    }
}

/// Claiming and giving up keep the tracked documents consistent.
pub proof fn claims_stay_consistent(tracker: TrackerView, uri: Seq<char>, key: KeyView)
    requires
        tracking_is_consistent(tracker),
    ensures
        tracking_is_consistent(claim_refused(tracker, key)),
        tracking_is_consistent(given_up(tracker, uri, key)),
        !holds(tracker.versions, key, uri) && count_of(tracker.opened, uri) < usize::MAX
            ==> tracking_is_consistent(claimed_by(tracker, uri, key)),
        !holds(tracker.versions, key, uri) ==> count_of(tracker.opened, uri) < holders(
            claimed_by(tracker, uri, key).versions,
            uri,
        ).len() <= claimed_by(tracker, uri, key).versions.dom().len(),
{
    let held = documents_of(tracker.versions, key);
    let refused = claim_refused(tracker, key);
    lemma_listed_after_adding(tracker.servers, uri, key);
    lemma_listed_after_removing(tracker.servers, uri, key);
    assert forall|u: Seq<char>| #[trigger] refused.opened.contains_key(u) implies 1
        <= refused.opened[u] <= holders(refused.versions, u).len() by {
        lemma_holders_after(tracker.versions, key, held, u);
        assert(tracker.opened.contains_key(u));
        assert(holders(refused.versions, u) =~= holders(tracker.versions, u));
    }
    let up = given_up(tracker, uri, key);
    lemma_servers_after_removing(tracker.servers, uri, key);
    assert forall|u: Seq<char>| #[trigger] up.opened.contains_key(u) implies 1 <= up.opened[u]
        <= holders(up.versions, u).len() by {
        assert(tracker.opened.contains_key(u));
        if tracker.versions.contains_key(key) {
            lemma_holders_after(tracker.versions, key, tracker.versions[key].remove(uri), u);
            if u != uri {
                assert(holders(up.versions, u) =~= holders(tracker.versions, u));
            }
        }
    }
    let claim = claimed_by(tracker, uri, key);
    lemma_servers_after_adding(tracker.servers, uri, key);
    if !holds(tracker.versions, key, uri) {
        lemma_holders_after(tracker.versions, key, held.insert(uri, 1), uri);
        lemma_holders_finite(claim.versions, uri);
        assert(count_of(tracker.opened, uri) <= holders(tracker.versions, uri).len()) by {
            if tracker.opened.contains_key(uri) {
            }
        }
        assert forall|u: Seq<char>| #[trigger] claim.opened.contains_key(u) && count_of(
            tracker.opened,
            uri,
        ) < usize::MAX implies 1 <= claim.opened[u] <= holders(claim.versions, u).len() by {
            lemma_holders_after(tracker.versions, key, held.insert(uri, 1), u);
            if u != uri {
                assert(tracker.opened.contains_key(u));
                assert(holders(claim.versions, u) =~= holders(tracker.versions, u));
            }
        }
    }
}

/// Recording a document as open keeps the tracked documents consistent.
pub proof fn recording_stays_consistent(
    tracker: TrackerView,
    host: Seq<char>,
    uri: UriView,
    key: KeyView,
)
    requires
        tracking_is_consistent(tracker),
    ensures
        tracking_is_consistent(recorded_open(tracker, host, uri, key)),
{
    let held = documents_of(tracker.versions, key);
    let after = recorded_open(tracker, host, uri, key);
    let now = after.versions[key];
    assert(after.versions =~= tracker.versions.insert(key, now));
    lemma_listed_after_adding(tracker.servers, uri.uri, key);
    lemma_servers_after_adding(tracker.servers, uri.uri, key);
    assert forall|u: Seq<char>| #[trigger] after.opened.contains_key(u) implies 1
        <= after.opened[u] <= holders(after.versions, u).len() by {
        lemma_holders_after(tracker.versions, key, now, u);
        if tracker.opened.contains_key(u) {
            if !now.contains_key(u) {
                assert(holders(after.versions, u) =~= holders(tracker.versions, u));
            }
        } else {
            assert(u == uri.uri);
            assert(holders(after.versions, u).contains(key));
            vstd::set_lib::lemma_len_subset(set![key], holders(after.versions, u));
        }
    }
}

/// Purging a connection keeps the tracked documents consistent.
pub proof fn purging_stays_consistent(tracker: TrackerView, key: KeyView)
    requires
        tracking_is_consistent(tracker),
    ensures
        tracking_is_consistent(purged(tracker, key)),
{
    let after = purged(tracker, key);
    assert forall|u: Seq<char>| #[trigger] after.opened.contains_key(u) implies 1
        <= after.opened[u] <= holders(after.versions, u).len() by {
        assert(tracker.opened.contains_key(u));
        lemma_holders_finite(tracker.versions, u);
        assert(holders(after.versions, u) =~= holders(tracker.versions, u).remove(key));
    }
    assert forall|u: Seq<char>| #[trigger] after.servers.contains_key(u) implies after.servers[u].len()
        > 0 && after.servers[u].no_duplicates() by {
        assert(tracker.servers.contains_key(u));
        lemma_filter_no_duplicates(tracker.servers[u], other_than(key));
    }
    assert forall|u: Seq<char>, k: KeyView| #[trigger] servers_of(after.servers, u).contains(
        k,
    ) implies holds(after.versions, k, u) by {
        lemma_filter_members(servers_of(tracker.servers, u), other_than(key));
        assert(servers_of(tracker.servers, u).contains(k));
        assert(holds(tracker.versions, k, u));
        if k == key {
            assert(servers_of(tracker.servers, u).filter(other_than(key)).contains(k));
        }
    }
}

/// Taking documents of a host out keeps the tracked documents consistent.
pub proof fn host_removal_stays_consistent(
    tracker: TrackerView,
    host: Seq<char>,
    go: spec_fn(DocView) -> bool,
    stay: spec_fn(DocView) -> bool,
)
    requires
        tracking_is_consistent(tracker),
    ensures
        tracking_is_consistent(host_docs_split(tracker, host, go, stay)),
        tracking_is_consistent(host_docs_removed(tracker, host)),
{
    lemma_servers_after_removing_all(tracker.servers, docs_of(tracker.hosts, host));
    lemma_listed_after_removing_all(tracker.servers, docs_of(tracker.hosts, host));
    if tracker.hosts.contains_key(host) {
        lemma_servers_after_removing_all(tracker.servers, tracker.hosts[host].filter(go));
        lemma_listed_after_removing_all(tracker.servers, tracker.hosts[host].filter(go));
    }
}

/// What is tracked while a connection is being purged: its versions are gone,
/// and the documents in `done` are no longer counted for it.
pub open spec fn partly_purged(
    tracker: TrackerView,
    key: KeyView,
    done: Seq<Seq<char>>,
) -> TrackerView {
    TrackerView {
        versions: tracker.versions.remove(key),
        hosts: tracker.hosts,
        opened: Map::new(
            |uri: Seq<char>|
                tracker.opened.contains_key(uri) && !(done.contains(uri) && tracker.opened[uri]
                    <= 1),
            |uri: Seq<char>|
                if done.contains(uri) {
                    (tracker.opened[uri] - 1) as usize
                } else {
                    tracker.opened[uri]
                },
        ),
        servers: Map::new(
            |uri: Seq<char>|
                tracker.servers.contains_key(uri) && !(done.contains(uri)
                    && tracker.servers[uri].filter(other_than(key)).len() == 0),
            |uri: Seq<char>|
                if done.contains(uri) {
                    tracker.servers[uri].filter(other_than(key))
                } else {
                    tracker.servers[uri]
                },
        ),
    }
}

pub proof fn lemma_partly_purged_start(tracker: TrackerView, key: KeyView)
    ensures
        partly_purged(tracker, key, Seq::empty()) == (TrackerView {
            versions: tracker.versions.remove(key),
            ..tracker
        }),
{
    let start = partly_purged(tracker, key, Seq::empty());
    assert(start.opened =~= tracker.opened);
    assert(start.servers =~= tracker.servers);
}

pub proof fn lemma_partly_purged_step(
    tracker: TrackerView,
    key: KeyView,
    done: Seq<Seq<char>>,
    uri: Seq<char>,
)
    requires
        !done.contains(uri),
    ensures
        ({
            let now = partly_purged(tracker, key, done);
            let next = partly_purged(tracker, key, done.push(uri));
            &&& next.opened == counted_down(now.opened, uri)
            &&& next.servers == without_server(now.servers, uri, key)
            &&& next.versions == now.versions
            &&& next.hosts == now.hosts
        }),
{
    let now = partly_purged(tracker, key, done);
    let next = partly_purged(tracker, key, done.push(uri));
    assert forall|other: Seq<char>| #[trigger]
        done.push(uri).contains(other) == (done.contains(other) || other == uri) by {
        lemma_push_contains(done, uri, other);
    }
    assert(next.opened =~= counted_down(now.opened, uri));
    assert(next.servers =~= without_server(now.servers, uri, key));
}

pub proof fn lemma_partly_purged_end(tracker: TrackerView, key: KeyView, done: Seq<Seq<char>>)
    requires
        forall|uri: Seq<char>| #[trigger] done.contains(uri) <==> holds(tracker.versions, key, uri),
    ensures
        partly_purged(tracker, key, done) == (TrackerView {
            hosts: tracker.hosts,
            ..purged(tracker, key)
        }),
{
    let end = partly_purged(tracker, key, done);
    assert(end.opened =~= purged(tracker, key).opened);
    assert(end.servers =~= purged(tracker, key).servers);
}

/// Giving a claim up right away leaves everything as it was: the counts, what
/// each connection holds, the hosts, and the connections of every document.
pub proof fn giving_a_claim_up_undoes_it(tracker: TrackerView, uri: Seq<char>, key: KeyView)
    requires
        tracking_is_consistent(tracker),
        !holds(tracker.versions, key, uri),
        count_of(tracker.opened, uri) < usize::MAX,
    ensures
        ({
            let after = given_up(claimed_by(tracker, uri, key), uri, key);
            &&& after.opened == tracker.opened
            &&& after.hosts == tracker.hosts
            &&& forall|other: KeyView| #[trigger]
                documents_of(after.versions, other) == documents_of(tracker.versions, other)
            &&& after.servers == tracker.servers
        }),
{
    let claim = claimed_by(tracker, uri, key);
    let after = given_up(claim, uri, key);
    assert(after.opened =~= tracker.opened);
    assert forall|other: KeyView| #[trigger]
        documents_of(after.versions, other) == documents_of(tracker.versions, other) by {
        assert(documents_of(after.versions, other) =~= documents_of(tracker.versions, other));
    }
    let listed = servers_of(tracker.servers, uri);
    assert(!listed.contains(key));
    assert forall|i: int| 0 <= i < listed.len() implies other_than(key)(#[trigger] listed[i]) by {
        assert(listed.contains(listed[i]));
    }
    lemma_filter_keeps_all(listed, other_than(key));
    listed.lemma_filter_push(key, other_than(key));
    assert(after.servers =~= tracker.servers);
}

/// A document that a connection gave up, or that was purged with it, can be
/// claimed by it again.
pub proof fn a_document_given_up_can_be_claimed_again(
    tracker: TrackerView,
    uri: Seq<char>,
    key: KeyView,
)
    ensures
        !holds(given_up(tracker, uri, key).versions, key, uri),
        !holds(purged(tracker, key).versions, key, uri),
{
}

/// A document that a connection claimed is held by it in version one, is open
/// there, and cannot be claimed by it a second time.
pub proof fn a_claim_is_exclusive(tracker: TrackerView, uri: Seq<char>, key: KeyView)
    ensures
        ({
            let after = claimed_by(tracker, uri, key);
            &&& holds(after.versions, key, uri)
            &&& after.versions[key][uri] == 1
            &&& servers_of(after.servers, uri).contains(key)
        }),
{
    let listed = servers_of(tracker.servers, uri);
    if !listed.contains(key) {
        lemma_push_contains(listed, key, key);
    }
}

/// Every document is counted once for each connection that holds it.
pub open spec fn counts_are_exact(tracker: TrackerView) -> bool {
    &&& tracker.versions.dom().finite()
    &&& forall|uri: Seq<char>|
        count_of(tracker.opened, uri) == (#[trigger] holders(tracker.versions, uri)).len()
    &&& forall|uri: Seq<char>| #[trigger]
        tracker.opened.contains_key(uri) ==> tracker.opened[uri] > 0
}

/// Claims, recordings of claimed documents, giving up what is held, closing a host
/// and purging keep the counts exact. So a document that two connections hold stays open
/// until both have given it up.
pub proof fn exact_counts_stay_exact(
    tracker: TrackerView,
    host: Seq<char>,
    uri: UriView,
    key: KeyView,
)
    requires
        counts_are_exact(tracker),
    ensures
        counts_are_exact(nothing_open()),
        counts_are_exact(claim_refused(tracker, key)),
        counts_are_exact(host_docs_removed(tracker, host)),
        !holds(tracker.versions, key, uri.uri) && count_of(tracker.opened, uri.uri) < usize::MAX
            ==> counts_are_exact(claimed_by(tracker, uri.uri, key)),
        holds(tracker.versions, key, uri.uri) ==> counts_are_exact(
            given_up(tracker, uri.uri, key),
        ),
        holds(tracker.versions, key, uri.uri) ==> counts_are_exact(
            recorded_open(tracker, host, uri, key),
        ),
        counts_are_exact(purged(tracker, key)),
{
    let held = documents_of(tracker.versions, key);
    assert forall|u: Seq<char>| (#[trigger] holders(nothing_open().versions, u)).len() == 0 by {
        assert(holders(nothing_open().versions, u) =~= Set::<KeyView>::empty());
    }
    let refused = claim_refused(tracker, key);
    assert forall|u: Seq<char>|
        count_of(refused.opened, u) == (#[trigger] holders(refused.versions, u)).len() by {
        lemma_holders_after(tracker.versions, key, held, u);
        assert(count_of(tracker.opened, u) == holders(tracker.versions, u).len());
        assert(holders(refused.versions, u) =~= holders(tracker.versions, u));
    }
    if !holds(tracker.versions, key, uri.uri) && count_of(tracker.opened, uri.uri) < usize::MAX {
        let after = claimed_by(tracker, uri.uri, key);
        assert forall|u: Seq<char>|
            count_of(after.opened, u) == (#[trigger] holders(after.versions, u)).len() by {
            lemma_holders_after(tracker.versions, key, held.insert(uri.uri, 1), u);
            assert(count_of(tracker.opened, u) == holders(tracker.versions, u).len());
            if u != uri.uri {
                assert(holders(after.versions, u) =~= holders(tracker.versions, u));
            }
        }
    }
    if holds(tracker.versions, key, uri.uri) {
        let up = given_up(tracker, uri.uri, key);
        assert forall|u: Seq<char>| count_of(up.opened, u) == (#[trigger] holders(
            up.versions,
            u,
        )).len() by {
            lemma_holders_after(tracker.versions, key, tracker.versions[key].remove(uri.uri), u);
            assert(count_of(tracker.opened, u) == holders(tracker.versions, u).len());
            if u != uri.uri {
                assert(holders(up.versions, u) =~= holders(tracker.versions, u));
            }
        }
        let recorded = recorded_open(tracker, host, uri, key);
        assert(recorded.versions =~= tracker.versions);
        lemma_holders_after(tracker.versions, key, held, uri.uri);
        assert(holders(tracker.versions, uri.uri).contains(key));
        assert(count_of(tracker.opened, uri.uri) == holders(tracker.versions, uri.uri).len());
        vstd::set_lib::lemma_len_subset(set![key], holders(tracker.versions, uri.uri));
        assert(recorded.opened =~= tracker.opened);
    }
    lemma_exact_after_purging(tracker, key);
}

/// Purging forgets exactly what one connection held: it is listed for no document
/// any more, it holds none and may claim each again, and no host has a document on
/// it. Every other connection keeps what it holds and its place in every list.
/// Where each document was counted once for each connection that held it, a
/// document counts as open exactly while some connection still holds it.
pub proof fn purging_forgets_one_connection(
    tracker: TrackerView,
    key: KeyView,
    uri: Seq<char>,
    host: Seq<char>,
)
    requires
        tracking_is_consistent(tracker),
    ensures
        ({
            let after = purged(tracker, key);
            &&& servers_of(after.servers, uri) == servers_of(tracker.servers, uri).filter(
                other_than(key),
            )
            &&& !servers_of(after.servers, uri).contains(key)
            &&& !holds(after.versions, key, uri)
            &&& forall|other: KeyView|
                other != key ==> servers_of(after.servers, uri).contains(other) == servers_of(
                    tracker.servers,
                    uri,
                ).contains(other) && #[trigger] documents_of(after.versions, other)
                    == documents_of(tracker.versions, other)
            &&& docs_of(after.hosts, host) == docs_of(tracker.hosts, host).filter(
                on_other_connection(key),
            )
            &&& forall|doc: DocView| #[trigger]
                docs_of(after.hosts, host).contains(doc) <==> docs_of(
                    tracker.hosts,
                    host,
                ).contains(doc) && doc.key != key
            &&& after.opened.contains_key(uri) ==> exists|k: KeyView| #[trigger]
                holds(after.versions, k, uri)
            &&& counts_are_exact(tracker) ==> (after.opened.contains_key(uri) <==> exists|
                k: KeyView,
            | #[trigger]
                holds(after.versions, k, uri))
        }),
{
    let after = purged(tracker, key);
    let listed = servers_of(tracker.servers, uri);
    let apart = other_than(key);
    let elsewhere = on_other_connection(key);
    lemma_filter_members(listed, apart);
    lemma_filter_members(docs_of(tracker.hosts, host), elsewhere);
    if !holds(tracker.versions, key, uri) {
        assert(!listed.contains(key));
        assert forall|i: int| 0 <= i < listed.len() implies apart(#[trigger] listed[i]) by {
            assert(listed.contains(listed[i]));
        }
        lemma_filter_keeps_all(listed, apart);
    }
    assert(!listed.filter(apart).contains(key));
    assert(servers_of(after.servers, uri) =~= listed.filter(apart)) by {
        reveal(Seq::filter);
    }
    assert(docs_of(after.hosts, host) =~= docs_of(tracker.hosts, host).filter(elsewhere)) by {
        reveal(Seq::filter);
    }
    purging_stays_consistent(tracker, key);
    lemma_holders_finite(after.versions, uri);
    if after.opened.contains_key(uri) {
        let held_by = holders(after.versions, uri);
        assert(held_by.len() > 0);
        let k = held_by.choose();
        assert(held_by.contains(k));
        assert(holds(after.versions, k, uri));
    }
    if counts_are_exact(tracker) && exists|k: KeyView| #[trigger] holds(after.versions, k, uri) {
        let k = choose|k: KeyView| #[trigger] holds(after.versions, k, uri);
        lemma_exact_after_purging(tracker, key);
        assert(holders(after.versions, uri).contains(k));
        assert(count_of(after.opened, uri) == holders(after.versions, uri).len());
        vstd::set_lib::lemma_len_subset(set![k], holders(after.versions, uri));
    }
}

proof fn lemma_exact_after_purging(tracker: TrackerView, key: KeyView)
    requires
        counts_are_exact(tracker),
    ensures
        counts_are_exact(purged(tracker, key)),
{
    let after = purged(tracker, key);
    assert forall|u: Seq<char>| count_of(after.opened, u) == (#[trigger] holders(
        after.versions,
        u,
    )).len() by {
        lemma_holders_finite(tracker.versions, u);
        assert(count_of(tracker.opened, u) == holders(tracker.versions, u).len());
        assert(holders(after.versions, u) =~= holders(tracker.versions, u).remove(key));
    }
}

/// Versions go up by one, until they run out.
pub proof fn versions_count_up(version: i32)
    ensures
        version < i32::MAX ==> version_after(version) == version + 1,
        version_after(version) != version,
{
}

/// Documents are picked by what they are: by their address, by their address on a
/// connection, by their region, or by a language that their region is not expected
/// in. A region that nothing is expected of, or that is expected in the language
/// that it has, stays. What one picks the other leaves.
pub proof fn documents_are_picked_by_what_they_are(
    doc: DocView,
    uri: Seq<char>,
    key: KeyView,
    regions: Seq<Seq<char>>,
    expected: Map<Seq<char>, String>,
)
    ensures
        at_uri(uri)(doc) <==> doc.uri.uri == uri,
        at_doc(uri, key)(doc) <==> doc.uri.uri == uri && doc.key == key,
        in_regions(regions)(doc) <==> exists|i: int|
            0 <= i < regions.len() && #[trigger] regions[i] == doc.uri.region_id,
        !expected.contains_key(doc.uri.region_id) ==> !is_replaced(expected)(doc),
        expected.contains_key(doc.uri.region_id) ==> (is_replaced(expected)(doc)
            <==> expected[doc.uri.region_id]@ != doc.uri.language),
        not_at_uri(uri)(doc) == !at_uri(uri)(doc),
        not_at_doc(uri, key)(doc) == !at_doc(uri, key)(doc),
        outside_regions(regions)(doc) == !in_regions(regions)(doc),
        not_replaced(expected)(doc) == !is_replaced(expected)(doc),
        on_other_connection(key)(doc) <==> doc.key != key,
{
    if regions.contains(doc.uri.region_id) {
        let i = choose|i: int| 0 <= i < regions.len() && regions[i] == doc.uri.region_id;
        assert(regions[i] == doc.uri.region_id);
    }
}

/// Claiming a document gives it to one connection, in version one and counted once
/// more. Everything else that is held, counted or listed stays.
pub proof fn claiming_concerns_one_document(
    tracker: TrackerView,
    uri: Seq<char>,
    key: KeyView,
    other_uri: Seq<char>,
    other_key: KeyView,
)
    requires
        count_of(tracker.opened, uri) < usize::MAX,
    ensures
        ({
            let after = claimed_by(tracker, uri, key);
            &&& after.versions.contains_key(key) && after.versions[key].contains_key(uri)
                && after.versions[key][uri] == 1
            &&& count_of(after.opened, uri) == count_of(tracker.opened, uri) + 1
            &&& servers_of(after.servers, uri).contains(key)
            &&& after.hosts == tracker.hosts
            &&& other_uri != uri ==> count_of(after.opened, other_uri) == count_of(
                tracker.opened,
                other_uri,
            ) && servers_of(after.servers, other_uri) == servers_of(tracker.servers, other_uri)
            &&& other_uri != uri || other_key != key ==> {
                &&& holds(after.versions, other_key, other_uri) == holds(
                    tracker.versions,
                    other_key,
                    other_uri,
                )
                &&& documents_of(after.versions, other_key).contains_key(other_uri)
                    ==> documents_of(after.versions, other_key)[other_uri] == documents_of(
                    tracker.versions,
                    other_key,
                )[other_uri]
                &&& servers_of(after.servers, other_uri).contains(other_key) == servers_of(
                    tracker.servers,
                    other_uri,
                ).contains(other_key)
            }
        }),
{
    lemma_listed_after_adding(tracker.servers, uri, key);
    assert(servers_of(with_server(tracker.servers, uri, key), uri).contains(key));
    assert(servers_of(with_server(tracker.servers, uri, key), other_uri).contains(other_key)
        <==> servers_of(tracker.servers, other_uri).contains(other_key) || (other_uri == uri
        && other_key == key));
}

/// Giving a document up takes it from one connection and from that one's place in
/// the list, and counts one less. Everything else stays, the hosts too.
pub proof fn giving_up_concerns_one_document(
    tracker: TrackerView,
    uri: Seq<char>,
    key: KeyView,
    other_uri: Seq<char>,
    other_key: KeyView,
)
    ensures
        ({
            let after = given_up(tracker, uri, key);
            &&& !holds(after.versions, key, uri)
            &&& !servers_of(after.servers, uri).contains(key)
            &&& count_of(after.opened, uri) == (if count_of(tracker.opened, uri) > 0 {
                count_of(tracker.opened, uri) - 1
            } else {
                0
            })
            &&& after.hosts == tracker.hosts
            &&& other_uri != uri ==> count_of(after.opened, other_uri) == count_of(
                tracker.opened,
                other_uri,
            ) && servers_of(after.servers, other_uri) == servers_of(tracker.servers, other_uri)
            &&& other_uri != uri || other_key != key ==> {
                &&& holds(after.versions, other_key, other_uri) == holds(
                    tracker.versions,
                    other_key,
                    other_uri,
                )
                &&& documents_of(after.versions, other_key).contains_key(other_uri)
                    ==> documents_of(after.versions, other_key)[other_uri] == documents_of(
                    tracker.versions,
                    other_key,
                )[other_uri]
                &&& servers_of(after.servers, other_uri).contains(other_key) == servers_of(
                    tracker.servers,
                    other_uri,
                ).contains(other_key)
            }
        }),
{
    lemma_listed_after_removing(tracker.servers, uri, key);
    let left = without_server(tracker.servers, uri, key);
    assert(servers_of(left, uri).contains(key) <==> servers_of(tracker.servers, uri).contains(key)
        && !(uri == uri && key == key));
    assert(servers_of(left, other_uri).contains(other_key) <==> servers_of(
        tracker.servers,
        other_uri,
    ).contains(other_key) && !(other_uri == uri && other_key == key));
}

/// Recording a document as open lists it for its host and its connection, once and
/// at the end, and keeps the version and the count that it has. Other hosts,
/// connections and documents are left alone.
pub proof fn recording_concerns_one_document(
    tracker: TrackerView,
    host: Seq<char>,
    uri: UriView,
    key: KeyView,
    other_host: Seq<char>,
    other_uri: Seq<char>,
    other_key: KeyView,
)
    ensures
        ({
            let after = recorded_open(tracker, host, uri, key);
            let docs = docs_of(tracker.hosts, host);
            &&& holds(after.versions, key, uri.uri)
            &&& after.versions[key][uri.uri] == (if holds(tracker.versions, key, uri.uri) {
                tracker.versions[key][uri.uri]
            } else {
                1
            })
            &&& (exists|i: int|
                0 <= i < docs.len() && (#[trigger] docs[i]).uri.uri == uri.uri && docs[i].key
                    == key) ==> docs_of(after.hosts, host) == docs
            &&& !(exists|i: int|
                0 <= i < docs.len() && (#[trigger] docs[i]).uri.uri == uri.uri && docs[i].key
                    == key) ==> docs_of(after.hosts, host) == docs.push(DocView { uri, key })
            &&& servers_of(after.servers, uri.uri).contains(key)
            &&& !tracker.opened.contains_key(uri.uri) ==> count_of(after.opened, uri.uri) == 1
            &&& tracker.opened.contains_key(uri.uri) ==> after.opened == tracker.opened
            &&& other_host != host ==> docs_of(after.hosts, other_host) == docs_of(
                tracker.hosts,
                other_host,
            )
            &&& other_uri != uri.uri ==> count_of(after.opened, other_uri) == count_of(
                tracker.opened,
                other_uri,
            ) && servers_of(after.servers, other_uri) == servers_of(tracker.servers, other_uri)
            &&& other_uri != uri.uri || other_key != key ==> {
                &&& holds(after.versions, other_key, other_uri) == holds(
                    tracker.versions,
                    other_key,
                    other_uri,
                )
                &&& documents_of(after.versions, other_key).contains_key(other_uri)
                    ==> documents_of(after.versions, other_key)[other_uri] == documents_of(
                    tracker.versions,
                    other_key,
                )[other_uri]
                &&& servers_of(after.servers, other_uri).contains(other_key) == servers_of(
                    tracker.servers,
                    other_uri,
                ).contains(other_key)
            }
        }),
{
    lemma_listed_after_adding(tracker.servers, uri.uri, key);
    let more = with_server(tracker.servers, uri.uri, key);
    assert(servers_of(more, uri.uri).contains(key));
    assert(servers_of(more, other_uri).contains(other_key) <==> servers_of(
        tracker.servers,
        other_uri,
    ).contains(other_key) || (other_uri == uri.uri && other_key == key));
}

proof fn lemma_listed_without(
    servers: Map<Seq<char>, Seq<KeyView>>,
    docs: Seq<DocView>,
    uri: Seq<char>,
    key: KeyView,
)
    ensures
        servers_of(without_servers(servers, docs), uri).contains(key) <==> servers_of(
            servers,
            uri,
        ).contains(key) && !lists_doc(docs, uri, key),
    decreases docs.len(),
{
    if docs.len() > 0 {
        let shorter = docs.drop_last();
        let last = docs.last();
        lemma_listed_without(servers, shorter, uri, key);
        lemma_listed_after_removing(without_servers(servers, shorter), last.uri.uri, last.key);
        assert(servers_of(without_servers(servers, docs), uri).contains(key) <==> servers_of(
            without_servers(servers, shorter),
            uri,
        ).contains(key) && !(uri == last.uri.uri && key == last.key));
        if lists_doc(shorter, uri, key) {
            let i = choose|i: int|
                0 <= i < shorter.len() && (#[trigger] shorter[i]).uri.uri == uri && shorter[i].key
                    == key;
            assert(docs[i] == shorter[i]);
        }
        if lists_doc(docs, uri, key) {
            let i = choose|i: int|
                0 <= i < docs.len() && (#[trigger] docs[i]).uri.uri == uri && docs[i].key == key;
            if i < shorter.len() {
                assert(shorter[i] == docs[i]);
            }
        }
        assert(docs[docs.len() - 1] == last);
    }
}

/// Taking documents of a host out takes exactly those that are picked: the others
/// stay in their order, other hosts keep all, and a connection leaves the list of a
/// document exactly where its entry was taken. What connections hold and what is
/// counted stays.
pub proof fn splitting_takes_exactly_the_picked(
    tracker: TrackerView,
    host: Seq<char>,
    go: spec_fn(DocView) -> bool,
    stay: spec_fn(DocView) -> bool,
    other_host: Seq<char>,
    doc: DocView,
    uri: Seq<char>,
    key: KeyView,
)
    requires
        forall|d: DocView| #[trigger] stay(d) == !go(d),
    ensures
        ({
            let after = host_docs_split(tracker, host, go, stay);
            let docs = docs_of(tracker.hosts, host);
            &&& docs_of(after.hosts, host).contains(doc) <==> docs.contains(doc) && !go(doc)
            &&& docs.filter(go).contains(doc) <==> docs.contains(doc) && go(doc)
            &&& docs_of(after.hosts, host).len() + docs.filter(go).len() == docs.len()
            &&& other_host != host ==> docs_of(after.hosts, other_host) == docs_of(
                tracker.hosts,
                other_host,
            )
            &&& after.versions == tracker.versions
            &&& after.opened == tracker.opened
            &&& servers_of(after.servers, uri).contains(key) <==> servers_of(
                tracker.servers,
                uri,
            ).contains(key) && !(exists|i: int|
                0 <= i < docs.len() && go(#[trigger] docs[i]) && docs[i].uri.uri == uri
                    && docs[i].key == key)
        }),
        ({
            let after = host_docs_removed(tracker, host);
            let docs = docs_of(tracker.hosts, host);
            &&& docs_of(after.hosts, host).len() == 0
            &&& other_host != host ==> docs_of(after.hosts, other_host) == docs_of(
                tracker.hosts,
                other_host,
            )
            &&& after.versions == tracker.versions
            &&& after.opened == tracker.opened
            &&& servers_of(after.servers, uri).contains(key) <==> servers_of(
                tracker.servers,
                uri,
            ).contains(key) && !(exists|i: int|
                0 <= i < docs.len() && (#[trigger] docs[i]).uri.uri == uri && docs[i].key == key)
        }),
{
    let docs = docs_of(tracker.hosts, host);
    let gone = docs.filter(go);
    lemma_filter_members(docs, go);
    lemma_filter_members(docs, stay);
    lemma_split_lengths(docs, go, stay);
    lemma_listed_without(tracker.servers, gone, uri, key);
    lemma_listed_without(tracker.servers, docs, uri, key);
    if lists_doc(gone, uri, key) {
        let i = choose|i: int|
            0 <= i < gone.len() && (#[trigger] gone[i]).uri.uri == uri && gone[i].key == key;
        assert(gone.contains(gone[i]));
        assert(docs.contains(gone[i]));
        let j = choose|j: int| 0 <= j < docs.len() && docs[j] == gone[i];
        assert(go(docs[j]));
    }
    if exists|i: int|
        0 <= i < docs.len() && go(#[trigger] docs[i]) && docs[i].uri.uri == uri && docs[i].key
            == key {
        let i = choose|i: int|
            0 <= i < docs.len() && go(#[trigger] docs[i]) && docs[i].uri.uri == uri && docs[i].key
                == key;
        assert(docs.contains(docs[i]));
        assert(gone.contains(docs[i]));
        let j = choose|j: int| 0 <= j < gone.len() && gone[j] == docs[i];
        assert(gone[j].uri.uri == uri);
    }
    if !tracker.hosts.contains_key(host) {
        reveal(Seq::filter);
        assert(gone =~= Seq::<DocView>::empty());
    }
}

proof fn lemma_split_lengths(
    docs: Seq<DocView>,
    go: spec_fn(DocView) -> bool,
    stay: spec_fn(DocView) -> bool,
)
    requires
        forall|d: DocView| #[trigger] stay(d) == !go(d),
    ensures
        docs.filter(go).len() + docs.filter(stay).len() == docs.len(),
    decreases docs.len(),
{
    reveal(Seq::filter);
    if docs.len() > 0 {
        lemma_split_lengths(docs.drop_last(), go, stay);
        assert(stay(docs.last()) == !go(docs.last()));
    }
}

} // verus!
