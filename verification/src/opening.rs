//! Opening virtual documents on connections.
//!
//! A document is claimed before the server is told of it, and the claim is
//! settled when it is known whether the message was queued. In between the
//! document counts as taken, but not as open.

use crate::connection_key::{key_views, lemma_key_views_push, ConnectionKey, KeyView};
use crate::document_place::{drop_connection, off_connection, DocumentPlace, PlaceView};
use crate::document_tracker::{doc_views, DocumentTracker, OpenedVirtualDoc};
use crate::document_tracking::{
    at_doc, at_uri, claim_refused, claimed_by, count_of, docs_of, documents_of,
    giving_a_claim_up_undoes_it, given_up, holds, host_docs_removed, host_docs_split, in_regions,
    is_replaced, lists_doc, not_at_doc, not_at_uri, not_replaced, nothing_open, outside_regions,
    purged, recorded_open, servers_of, tracking_is_consistent, version_after, DocView, TrackerView,
};
use crate::error::{ErrorKind, PoolError};
use crate::outside::ulid_text;
use crate::table::Table;
use crate::text::same_text;
use crate::virtual_uri::{UriView, VirtualDocumentUri};
use vstd::prelude::*;

verus! {

/// The right to open one document on one connection.
#[derive(Clone, Copy, Debug, PartialEq, Eq, Structural)]
pub struct OpenClaim(u64);

impl OpenClaim {
    /// The number of the claim.
    pub closed spec fn number(self) -> u64 {
        self.0
    }
}

/// What is to be done to have a document open.
#[derive(Debug)]
pub enum OpenStep {
    /// Nothing: the server was told of it before.
    AlreadyOpen,
    /// The server is to be told of the document, under a claim.
    SendDidOpen(OpenClaim),
}

/// Which documents are open, and which are about to be.
#[verifier::ext_equal]
pub struct OpeningView {
    pub tracker: TrackerView,
    /// The claims that are not settled.
    pub claims: Map<PlaceView, u64>,
    /// What each connection was last told of each document.
    pub sent: Map<PlaceView, Seq<char>>,
    pub next: u64,
    /// How often what a connection held was forgotten.
    pub generations: Map<KeyView, u64>,
}

/// The number after another one, starting from zero again after the largest.
pub open spec fn claim_after(number: u64) -> u64 {
    if number < u64::MAX {
        (number + 1) as u64
    } else {
        0
    }
}

/// The generation that the documents of a connection are in.
pub open spec fn generation_of(state: OpeningView, key: KeyView) -> u64 {
    if state.generations.contains_key(key) {
        state.generations[key]
    } else {
        0
    }
}

/// Whether the server at a connection was told of a document.
pub open spec fn is_open(state: OpeningView, uri: Seq<char>, key: KeyView) -> bool {
    holds(state.tracker.versions, key, uri) && !state.claims.contains_key(PlaceView { uri, key })
}

/// A claim is taken back, with all that was noted for it.
pub open spec fn rolled_back(
    tracker: TrackerView,
    host: Seq<char>,
    uri: Seq<char>,
    key: KeyView,
) -> TrackerView {
    host_docs_split(given_up(tracker, uri, key), host, at_doc(uri, key), not_at_doc(uri, key))
}

/// A claim that is not settled, if there is one, is taken back.
pub open spec fn claim_dropped(
    state: OpeningView,
    host: Seq<char>,
    uri: Seq<char>,
    key: KeyView,
) -> OpeningView {
    if state.claims.contains_key(PlaceView { uri, key }) {
        OpeningView {
            tracker: rolled_back(state.tracker, host, uri, key),
            claims: state.claims.remove(PlaceView { uri, key }),
            ..state
        }
    } else {
        state
    }
}

/// A claim is taken back, unless another one has its place.
pub open spec fn claim_dropped_if(
    state: OpeningView,
    host: Seq<char>,
    uri: Seq<char>,
    key: KeyView,
    number: u64,
) -> OpeningView {
    let place = PlaceView { uri, key };
    if state.claims.contains_key(place) && state.claims[place] == number {
        claim_dropped(state, host, uri, key)
    } else {
        state
    }
}

/// A document is claimed on a connection and noted for its host document.
pub open spec fn claim_made(
    state: OpeningView,
    host: Seq<char>,
    uri: UriView,
    key: KeyView,
) -> OpeningView {
    OpeningView {
        tracker: recorded_open(claimed_by(state.tracker, uri.uri, key), host, uri, key),
        claims: state.claims.insert(PlaceView { uri: uri.uri, key }, state.next),
        next: claim_after(state.next),
        ..state
    }
}

/// A document is asked to be open on a connection. A claim that somebody left
/// behind is taken back first.
pub open spec fn open_asked(
    state: OpeningView,
    host: Seq<char>,
    uri: UriView,
    key: KeyView,
) -> OpeningView {
    if is_open(state, uri.uri, key) {
        state
    } else {
        claim_made(claim_dropped(state, host, uri.uri, key), host, uri, key)
    }
}

/// The server at a connection was told of a document under a claim that still
/// stands.
pub open spec fn open_sent(
    state: OpeningView,
    uri: Seq<char>,
    key: KeyView,
    content: Seq<char>,
) -> OpeningView {
    let place = PlaceView { uri, key };
    OpeningView {
        claims: state.claims.remove(place),
        sent: state.sent.insert(place, content),
        ..state
    }
}

/// Whether a claim still stands.
pub open spec fn claim_stands(
    state: OpeningView,
    uri: Seq<char>,
    key: KeyView,
    number: u64,
) -> bool {
    let place = PlaceView { uri, key };
    state.claims.contains_key(place) && state.claims[place] == number
}

/// Whether a connection has to be told of a content.
pub open spec fn is_news(
    state: OpeningView,
    uri: Seq<char>,
    key: KeyView,
    content: Seq<char>,
) -> bool {
    let place = PlaceView { uri, key };
    holds(state.tracker.versions, key, uri) && !(state.sent.contains_key(place)
        && state.sent[place] == content)
}

/// Every claim that is not settled is for a document that its connection holds.
pub open spec fn claims_are_backed(state: OpeningView) -> bool {
    forall|place: PlaceView| #[trigger]
        state.claims.contains_key(place) ==> holds(state.tracker.versions, place.key, place.uri)
}

/// Keeps track of which documents are open, and which are about to be.
pub struct OpenDocuments {
    tracker: DocumentTracker,
    claims: Table<DocumentPlace, u64>,
    sent: Table<DocumentPlace, String>,
    next: u64,
    generations: Table<ConnectionKey, u64>,
}

impl View for OpenDocuments {
    type V = OpeningView;

    closed spec fn view(&self) -> OpeningView {
        OpeningView {
            tracker: self.tracker@,
            claims: self.claims@,
            sent: self.sent@.map_values(|content: String| content@),
            next: self.next,
            generations: self.generations@,
        }
    }
}

impl OpenDocuments {
    /// The tables are in order, and the claims are backed.
    pub closed spec fn wf(self) -> bool {
        &&& self.tracker.wf()
        &&& self.claims.wf()
        &&& self.sent.wf()
        &&& self.generations.wf()
        &&& claims_are_backed(self@)
    }

    /// The claims are backed, and the tracked documents are consistent.
    pub proof fn lemma_consistent(self)
        requires
            self.wf(),
        ensures
            claims_are_backed(self@),
            tracking_is_consistent(self@.tracker),
    {
        self.tracker.lemma_consistent();
    }

    proof fn lemma_still_backed(before: OpeningView, after: OpeningView)
        requires
            claims_are_backed(before),
            after.claims == before.claims,
            forall|key: KeyView, uri: Seq<char>|
                holds(before.tracker.versions, key, uri) ==> #[trigger] holds(
                    after.tracker.versions,
                    key,
                    uri,
                ),
        ensures
            claims_are_backed(after),
    {
        assert forall|place: PlaceView| #[trigger] after.claims.contains_key(place) implies holds(
            after.tracker.versions,
            place.key,
            place.uri,
        ) by {
            assert(before.claims.contains_key(place));
        }
    }

    /// Nothing is open.
    pub fn new() -> (documents: Self)
        ensures
            documents.wf(),
            documents@ == (OpeningView {
                tracker: nothing_open(),
                claims: Map::empty(),
                sent: Map::empty(),
                next: 0,
                generations: Map::empty(),
            }),
    {
        let documents = OpenDocuments {
            tracker: DocumentTracker::new(),
            claims: Table::new(),
            sent: Table::new(),
            next: 0,
            generations: Table::new(),
        };
        assert(documents@.sent =~= Map::<PlaceView, Seq<char>>::empty());
        documents
    }

    /// What is tracked of the documents.
    pub fn tracker(&self) -> (tracker: &DocumentTracker)
        requires
            self.wf(),
        ensures
            tracker.wf(),
            tracker@ == self@.tracker,
    {
        &self.tracker
    }

    fn drop_claim(
        &mut self,
        host_uri: &str,
        virtual_uri: &VirtualDocumentUri,
        key: &ConnectionKey,
    )
        requires
            old(self).wf(),
            old(self)@.claims.contains_key(PlaceView { uri: virtual_uri@.uri, key: key@ }),
        ensures
            final(self).wf(),
            final(self)@ == claim_dropped(old(self)@, host_uri@, virtual_uri@.uri, key@),
    {
        self.tracker.rollback_open_claim(host_uri, virtual_uri, key);
        self.claims.remove(&DocumentPlace::new(virtual_uri.uri(), key));
        assert forall|place: PlaceView| #[trigger] self@.claims.contains_key(place) implies holds(
            self@.tracker.versions,
            place.key,
            place.uri,
        ) by {
            assert(old(self)@.claims.contains_key(place));
            assert(holds(old(self)@.tracker.versions, place.key, place.uri));
        }
    }

    /// Asks for a document to be open on a connection. Where the server has to be
    /// told of it first, the document is claimed, and noted for its host document
    /// so that closing the host document finds it.
    pub fn ensure_document_opened(
        &mut self,
        host_uri: &str,
        virtual_uri: &VirtualDocumentUri,
        key: &ConnectionKey,
    ) -> (step: OpenStep)
        requires
            old(self).wf(),
        ensures
            final(self).wf(),
            final(self)@ == open_asked(old(self)@, host_uri@, virtual_uri@, key@),
            match step {
                OpenStep::AlreadyOpen => is_open(old(self)@, virtual_uri@.uri, key@),
                OpenStep::SendDidOpen(claim) => !is_open(old(self)@, virtual_uri@.uri, key@)
                    && claim.number() == old(self)@.next,
            },
    {
        let ghost uri = virtual_uri@.uri;
        let ghost place = PlaceView { uri, key: key@ };
        let claimed = self.claims.contains(&DocumentPlace::new(virtual_uri.uri(), key));
        if claimed {
            self.drop_claim(host_uri, virtual_uri, key);
        }
        let ghost base = self@;
        assert(base == claim_dropped(old(self)@, host_uri@, uri, key@));
        if !self.tracker.try_claim_for_open(virtual_uri, key) {
            proof {
                assert(!claimed);
                assert(claim_refused(base.tracker, key@).versions =~= base.tracker.versions);
                assert(self@ =~= base);
            }
            return OpenStep::AlreadyOpen;
        }
        self.tracker.register_opened_document(host_uri, virtual_uri, key);
        let number: u64 = self.next;
        self.next = self.next.wrapping_add(1);
        self.claims.insert(DocumentPlace::new(virtual_uri.uri(), key), number);
        proof {
            assert(self@ =~= claim_made(base, host_uri@, virtual_uri@, key@));
            assert forall|other: PlaceView| #[trigger]
                self@.claims.contains_key(other) implies holds(
                self@.tracker.versions,
                other.key,
                other.uri,
            ) by {
                if other != place {
                    assert(base.claims.contains_key(other));
                    assert(holds(base.tracker.versions, other.key, other.uri));
                }
            }
        }
        OpenStep::SendDidOpen(OpenClaim(number))
    }

    /// Settles a claim, given what became of telling the server. Where that
    /// failed the claim is taken back, unless another one has its place. Where it
    /// went well but the claim was taken back in between, the document does not
    /// count as open.
    pub fn settle_open(
        &mut self,
        host_uri: &str,
        virtual_uri: &VirtualDocumentUri,
        key: &ConnectionKey,
        claim: OpenClaim,
        content: &str,
        sent: Result<(), PoolError>,
    ) -> (settled: Result<(), PoolError>)
        requires
            old(self).wf(),
        ensures
            final(self).wf(),
            match sent {
                Err(error) => settled == Err::<(), PoolError>(error) && final(self)@
                    == claim_dropped_if(
                    old(self)@,
                    host_uri@,
                    virtual_uri@.uri,
                    key@,
                    claim.number(),
                ),
                Ok(_) => if claim_stands(old(self)@, virtual_uri@.uri, key@, claim.number()) {
                    settled is Ok && final(self)@ == open_sent(
                        old(self)@,
                        virtual_uri@.uri,
                        key@,
                        content@,
                    )
                } else {
                    settled is Err && settled->Err_0.says(
                        ErrorKind::Other,
                        "bridge: didOpen claim invalidated during enqueue"@,
                    ) && final(self)@ == old(self)@
                },
            },
    {
        match sent {
            Err(error) => {
                self.abandon_open(host_uri, virtual_uri, key, claim);
                Err(error)
            },
            Ok(_) => {
                if !self.stands(virtual_uri, key, claim) {
                    return Err(
                        PoolError::of(
                            ErrorKind::Other,
                            "bridge: didOpen claim invalidated during enqueue",
                        ),
                    );
                }
                let place = DocumentPlace::new(virtual_uri.uri(), key);
                self.claims.remove(&place);
                self.sent.insert(place, content.to_owned());
                proof {
                    assert(self@ =~= open_sent(old(self)@, virtual_uri@.uri, key@, content@));
                    assert forall|other: PlaceView| #[trigger]
                        self@.claims.contains_key(other) implies holds(
                        self@.tracker.versions,
                        other.key,
                        other.uri,
                    ) by {
                        assert(old(self)@.claims.contains_key(other));
                    }
                }
                Ok(())
            },
        }
    }

    fn stands(&self, virtual_uri: &VirtualDocumentUri, key: &ConnectionKey, claim: OpenClaim) -> (stands:
        bool)
        requires
            self.wf(),
        ensures
            stands == claim_stands(self@, virtual_uri@.uri, key@, claim.number()),
    {
        match self.claims.get(&DocumentPlace::new(virtual_uri.uri(), key)) {
            Some(number) => *number == claim.0,
            None => false,
        }
    }

    /// Takes a claim back whose owner went away before the server was told.
    pub fn abandon_open(
        &mut self,
        host_uri: &str,
        virtual_uri: &VirtualDocumentUri,
        key: &ConnectionKey,
        claim: OpenClaim,
    )
        requires
            old(self).wf(),
        ensures
            final(self).wf(),
            final(self)@ == claim_dropped_if(
                old(self)@,
                host_uri@,
                virtual_uri@.uri,
                key@,
                claim.number(),
            ),
    {
        if self.stands(virtual_uri, key, claim) {
            self.drop_claim(host_uri, virtual_uri, key);
        }
    }

    /// Whether the server at a connection was told of a document.
    pub fn is_document_opened_on_connection(
        &self,
        virtual_uri: &VirtualDocumentUri,
        key: &ConnectionKey,
    ) -> (opened: bool)
        requires
            self.wf(),
        ensures
            opened == is_open(self@, virtual_uri@.uri, key@),
    {
        self.tracker.document_version(virtual_uri.uri(), key).is_some() && !self.claims.contains(
            &DocumentPlace::new(virtual_uri.uri(), key),
        )
    }

    /// The connections that a document is open on, in the order in which they
    /// came to hold it. Those that are about to open it are left out.
    pub fn get_all_connections_for_virtual_uri(&self, virtual_uri: &VirtualDocumentUri) -> (keys:
        Vec<ConnectionKey>)
        requires
            self.wf(),
        ensures
            key_views(keys@) == servers_of(self@.tracker.servers, virtual_uri@.uri).filter(
                told_of(self@, virtual_uri@.uri),
            ),
    {
        let all = self.tracker.get_all_connections_for_virtual_uri(virtual_uri);
        let ghost views = key_views(all@);
        let ghost keep = told_of(self@, virtual_uri@.uri);
        let mut keys: Vec<ConnectionKey> = Vec::new();
        let mut i: usize = 0;
        proof {
            reveal(Seq::filter);
            assert(key_views(keys@) =~= views.take(0).filter(keep));
        }
        while i < all.len()
            invariant
                i <= all@.len(),
                views == key_views(all@),
                keep == told_of(self@, virtual_uri@.uri),
                self.wf(),
                key_views(keys@) == views.take(i as int).filter(keep),
            decreases all@.len() - i,
        {
            proof {
                assert(views.take(i + 1) =~= views.take(i as int).push(views[i as int]));
                views.take(i as int).lemma_filter_push(views[i as int], keep);
            }
            if !self.claims.contains(&DocumentPlace::new(virtual_uri.uri(), &all[i])) {
                let key = all[i].clone();
                proof {
                    lemma_key_views_push(keys@, key);
                }
                keys.push(key);
            }
            i += 1;
        }
        assert(views.take(all@.len() as int) =~= views);
        keys
    }

    /// Whether some server was told of a document.
    pub fn is_document_opened(&self, virtual_uri: &VirtualDocumentUri) -> (opened: bool)
        requires
            self.wf(),
        ensures
            opened == is_open_somewhere(self@, virtual_uri@.uri),
    {
        let keys = self.get_all_connections_for_virtual_uri(virtual_uri);
        proof {
            let all = servers_of(self@.tracker.servers, virtual_uri@.uri);
            let told = all.filter(told_of(self@, virtual_uri@.uri));
            crate::seqs::lemma_filter_members(all, told_of(self@, virtual_uri@.uri));
            assert(key_views(keys@).len() == keys@.len());
            if keys@.len() > 0 {
                assert(told.contains(told[0]));
                assert(all.contains(told[0]));
            }
            if is_open_somewhere(self@, virtual_uri@.uri) {
                let key = choose|key: KeyView| #[trigger]
                    all.contains(key) && !self@.claims.contains_key(
                        PlaceView { uri: virtual_uri@.uri, key },
                    );
                assert(told_of(self@, virtual_uri@.uri)(key));
                assert(told.contains(key));
            }
        }
        keys.len() > 0
    }

    /// Whether the document at an address is open on a connection, and not only
    /// about to be.
    pub fn is_virtual_doc_open_on_connection(&self, virtual_uri: &str, key: &ConnectionKey) -> (open:
        bool)
        requires
            self.wf(),
        ensures
            open == (servers_of(self@.tracker.servers, virtual_uri@).contains(key@) && told_of(
                self@,
                virtual_uri@,
            )(key@)),
    {
        self.tracker.is_virtual_doc_open_on_connection(virtual_uri, key) && !self.claims.contains(
            &DocumentPlace::new(virtual_uri, key),
        )
    }

    /// Forgets a document that was closed on a connection.
    pub fn untrack_document(&mut self, virtual_uri: &VirtualDocumentUri, key: &ConnectionKey)
        requires
            old(self).wf(),
        ensures
            final(self).wf(),
            final(self)@ == untracked(old(self)@, virtual_uri@.uri, key@),
    {
        let place = DocumentPlace::new(virtual_uri.uri(), key);
        self.tracker.untrack_document(virtual_uri, key);
        self.claims.remove(&place);
        self.sent.remove(&place);
        proof {
            assert(self@ =~= untracked(old(self)@, virtual_uri@.uri, key@));
            assert forall|other: PlaceView| #[trigger]
                self@.claims.contains_key(other) implies holds(
                self@.tracker.versions,
                other.key,
                other.uri,
            ) by {
                assert(old(self)@.claims.contains_key(other));
                assert(holds(old(self)@.tracker.versions, other.key, other.uri));
            }
        }
    }

    /// The generation that the documents of a connection are in. Each time that
    /// what the connection held is forgotten, a new one begins.
    pub fn connection_generation(&self, key: &ConnectionKey) -> (generation: u64)
        requires
            self.wf(),
        ensures
            generation == generation_of(self@, key@),
    {
        match self.generations.get(key) {
            Some(generation) => *generation,
            None => 0,
        }
    }

    /// Forgets a document that was closed on a connection, unless what the
    /// connection held was forgotten since the generation that the document was
    /// seen in. Says whether the document was forgotten.
    pub fn close_in_generation(
        &mut self,
        virtual_uri: &VirtualDocumentUri,
        key: &ConnectionKey,
        generation: u64,
    ) -> (closed: bool)
        requires
            old(self).wf(),
        ensures
            final(self).wf(),
            closed == (generation == generation_of(old(self)@, key@)),
            final(self)@ == closed_in(old(self)@, virtual_uri@.uri, key@, generation),
    {
        if self.connection_generation(key) != generation {
            return false;
        }
        self.untrack_document(virtual_uri, key);
        true
    }

    /// Forgets everything that one connection held or was about to open.
    pub fn purge_connection(&mut self, key: &ConnectionKey)
        requires
            old(self).wf(),
        ensures
            final(self).wf(),
            final(self)@ == connection_purged(old(self)@, key@),
    {
        let generation: u64 = self.connection_generation(key).wrapping_add(1);
        self.tracker.purge_connection(key);
        drop_connection(&mut self.claims, key);
        drop_connection(&mut self.sent, key);
        self.generations.insert(key.clone(), generation);
        proof {
            assert(self@.sent =~= off_connection(old(self)@.sent, key@));
            assert forall|other: PlaceView| #[trigger]
                self@.claims.contains_key(other) implies holds(
                self@.tracker.versions,
                other.key,
                other.uri,
            ) by {
                assert(old(self)@.claims.contains_key(other));
                assert(holds(old(self)@.tracker.versions, other.key, other.uri));
            }
        }
    }

    /// Records that a document is open on a connection, for a host document.
    pub fn register_opened_document(
        &mut self,
        host_uri: &str,
        virtual_uri: &VirtualDocumentUri,
        key: &ConnectionKey,
    )
        requires
            old(self).wf(),
        ensures
            final(self).wf(),
            final(self)@ == (OpeningView {
                tracker: recorded_open(old(self)@.tracker, host_uri@, virtual_uri@, key@),
                ..old(self)@
            }),
    {
        self.tracker.register_opened_document(host_uri, virtual_uri, key);
        proof {
            Self::lemma_still_backed(old(self)@, self@);
        }
    }

    /// Moves a document on a connection to its next version, if the connection
    /// was not told of this content last. Gives nothing where there is nothing to
    /// send.
    pub fn increment_version_if_content_changed(
        &mut self,
        virtual_uri: &VirtualDocumentUri,
        key: &ConnectionKey,
        content: &str,
    ) -> (version: Option<i32>)
        requires
            old(self).wf(),
        ensures
            final(self).wf(),
            ({
                let uri = virtual_uri@.uri;
                let versions = old(self)@.tracker.versions;
                if is_news(old(self)@, uri, key@, content@) {
                    &&& version == Some(version_after(versions[key@][uri]))
                    &&& final(self)@ == (OpeningView {
                        tracker: TrackerView {
                            versions: versions.insert(
                                key@,
                                versions[key@].insert(uri, version_after(versions[key@][uri])),
                            ),
                            ..old(self)@.tracker
                        },
                        ..old(self)@
                    })
                } else {
                    version is None && final(self)@ == old(self)@
                }
            }),
    {
        let known = match self.sent.get(&DocumentPlace::new(virtual_uri.uri(), key)) {
            Some(last) => same_text(last.as_str(), content),
            None => false,
        };
        if known {
            return None;
        }
        let version = self.tracker.increment_document_version(virtual_uri, key);
        proof {
            Self::lemma_still_backed(old(self)@, self@);
        }
        version
    }

    /// Notes which content a connection was told of last.
    pub fn record_sent_content_fingerprint(
        &mut self,
        virtual_uri: &VirtualDocumentUri,
        key: &ConnectionKey,
        content: &str,
    )
        requires
            old(self).wf(),
        ensures
            final(self).wf(),
            final(self)@ == (OpeningView {
                sent: old(self)@.sent.insert(
                    PlaceView { uri: virtual_uri@.uri, key: key@ },
                    content@,
                ),
                ..old(self)@
            }),
    {
        self.sent.insert(DocumentPlace::new(virtual_uri.uri(), key), content.to_owned());
        assert(self@.sent =~= old(self)@.sent.insert(
            PlaceView { uri: virtual_uri@.uri, key: key@ },
            content@,
        ));
    }

    /// Takes all virtual documents of a host document out and gives them back.
    pub fn remove_host_virtual_docs(&mut self, host_uri: &str) -> (docs: Vec<OpenedVirtualDoc>)
        requires
            old(self).wf(),
        ensures
            final(self).wf(),
            doc_views(docs@) == docs_of(old(self)@.tracker.hosts, host_uri@),
            final(self)@ == (OpeningView {
                tracker: host_docs_removed(old(self)@.tracker, host_uri@),
                ..old(self)@
            }),
    {
        let docs = self.tracker.remove_host_virtual_docs(host_uri);
        proof {
            Self::lemma_still_backed(old(self)@, self@);
        }
        docs
    }

    /// Takes the virtual documents of a host document out whose region one of the
    /// ULIDs names, and gives them in their order.
    pub fn remove_matching_virtual_docs(&mut self, host_uri: &str, invalidated_ulids: &[u128]) -> (docs:
        Vec<OpenedVirtualDoc>)
        requires
            old(self).wf(),
        ensures
            final(self).wf(),
            ({
                let regions = invalidated_ulids@.map_values(|ulid: u128| ulid_text(ulid));
                &&& doc_views(docs@) == docs_of(old(self)@.tracker.hosts, host_uri@).filter(
                    in_regions(regions),
                )
                &&& final(self)@ == (OpeningView {
                    tracker: host_docs_split(
                        old(self)@.tracker,
                        host_uri@,
                        in_regions(regions),
                        outside_regions(regions),
                    ),
                    ..old(self)@
                })
            }),
    {
        let docs = self.tracker.remove_matching_virtual_docs(host_uri, invalidated_ulids);
        proof {
            Self::lemma_still_backed(old(self)@, self@);
        }
        docs
    }

    /// Takes the virtual documents of a host document out whose region is
    /// expected in another language, and gives them in their order.
    pub fn remove_replaced_virtual_docs(
        &mut self,
        host_uri: &str,
        expected_languages: &Table<String, String>,
    ) -> (docs: Vec<OpenedVirtualDoc>)
        requires
            old(self).wf(),
            expected_languages.wf(),
        ensures
            final(self).wf(),
            doc_views(docs@) == docs_of(old(self)@.tracker.hosts, host_uri@).filter(
                is_replaced(expected_languages@),
            ),
            final(self)@ == (OpeningView {
                tracker: host_docs_split(
                    old(self)@.tracker,
                    host_uri@,
                    is_replaced(expected_languages@),
                    not_replaced(expected_languages@),
                ),
                ..old(self)@
            }),
    {
        let docs = self.tracker.remove_replaced_virtual_docs(host_uri, expected_languages);
        proof {
            Self::lemma_still_backed(old(self)@, self@);
        }
        docs
    }

    /// Takes one virtual document, on all its connections, from the list of a
    /// host document.
    pub fn unregister_virtual_doc(&mut self, host_uri: &str, virtual_uri: &VirtualDocumentUri)
        requires
            old(self).wf(),
        ensures
            final(self).wf(),
            final(self)@ == (OpeningView {
                tracker: host_docs_split(
                    old(self)@.tracker,
                    host_uri@,
                    at_uri(virtual_uri@.uri),
                    not_at_uri(virtual_uri@.uri),
                ),
                ..old(self)@
            }),
    {
        self.tracker.unregister_virtual_doc(host_uri, virtual_uri);
        proof {
            Self::lemma_still_backed(old(self)@, self@);
        }
    }
}

/// Holds of the connections that are not about to open a document.
pub open spec fn told_of(state: OpeningView, uri: Seq<char>) -> spec_fn(KeyView) -> bool {
    |key: KeyView| !state.claims.contains_key(PlaceView { uri, key })
}

/// Whether some server was told of a document.
pub open spec fn is_open_somewhere(state: OpeningView, uri: Seq<char>) -> bool {
    exists|key: KeyView| #[trigger]
        servers_of(state.tracker.servers, uri).contains(key) && !state.claims.contains_key(
            PlaceView { uri, key },
        )
}

/// A document was closed on a connection.
pub open spec fn untracked(state: OpeningView, uri: Seq<char>, key: KeyView) -> OpeningView {
    let place = PlaceView { uri, key };
    OpeningView {
        tracker: given_up(state.tracker, uri, key),
        claims: state.claims.remove(place),
        sent: state.sent.remove(place),
        ..state
    }
}

/// Everything that a connection held or was about to open is forgotten.
pub open spec fn connection_purged(state: OpeningView, key: KeyView) -> OpeningView {
    OpeningView {
        tracker: purged(state.tracker, key),
        claims: off_connection(state.claims, key),
        sent: off_connection(state.sent, key),
        generations: state.generations.insert(key, claim_after(generation_of(state, key))),
        ..state
    }
}

/// A document was closed on a connection by somebody who saw it in a generation.
/// A close from an earlier generation means nothing any more.
pub open spec fn closed_in(
    state: OpeningView,
    uri: Seq<char>,
    key: KeyView,
    generation: u64,
) -> OpeningView {
    if generation == generation_of(state, key) {
        untracked(state, uri, key)
    } else {
        state
    }
}

/// The server is told of a document once: when the message was queued the
/// document is open, and asking again changes nothing.
pub proof fn documents_are_opened_once(
    state: OpeningView,
    host: Seq<char>,
    uri: UriView,
    key: KeyView,
    content: Seq<char>,
)
    requires
        claims_are_backed(state),
        !is_open(state, uri.uri, key),
    ensures
        ({
            let asked = open_asked(state, host, uri, key);
            let sent = open_sent(asked, uri.uri, key, content);
            &&& !is_open(asked, uri.uri, key)
            &&& claim_stands(asked, uri.uri, key, state.next)
            &&& is_open(sent, uri.uri, key)
            &&& open_asked(sent, host, uri, key) == sent
            &&& !is_news(sent, uri.uri, key, content)
        }),
{
}

/// A message that was not queued leaves no trace: the document is neither open
/// nor claimed, it is counted and listed as before, and it can be asked for
/// again.
pub proof fn failed_openings_leave_no_trace(
    state: OpeningView,
    host: Seq<char>,
    uri: UriView,
    key: KeyView,
)
    requires
        tracking_is_consistent(state.tracker),
        !holds(state.tracker.versions, key, uri.uri),
        !state.claims.contains_key(PlaceView { uri: uri.uri, key }),
        !lists_doc(docs_of(state.tracker.hosts, host), uri.uri, key),
        count_of(state.tracker.opened, uri.uri) < usize::MAX,
    ensures
        ({
            let asked = open_asked(state, host, uri, key);
            let after = claim_dropped_if(asked, host, uri.uri, key, state.next);
            &&& after.claims == state.claims
            &&& after.sent == state.sent
            &&& after.tracker.opened == state.tracker.opened
            &&& after.tracker.servers == state.tracker.servers
            &&& forall|other: KeyView| #[trigger]
                documents_of(after.tracker.versions, other) == documents_of(
                    state.tracker.versions,
                    other,
                )
            &&& forall|other: Seq<char>| #[trigger]
                docs_of(after.tracker.hosts, other) == docs_of(state.tracker.hosts, other)
        }),
{
    let claimed = claimed_by(state.tracker, uri.uri, key);
    let recorded = recorded_open(claimed, host, uri, key);
    let asked = open_asked(state, host, uri, key);
    let after = claim_dropped_if(asked, host, uri.uri, key, state.next);
    assert(asked.tracker == recorded);
    assert(after.claims =~= state.claims);
    assert(recorded.versions =~= claimed.versions);
    assert(recorded.opened =~= claimed.opened);
    let listed = servers_of(state.tracker.servers, uri.uri);
    assert(servers_of(claimed.servers, uri.uri) == listed.push(key));
    assert(listed.push(key).contains(key)) by {
        assert(listed.push(key)[listed.len() as int] == key);
    }
    assert(recorded.servers =~= claimed.servers);
    giving_a_claim_up_undoes_it(state.tracker, uri.uri, key);
    let up = given_up(recorded, uri.uri, key);
    assert(up.servers == state.tracker.servers);
    assert(up.opened == state.tracker.opened);
    let docs = docs_of(state.tracker.hosts, host);
    let doc = DocView { uri, key };
    let go = at_doc(uri.uri, key);
    let stay = not_at_doc(uri.uri, key);
    assert(up.hosts[host] == docs.push(doc));
    docs.lemma_filter_push(doc, stay);
    docs.lemma_filter_push(doc, go);
    assert forall|i: int| 0 <= i < docs.len() implies stay(#[trigger] docs[i]) by {
        if docs[i].uri.uri == uri.uri && docs[i].key == key {
            assert(lists_doc(docs, uri.uri, key));
        }
    }
    crate::seqs::lemma_filter_keeps_all(docs, stay);
    crate::seqs::lemma_filter_members(docs, go);
    assert(docs.filter(go) =~= Seq::<DocView>::empty()) by {
        if docs.filter(go).len() > 0 {
            let first = docs.filter(go)[0];
            assert(docs.filter(go).contains(first));
            assert(docs.contains(first) && go(first));
            let i = choose|i: int| 0 <= i < docs.len() && docs[i] == first;
            assert(stay(docs[i]));
        }
    }
    let gone = docs.push(doc).filter(go);
    assert(gone =~= seq![doc]);
    assert(gone.drop_last() =~= Seq::<DocView>::empty());
    assert(gone.last() == doc);
    lemma_without_absent_server(state.tracker.servers, uri.uri, key);
    assert(crate::document_tracking::without_servers(up.servers, gone.drop_last()) == up.servers);
    assert(crate::document_tracking::without_servers(up.servers, gone) == state.tracker.servers);
    assert forall|other: KeyView| #[trigger]
        documents_of(after.tracker.versions, other) == documents_of(
            state.tracker.versions,
            other,
        ) by {
        assert(after.tracker.versions == up.versions);
        assert(up.versions == given_up(claimed, uri.uri, key).versions);
    }
    assert forall|other: Seq<char>| #[trigger]
        docs_of(after.tracker.hosts, other) == docs_of(state.tracker.hosts, other) by {
        if other == host {
            assert(after.tracker.hosts[host] == docs);
        }
    }
}

proof fn lemma_without_absent_server(
    servers: Map<Seq<char>, Seq<KeyView>>,
    uri: Seq<char>,
    key: KeyView,
)
    requires
        !servers_of(servers, uri).contains(key),
        servers.contains_key(uri) ==> servers[uri].len() > 0,
    ensures
        crate::document_tracking::without_server(servers, uri, key) == servers,
{
    let listed = servers_of(servers, uri);
    assert forall|i: int| 0 <= i < listed.len() implies crate::connection_key::other_than(key)(
        #[trigger] listed[i],
    ) by {
        assert(listed.contains(listed[i]));
    }
    crate::seqs::lemma_filter_keeps_all(listed, crate::connection_key::other_than(key));
    assert(crate::document_tracking::without_server(servers, uri, key) =~= servers);
}

/// Taking a connection out forgets its claims too: nobody who was about to open a
/// document on it can settle it as open.
pub proof fn purged_claims_cannot_be_settled(
    state: OpeningView,
    uri: Seq<char>,
    key: KeyView,
    number: u64,
)
    ensures
        !claim_stands(connection_purged(state, key), uri, key, number),
        !is_open(connection_purged(state, key), uri, key),
{
}

/// A close that was kept from before what a connection held was forgotten leaves
/// the documents alone that were opened since: no earlier generation comes back,
/// until the numbers run out, and those of other connections stay current.
pub proof fn stale_closes_are_ignored(
    state: OpeningView,
    key: KeyView,
    other: KeyView,
    earlier: u64,
    host: Seq<char>,
    uri: UriView,
    later: OpeningView,
)
    requires
        earlier <= generation_of(state, key) < u64::MAX,
        generation_of(later, key) == generation_of(connection_purged(state, key), key),
    ensures
        closed_in(later, uri.uri, key, earlier) == later,
        ({
            let purged = connection_purged(state, key);
            let reopened = OpeningView {
                tracker: recorded_open(purged.tracker, host, uri, key),
                ..purged
            };
            &&& earlier < generation_of(purged, key)
            &&& closed_in(purged, uri.uri, key, earlier) == purged
            &&& closed_in(reopened, uri.uri, key, earlier) == reopened
            &&& is_open(closed_in(reopened, uri.uri, key, earlier), uri.uri, key)
            &&& other != key ==> generation_of(purged, other) == generation_of(state, other)
        }),
{
}

/// Only forgetting what a connection held begins a new generation.
pub proof fn generations_last(
    state: OpeningView,
    host: Seq<char>,
    uri: UriView,
    key: KeyView,
    number: u64,
    content: Seq<char>,
    tracker: TrackerView,
    other: KeyView,
)
    ensures
        generation_of(OpeningView { tracker, ..state }, other) == generation_of(state, other),
        generation_of(open_asked(state, host, uri, key), other) == generation_of(state, other),
        generation_of(claim_dropped_if(state, host, uri.uri, key, number), other) == generation_of(
            state,
            other,
        ),
        generation_of(open_sent(state, uri.uri, key, content), other) == generation_of(
            state,
            other,
        ),
        generation_of(untracked(state, uri.uri, key), other) == generation_of(state, other),
{
}

/// Claims that are backed stay backed, whatever is asked, settled, closed or
/// purged.
pub proof fn claims_stay_backed(
    state: OpeningView,
    host: Seq<char>,
    uri: UriView,
    key: KeyView,
    number: u64,
    content: Seq<char>,
)
    requires
        claims_are_backed(state),
    ensures
        claims_are_backed(open_asked(state, host, uri, key)),
        claims_are_backed(claim_dropped_if(state, host, uri.uri, key, number)),
        claims_are_backed(open_sent(state, uri.uri, key, content)),
        claims_are_backed(untracked(state, uri.uri, key)),
        claims_are_backed(connection_purged(state, key)),
{
    let dropped = claim_dropped(state, host, uri.uri, key);
    assert(claims_are_backed(dropped)) by {
        assert forall|place: PlaceView| #[trigger] dropped.claims.contains_key(place) implies holds(
            dropped.tracker.versions,
            place.key,
            place.uri,
        ) by {
            assert(state.claims.contains_key(place));
        }
    }
    let asked = open_asked(state, host, uri, key);
    assert forall|place: PlaceView| #[trigger] asked.claims.contains_key(place) implies holds(
        asked.tracker.versions,
        place.key,
        place.uri,
    ) by {
        if dropped.claims.contains_key(place) {
            assert(holds(dropped.tracker.versions, place.key, place.uri));
        }
    }
    let sent = open_sent(state, uri.uri, key, content);
    assert forall|place: PlaceView| #[trigger] sent.claims.contains_key(place) implies holds(
        sent.tracker.versions,
        place.key,
        place.uri,
    ) by {
        assert(state.claims.contains_key(place));
    }
    let closed = untracked(state, uri.uri, key);
    assert forall|place: PlaceView| #[trigger] closed.claims.contains_key(place) implies holds(
        closed.tracker.versions,
        place.key,
        place.uri,
    ) by {
        assert(state.claims.contains_key(place));
    }
    let gone = connection_purged(state, key);
    assert forall|place: PlaceView| #[trigger] gone.claims.contains_key(place) implies holds(
        gone.tracker.versions,
        place.key,
        place.uri,
    ) by {
        assert(state.claims.contains_key(place));
    }
}

/// A connection that holds a document has to be told of every content but the one
/// that it was told of last, and of any content where it was told of none. One
/// that does not hold the document is told of nothing.
pub proof fn every_other_content_is_news(
    state: OpeningView,
    uri: Seq<char>,
    key: KeyView,
    last: Seq<char>,
    content: Seq<char>,
)
    ensures
        ({
            let place = PlaceView { uri, key };
            let told = OpeningView { sent: state.sent.insert(place, last), ..state };
            let untold = OpeningView { sent: state.sent.remove(place), ..state };
            let held = state.tracker.versions.contains_key(key)
                && state.tracker.versions[key].contains_key(uri);
            &&& held && last != content ==> is_news(told, uri, key, content)
            &&& !is_news(told, uri, key, last)
            &&& held ==> is_news(untold, uri, key, content)
            &&& !held ==> !is_news(state, uri, key, content)
        }),
{
}

/// Telling a connection of a content makes news of every other one there, and
/// changes nothing about what is news for another document or connection.
pub proof fn contents_are_told_by_place(
    state: OpeningView,
    uri: Seq<char>,
    key: KeyView,
    content: Seq<char>,
    other_uri: Seq<char>,
    other_key: KeyView,
    other: Seq<char>,
)
    ensures
        ({
            let after = open_sent(state, uri, key, content);
            let place = PlaceView { uri, key };
            let elsewhere = PlaceView { uri: other_uri, key: other_key };
            &&& after.sent.contains_key(place) && after.sent[place] == content
            &&& after.tracker == state.tracker
            &&& !after.claims.contains_key(place)
            &&& elsewhere != place ==> {
                &&& is_news(after, other_uri, other_key, other) == is_news(
                    state,
                    other_uri,
                    other_key,
                    other,
                )
                &&& after.claims.contains_key(elsewhere) == state.claims.contains_key(elsewhere)
                &&& after.sent.contains_key(elsewhere) == state.sent.contains_key(elsewhere)
                &&& is_open(after, other_uri, other_key) == is_open(state, other_uri, other_key)
            }
        }),
{
}

/// Asking for a document concerns one place only: every other document and
/// connection is open, claimed and told of what it was, and nothing that was sent is
/// forgotten. The claim that is made has the next number.
pub proof fn asking_concerns_one_place(
    state: OpeningView,
    host: Seq<char>,
    uri: UriView,
    key: KeyView,
    other_uri: Seq<char>,
    other_key: KeyView,
)
    ensures
        ({
            let after = open_asked(state, host, uri, key);
            let place = PlaceView { uri: uri.uri, key };
            let elsewhere = PlaceView { uri: other_uri, key: other_key };
            &&& after.sent == state.sent
            &&& after.generations == state.generations
            &&& !is_open(state, uri.uri, key) ==> after.claims.contains_key(place)
                && after.claims[place] == state.next && after.next != state.next && holds(
                after.tracker.versions,
                key,
                uri.uri,
            )
            &&& is_open(state, uri.uri, key) ==> after == state
            &&& elsewhere != place ==> {
                &&& after.claims.contains_key(elsewhere) == state.claims.contains_key(elsewhere)
                &&& state.claims.contains_key(elsewhere) ==> after.claims[elsewhere]
                    == state.claims[elsewhere]
                &&& holds(after.tracker.versions, other_key, other_uri) == holds(
                    state.tracker.versions,
                    other_key,
                    other_uri,
                )
                &&& is_open(after, other_uri, other_key) == is_open(state, other_uri, other_key)
            }
        }),
{
}

/// A document is open on a connection exactly where the connection holds it and no
/// claim on it is unsettled.
pub proof fn open_means_held_and_settled(state: OpeningView, uri: Seq<char>, key: KeyView, number: u64)
    ensures
        is_open(state, uri, key) <==> state.tracker.versions.contains_key(key)
            && state.tracker.versions[key].contains_key(uri) && !state.claims.contains_key(
            PlaceView { uri, key },
        ),
        told_of(state, uri)(key) <==> !state.claims.contains_key(PlaceView { uri, key }),
        claim_stands(state, uri, key, number) <==> state.claims.contains_key(PlaceView { uri, key })
            && state.claims[PlaceView { uri, key }] == number,
{
}

/// A document counts as open somewhere exactly where some connection that is listed
/// for it was told of it. Such a connection holds it, where what is tracked is
/// consistent, and a document that was asked for and sent is found that way.
pub proof fn open_documents_are_found(
    state: OpeningView,
    host: Seq<char>,
    uri: UriView,
    key: KeyView,
    content: Seq<char>,
)
    requires
        tracking_is_consistent(state.tracker),
    ensures
        is_open_somewhere(state, uri.uri) ==> exists|k: KeyView| #[trigger]
            is_open(state, uri.uri, k),
        servers_of(state.tracker.servers, uri.uri).contains(key) && is_open(state, uri.uri, key)
            ==> is_open_somewhere(state, uri.uri),
        !is_open(state, uri.uri, key) ==> is_open_somewhere(
            open_sent(open_asked(state, host, uri, key), uri.uri, key, content),
            uri.uri,
        ),
{
    if is_open_somewhere(state, uri.uri) {
        let k = choose|k: KeyView| #[trigger]
            servers_of(state.tracker.servers, uri.uri).contains(k) && !state.claims.contains_key(
                PlaceView { uri: uri.uri, key: k },
            );
        assert(is_open(state, uri.uri, k));
    }
    let dropped = claim_dropped(state, host, uri.uri, key);
    let claimed = claimed_by(dropped.tracker, uri.uri, key);
    let sent = open_sent(open_asked(state, host, uri, key), uri.uri, key, content);
    if !is_open(state, uri.uri, key) {
        crate::document_tracking::a_claim_is_exclusive(dropped.tracker, uri.uri, key);
        assert(sent.tracker.servers == crate::document_tracking::with_server(
            claimed.servers,
            uri.uri,
            key,
        ));
        assert(servers_of(sent.tracker.servers, uri.uri).contains(key));
    }
}

/// Closing a document on a connection forgets it there, with what was sent and
/// claimed, and leaves every other place and every host list alone.
pub proof fn closing_concerns_one_place(
    state: OpeningView,
    uri: Seq<char>,
    key: KeyView,
    other_uri: Seq<char>,
    other_key: KeyView,
)
    ensures
        ({
            let after = untracked(state, uri, key);
            let place = PlaceView { uri, key };
            let elsewhere = PlaceView { uri: other_uri, key: other_key };
            &&& !is_open(after, uri, key)
            &&& !after.sent.contains_key(place) && !after.claims.contains_key(place)
            &&& after.tracker.hosts == state.tracker.hosts
            &&& after.next == state.next
            &&& elsewhere != place ==> {
                &&& is_open(after, other_uri, other_key) == is_open(state, other_uri, other_key)
                &&& after.sent.contains_key(elsewhere) == state.sent.contains_key(elsewhere)
                &&& state.sent.contains_key(elsewhere) ==> after.sent[elsewhere]
                    == state.sent[elsewhere]
                &&& after.claims.contains_key(elsewhere) == state.claims.contains_key(elsewhere)
                &&& state.claims.contains_key(elsewhere) ==> after.claims[elsewhere]
                    == state.claims[elsewhere]
            }
        }),
{
}

/// A claim is taken back by its own number only. Then the document is neither held
/// nor claimed there; under any other number nothing happens.
pub proof fn only_its_owner_takes_a_claim_back(
    state: OpeningView,
    host: Seq<char>,
    uri: Seq<char>,
    key: KeyView,
    number: u64,
    other_uri: Seq<char>,
    other_key: KeyView,
)
    ensures
        ({
            let after = claim_dropped_if(state, host, uri, key, number);
            let place = PlaceView { uri, key };
            let elsewhere = PlaceView { uri: other_uri, key: other_key };
            &&& !(state.claims.contains_key(place) && state.claims[place] == number) ==> after
                == state
            &&& state.claims.contains_key(place) && state.claims[place] == number ==> {
                &&& !after.claims.contains_key(place)
                &&& !holds(after.tracker.versions, key, uri)
                &&& after.sent == state.sent
            }
            &&& elsewhere != place ==> is_open(after, other_uri, other_key) == is_open(
                state,
                other_uri,
                other_key,
            )
        }),
{
}

/// Numbers of claims and of generations go up by one, until they run out.
pub proof fn claim_numbers_count_up(number: u64)
    ensures
        number < u64::MAX ==> claim_after(number) == number + 1,
        claim_after(number) != number,
{
}

/// A close is heeded in the current generation of its connection and in no other.
pub proof fn closes_belong_to_a_generation(
    state: OpeningView,
    uri: Seq<char>,
    key: KeyView,
    generation: u64,
)
    ensures
        state.generations.contains_key(key) ==> generation_of(state, key) == state.generations[key],
        !state.generations.contains_key(key) ==> generation_of(state, key) == 0,
        generation == generation_of(state, key) ==> !is_open(
            closed_in(state, uri, key, generation),
            uri,
            key,
        ),
        generation != generation_of(state, key) ==> closed_in(state, uri, key, generation) == state,
{
}

} // verus!
