//! The documents of a pool: what is open where, and the latest contents.

use crate::connection_key::{key_views, ConnectionKey};
use crate::document_place::PlaceView;
use crate::document_tracker::{doc_views, OpenedVirtualDoc};
use crate::document_tracking::{
    at_uri, docs_of, holds, host_docs_removed, host_docs_split, in_regions, is_replaced, not_at_uri,
    not_replaced, outside_regions, recorded_open, servers_of, version_after, TrackerView,
};
use crate::error::{ErrorKind, PoolError};
use crate::host_contents::{
    content_recorded, contents_changed, host_closed, host_opened, without_docs,
    without_regions_anywhere,
};
use crate::host_documents::{known_in_version, known_to, HostDocSyncState};
use crate::opening::{
    claim_dropped_if, claim_stands, closed_in, generation_of, is_news, is_open, is_open_somewhere,
    open_sent, told_of, untracked, OpenClaim, OpeningView,
};
use crate::outside::ulid_text;
use crate::pool::LanguageServerPool;
use crate::pool_state::PoolView;
use crate::table::Table;
use crate::virtual_uri::VirtualDocumentUri;
use vstd::prelude::*;

verus! {

/// The pool with other documents open.
pub open spec fn with_documents(pool: PoolView, documents: OpeningView) -> PoolView {
    PoolView { documents, ..pool }
}

/// The pool with something else tracked of its documents.
pub open spec fn with_tracker(pool: PoolView, tracker: TrackerView) -> PoolView {
    PoolView { documents: OpeningView { tracker, ..pool.documents }, ..pool }
}

impl LanguageServerPool {
    /// The lifetime that a host document is in.
    pub fn current_host_incarnation(&self, host_uri: &str) -> (incarnation: Option<u64>)
        requires
            self.wf(),
        ensures
            incarnation == (if self@.contents.contains_key(host_uri@) {
                Some(self@.contents[host_uri@].incarnation)
            } else {
                None
            }),
    {
        self.contents.current_host_incarnation(host_uri)
    }

    /// Begins a lifetime of a host document.
    pub fn open_host_incarnation(&mut self, host_uri: &str, incarnation: u64)
        requires
            old(self).wf(),
        ensures
            final(self).wf(),
            final(self)@ == (PoolView {
                contents: host_opened(old(self)@.contents, host_uri@, incarnation),
                ..old(self)@
            }),
    {
        self.contents.open_host_incarnation(host_uri, incarnation);
    }

    /// Ends a lifetime of a host document, if it is still in it.
    pub fn close_host_incarnation(&mut self, host_uri: &str, incarnation: u64)
        requires
            old(self).wf(),
        ensures
            final(self).wf(),
            final(self)@ == (PoolView {
                contents: host_closed(old(self)@.contents, host_uri@, incarnation),
                ..old(self)@
            }),
    {
        self.contents.close_host_incarnation(host_uri, incarnation);
    }

    /// Notes the content of a region, for those who open the region later.
    pub fn record_latest_virtual_content(
        &mut self,
        host_uri: &str,
        incarnation: u64,
        language: &str,
        region_id: &str,
        content: &str,
    )
        requires
            old(self).wf(),
        ensures
            final(self).wf(),
            final(self)@ == (PoolView {
                contents: content_recorded(
                    old(self)@.contents,
                    host_uri@,
                    incarnation,
                    language@,
                    region_id@,
                    content@,
                ),
                ..old(self)@
            }),
    {
        self.contents.record_latest_virtual_content(
            host_uri,
            incarnation,
            language,
            region_id,
            content,
        );
    }

    /// Drops the contents of the regions that one of the ULIDs names.
    pub fn clear_invalidated_virtual_contents(&mut self, host_uri: &str, invalidated_ulids: &[u128])
        requires
            old(self).wf(),
        ensures
            final(self).wf(),
            final(self)@ == (PoolView {
                contents: contents_changed(
                    old(self)@.contents,
                    host_uri@,
                    without_regions_anywhere(
                        old(self)@.contents[host_uri@].contents,
                        invalidated_ulids@.map_values(|ulid: u128| ulid_text(ulid)).to_set(),
                    ),
                ),
                ..old(self)@
            }),
    {
        self.contents.clear_invalidated_virtual_contents(host_uri, invalidated_ulids);
    }

    /// Drops the contents of the regions of some documents, each in the language
    /// of its document.
    pub fn clear_replaced_virtual_contents(
        &mut self,
        host_uri: &str,
        replaced: &Vec<OpenedVirtualDoc>,
    )
        requires
            old(self).wf(),
        ensures
            final(self).wf(),
            final(self)@ == (PoolView {
                contents: contents_changed(
                    old(self)@.contents,
                    host_uri@,
                    without_docs(
                        old(self)@.contents[host_uri@].contents,
                        doc_views(replaced@),
                    ),
                ),
                ..old(self)@
            }),
    {
        self.contents.clear_replaced_virtual_contents(host_uri, replaced);
    }

    /// Notes how far a connection was kept in step with a host document.
    pub fn record_host_document(
        &mut self,
        host_uri: &str,
        key: &ConnectionKey,
        state: HostDocSyncState,
    )
        requires
            old(self).wf(),
        ensures
            final(self).wf(),
            final(self)@ == (PoolView {
                host_documents: old(self)@.host_documents.insert(
                    PlaceView { uri: host_uri@, key: key@ },
                    state,
                ),
                ..old(self)@
            }),
    {
        self.host_documents.record(host_uri, key, state);
    }

    /// Whether some connection of a server was told of a host document.
    pub fn is_host_document_opened(&self, host_uri: &str, server_name: &str) -> (opened: bool)
        requires
            self.wf(),
        ensures
            opened == known_to(self@.host_documents, host_uri@, server_name@),
    {
        self.host_documents.is_host_document_opened(host_uri, server_name)
    }

    /// The version of a host document that a connection of a server was told of
    /// last.
    pub fn host_document_version(&self, host_uri: &str, server_name: &str) -> (version: Option<i32>)
        requires
            self.wf(),
        ensures
            match version {
                Some(version) => known_in_version(
                    self@.host_documents,
                    host_uri@,
                    server_name@,
                    version,
                ),
                None => !known_to(self@.host_documents, host_uri@, server_name@),
            },
    {
        self.host_documents.host_document_version(host_uri, server_name)
    }

    /// The virtual documents of a host document. They stay open.
    pub fn host_virtual_docs(&self, host_uri: &str) -> (docs: Vec<OpenedVirtualDoc>)
        requires
            self.wf(),
        ensures
            doc_views(docs@) == docs_of(self@.documents.tracker.hosts, host_uri@),
    {
        self.documents.tracker().host_virtual_docs(host_uri)
    }

    /// Takes all virtual documents of a host document out and gives them back.
    pub fn remove_host_virtual_docs(&mut self, host_uri: &str) -> (docs: Vec<OpenedVirtualDoc>)
        requires
            old(self).wf(),
        ensures
            final(self).wf(),
            doc_views(docs@) == docs_of(old(self)@.documents.tracker.hosts, host_uri@),
            final(self)@ == with_tracker(
                old(self)@,
                host_docs_removed(old(self)@.documents.tracker, host_uri@),
            ),
    {
        self.documents.remove_host_virtual_docs(host_uri)
    }

    /// Takes the virtual documents of a host document out whose region one of the
    /// ULIDs names, and gives them in their order.
    pub fn remove_matching_virtual_docs(&mut self, host_uri: &str, invalidated_ulids: &[u128]) -> (docs:
        Vec<OpenedVirtualDoc>)
        requires
            old(self).wf(),
        ensures
            final(self).wf(),
            ({
                let regions = invalidated_ulids@.map_values(|ulid: u128| ulid_text(ulid));
                &&& doc_views(docs@) == docs_of(
                    old(self)@.documents.tracker.hosts,
                    host_uri@,
                ).filter(in_regions(regions))
                &&& final(self)@ == with_tracker(
                    old(self)@,
                    host_docs_split(
                        old(self)@.documents.tracker,
                        host_uri@,
                        in_regions(regions),
                        outside_regions(regions),
                    ),
                )
            }),
    {
        self.documents.remove_matching_virtual_docs(host_uri, invalidated_ulids)
    }

    /// Forgets a document that was closed on a connection.
    pub fn untrack_document(&mut self, virtual_uri: &VirtualDocumentUri, key: &ConnectionKey)
        requires
            old(self).wf(),
        ensures
            final(self).wf(),
            final(self)@ == with_documents(
                old(self)@,
                untracked(old(self)@.documents, virtual_uri@.uri, key@),
            ),
    {
        self.documents.untrack_document(virtual_uri, key);
    }

    /// The generation that the documents of a connection are in. Each time that
    /// what the connection held is forgotten, a new one begins.
    pub fn document_connection_generation(&self, key: &ConnectionKey) -> (generation: u64)
        requires
            self.wf(),
        ensures
            generation == generation_of(self@.documents, key@),
    {
        self.documents.connection_generation(key)
    }

    /// Forgets a virtual document that was closed, unless what its connection held
    /// was forgotten since the generation that the document was seen in. Says
    /// whether the document was forgotten.
    pub fn close_single_virtual_doc(&mut self, doc: &OpenedVirtualDoc, generation: u64) -> (closed:
        bool)
        requires
            old(self).wf(),
        ensures
            final(self).wf(),
            closed == (generation == generation_of(old(self)@.documents, doc@.key)),
            final(self)@ == with_documents(
                old(self)@,
                closed_in(old(self)@.documents, doc@.uri.uri, doc@.key, generation),
            ),
    {
        self.documents.close_in_generation(&doc.virtual_uri, &doc.connection_key, generation)
    }

    /// Takes the virtual documents of a host document out whose region is
    /// expected in another language, and gives them in their order.
    pub fn remove_replaced_virtual_docs(
        &mut self,
        host_uri: &str,
        expected_languages: &Table<String, String>,
    ) -> (docs: Vec<OpenedVirtualDoc>)
        requires
            old(self).wf(),
            expected_languages.wf(),
        ensures
            final(self).wf(),
            doc_views(docs@) == docs_of(old(self)@.documents.tracker.hosts, host_uri@).filter(
                is_replaced(expected_languages@),
            ),
            final(self)@ == with_tracker(
                old(self)@,
                host_docs_split(
                    old(self)@.documents.tracker,
                    host_uri@,
                    is_replaced(expected_languages@),
                    not_replaced(expected_languages@),
                ),
            ),
    {
        self.documents.remove_replaced_virtual_docs(host_uri, expected_languages)
    }

    /// Takes one virtual document, on all its connections, from the list of a
    /// host document.
    pub fn unregister_virtual_doc(&mut self, host_uri: &str, virtual_uri: &VirtualDocumentUri)
        requires
            old(self).wf(),
        ensures
            final(self).wf(),
            final(self)@ == with_tracker(
                old(self)@,
                host_docs_split(
                    old(self)@.documents.tracker,
                    host_uri@,
                    at_uri(virtual_uri@.uri),
                    not_at_uri(virtual_uri@.uri),
                ),
            ),
    {
        self.documents.unregister_virtual_doc(host_uri, virtual_uri);
    }

    /// Records that a document is open on a connection, for a host document.
    pub fn register_opened_document(
        &mut self,
        host_uri: &str,
        virtual_uri: &VirtualDocumentUri,
        key: &ConnectionKey,
    )
        requires
            old(self).wf(),
        ensures
            final(self).wf(),
            final(self)@ == with_tracker(
                old(self)@,
                recorded_open(old(self)@.documents.tracker, host_uri@, virtual_uri@, key@),
            ),
    {
        self.documents.register_opened_document(host_uri, virtual_uri, key);
    }

    /// Whether some server was told of a document.
    pub fn is_document_opened(&self, virtual_uri: &VirtualDocumentUri) -> (opened: bool)
        requires
            self.wf(),
        ensures
            opened == is_open_somewhere(self@.documents, virtual_uri@.uri),
    {
        self.documents.is_document_opened(virtual_uri)
    }

    /// Whether the server at a connection was told of a document.
    pub fn is_document_opened_on_connection(
        &self,
        virtual_uri: &VirtualDocumentUri,
        key: &ConnectionKey,
    ) -> (opened: bool)
        requires
            self.wf(),
        ensures
            opened == is_open(self@.documents, virtual_uri@.uri, key@),
    {
        self.documents.is_document_opened_on_connection(virtual_uri, key)
    }

    /// Whether the document at an address is open on a connection.
    pub fn is_virtual_doc_open_on_connection(&self, virtual_uri: &str, key: &ConnectionKey) -> (open:
        bool)
        requires
            self.wf(),
        ensures
            open == (servers_of(self@.documents.tracker.servers, virtual_uri@).contains(key@)
                && told_of(self@.documents, virtual_uri@)(key@)),
    {
        self.documents.is_virtual_doc_open_on_connection(virtual_uri, key)
    }

    /// The connections that a document is open on.
    pub fn get_all_connections_for_virtual_uri(&self, virtual_uri: &VirtualDocumentUri) -> (keys:
        Vec<ConnectionKey>)
        requires
            self.wf(),
        ensures
            key_views(keys@) == servers_of(
                self@.documents.tracker.servers,
                virtual_uri@.uri,
            ).filter(told_of(self@.documents, virtual_uri@.uri)),
    {
        self.documents.get_all_connections_for_virtual_uri(virtual_uri)
    }

    /// The connections that a document is open on, or about to be.
    pub fn connections_opening_or_opened(&self, virtual_uri: &VirtualDocumentUri) -> (keys: Vec<
        ConnectionKey,
    >)
        requires
            self.wf(),
        ensures
            key_views(keys@) == servers_of(self@.documents.tracker.servers, virtual_uri@.uri),
    {
        self.documents.tracker().get_all_connections_for_virtual_uri(virtual_uri)
    }

    /// The host document and the region that an address stands for.
    pub fn resolve_virtual_uri(&self, virtual_uri: &str) -> (found: Option<(String, String)>)
        requires
            self.wf(),
        ensures
            ({
                let hosts = self@.documents.tracker.hosts;
                match found {
                    Some((host, region)) => hosts.contains_key(host@) && exists|i: int|
                        0 <= i < hosts[host@].len() && (#[trigger] hosts[host@][i]).uri.uri
                            == virtual_uri@ && hosts[host@][i].uri.region_id == region@,
                    None => forall|host: Seq<char>, i: int|
                        hosts.contains_key(host) && 0 <= i < hosts[host].len() ==> (
                        #[trigger] hosts[host][i]).uri.uri != virtual_uri@,
                }
            }),
    {
        self.documents.tracker().resolve_virtual_uri(virtual_uri)
    }

    /// The version of a document on a connection.
    pub fn virtual_document_version(&self, virtual_uri: &str, key: &ConnectionKey) -> (version:
        Option<i32>)
        requires
            self.wf(),
        ensures
            version == (if holds(self@.documents.tracker.versions, key@, virtual_uri@) {
                Some(self@.documents.tracker.versions[key@][virtual_uri@])
            } else {
                None
            }),
    {
        self.documents.tracker().document_version(virtual_uri, key)
    }

    /// Moves a document on a connection to its next version, if the connection
    /// was not told of this content last.
    pub fn increment_version_if_content_changed(
        &mut self,
        virtual_uri: &VirtualDocumentUri,
        key: &ConnectionKey,
        content: &str,
    ) -> (version: Option<i32>)
        requires
            old(self).wf(),
        ensures
            final(self).wf(),
            ({
                let uri = virtual_uri@.uri;
                let tracker = old(self)@.documents.tracker;
                if is_news(old(self)@.documents, uri, key@, content@) {
                    let next = version_after(tracker.versions[key@][uri]);
                    &&& version == Some(next)
                    &&& final(self)@ == with_tracker(
                        old(self)@,
                        TrackerView {
                            versions: tracker.versions.insert(
                                key@,
                                tracker.versions[key@].insert(uri, next),
                            ),
                            ..tracker
                        },
                    )
                } else {
                    version is None && final(self)@ == old(self)@
                }
            }),
    {
        self.documents.increment_version_if_content_changed(virtual_uri, key, content)
    }

    /// Notes which content a connection was told of last.
    pub fn record_sent_content_fingerprint(
        &mut self,
        virtual_uri: &VirtualDocumentUri,
        key: &ConnectionKey,
        content: &str,
    )
        requires
            old(self).wf(),
        ensures
            final(self).wf(),
            final(self)@ == with_documents(
                old(self)@,
                OpeningView {
                    sent: old(self)@.documents.sent.insert(
                        PlaceView { uri: virtual_uri@.uri, key: key@ },
                        content@,
                    ),
                    ..old(self)@.documents
                },
            ),
    {
        self.documents.record_sent_content_fingerprint(virtual_uri, key, content);
    }

    /// Settles a claim, given what became of telling the server. Where that
    /// failed the claim is taken back, unless another one has its place. Where it
    /// went well but the claim was taken back in between, the document does not
    /// count as open.
    pub fn settle_open(
        &mut self,
        host_uri: &str,
        virtual_uri: &VirtualDocumentUri,
        key: &ConnectionKey,
        claim: OpenClaim,
        content: &str,
        sent: Result<(), PoolError>,
    ) -> (settled: Result<(), PoolError>)
        requires
            old(self).wf(),
        ensures
            final(self).wf(),
            match sent {
                Err(error) => settled == Err::<(), PoolError>(error) && final(self)@
                    == with_documents(
                    old(self)@,
                    claim_dropped_if(
                        old(self)@.documents,
                        host_uri@,
                        virtual_uri@.uri,
                        key@,
                        claim.number(),
                    ),
                ),
                Ok(_) => if claim_stands(
                    old(self)@.documents,
                    virtual_uri@.uri,
                    key@,
                    claim.number(),
                ) {
                    settled is Ok && final(self)@ == with_documents(
                        old(self)@,
                        open_sent(old(self)@.documents, virtual_uri@.uri, key@, content@),
                    )
                } else {
                    settled is Err && settled->Err_0.says(
                        ErrorKind::Other,
                        "bridge: didOpen claim invalidated during enqueue"@,
                    ) && final(self)@ == old(self)@
                },
            },
    {
        self.documents.settle_open(host_uri, virtual_uri, key, claim, content, sent)
    }

    /// Takes a claim back whose owner went away before the server was told.
    pub fn abandon_open(
        &mut self,
        host_uri: &str,
        virtual_uri: &VirtualDocumentUri,
        key: &ConnectionKey,
        claim: OpenClaim,
    )
        requires
            old(self).wf(),
        ensures
            final(self).wf(),
            final(self)@ == with_documents(
                old(self)@,
                claim_dropped_if(
                    old(self)@.documents,
                    host_uri@,
                    virtual_uri@.uri,
                    key@,
                    claim.number(),
                ),
            ),
    {
        self.documents.abandon_open(host_uri, virtual_uri, key, claim);
    }
}

} // verus!
