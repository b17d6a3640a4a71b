//! The virtual documents that are open on downstream servers.

use crate::connection_key::{
    ConnectionKey, KeyView, copy_keys, holds_key, key_views, lemma_key_views_push, without_key,
};
use crate::document_tracking::{
    DocView, TrackerView, at_doc, at_uri, claim_refused, claimed_by, claims_stay_consistent,
    count_of, counted_down, docs_of, documents_of, given_up, holders, holds, host_docs_removed,
    host_docs_split, host_removal_stays_consistent, in_regions, is_replaced,
    lemma_partly_purged_end, lemma_partly_purged_start, lemma_partly_purged_step,
    lemma_same_holders, lists_doc, not_at_doc, not_at_uri, not_replaced, nothing_open,
    on_other_connection, outside_regions, partly_purged, purged, purging_stays_consistent,
    recorded_open, recording_stays_consistent, servers_of, tracking_is_consistent, version_after,
    with_server, without_server, without_servers,
};
use crate::outside::{
    clear_number, new_numbers, number_at, number_contents, set_number, ulid_string, ulid_text,
};
use crate::seqs::lemma_take_contains;
use crate::table::{Table, TableKey};
use crate::text::{holds_text, same_text, texts};
use crate::text_table::TextTable;
use crate::virtual_uri::VirtualDocumentUri;
use vstd::prelude::*;

verus! {

/// A virtual document that was opened on a connection.
#[derive(Debug)]
pub struct OpenedVirtualDoc {
    pub virtual_uri: VirtualDocumentUri,
    pub connection_key: ConnectionKey,
}

impl View for OpenedVirtualDoc {
    type V = DocView;

    open spec fn view(&self) -> DocView {
        DocView { uri: self.virtual_uri@, key: self.connection_key@ }
    }
}

impl Clone for OpenedVirtualDoc {
    fn clone(&self) -> (copy: Self)
        ensures
            copy@ == self@,
    {
        OpenedVirtualDoc {
            virtual_uri: self.virtual_uri.clone(),
            connection_key: self.connection_key.clone(),
        }
    }
}

/// What a list of documents says.
pub open spec fn doc_views(list: Seq<OpenedVirtualDoc>) -> Seq<DocView> {
    list.map_values(|doc: OpenedVirtualDoc| doc@)
}

proof fn lemma_doc_views_push(list: Seq<OpenedVirtualDoc>, doc: OpenedVirtualDoc)
    ensures
        doc_views(list.push(doc)) == doc_views(list).push(doc@),
{
    assert(doc_views(list.push(doc)) =~= doc_views(list).push(doc@));
}

/// Tracks, for each connection, the versions of the virtual documents that it
/// holds; for each host document, its virtual documents; and for each virtual
/// document, how often and where it is open.
pub struct DocumentTracker {
    document_versions: Table<ConnectionKey, Table<String, i32>>,
    host_to_virtual: Table<String, Vec<OpenedVirtualDoc>>,
    opened_documents: dashmap::DashMap<String, usize>,
    virtual_to_servers: TextTable<Vec<ConnectionKey>>,
}

impl View for DocumentTracker {
    type V = TrackerView;

    closed spec fn view(&self) -> TrackerView {
        TrackerView {
            versions: Map::new(
                |key: KeyView| self.document_versions@.contains_key(key),
                |key: KeyView| self.document_versions@[key]@,
            ),
            hosts: Map::new(
                |host: Seq<char>| self.host_to_virtual@.contains_key(host),
                |host: Seq<char>| doc_views(self.host_to_virtual@[host]@),
            ),
            opened: number_contents(self.opened_documents),
            servers: Map::new(
                |uri: Seq<char>| self.virtual_to_servers@.contains_key(uri),
                |uri: Seq<char>| key_views(self.virtual_to_servers@[uri]@),
            ),
        }
    }
}

impl DocumentTracker {
    spec fn parts_wf(self) -> bool {
        &&& self.document_versions.wf()
        &&& forall|key: KeyView| #[trigger]
            self.document_versions@.contains_key(key) ==> self.document_versions@[key].wf()
        &&& self.host_to_virtual.wf()
        &&& self.virtual_to_servers.wf()
    }

    /// The parts are well formed and agree with each other.
    pub closed spec fn wf(self) -> bool {
        self.parts_wf() && tracking_is_consistent(self@)
    }

    /// What is tracked is consistent.
    pub proof fn lemma_consistent(self)
        requires
            self.wf(),
        ensures
            tracking_is_consistent(self@),
    {
    }

    /// A tracker with nothing open.
    pub fn new() -> (tracker: Self)
        ensures
            tracker.wf(),
            tracker@ == nothing_open(),
    {
        let tracker = DocumentTracker {
            document_versions: Table::new(),
            host_to_virtual: Table::new(),
            opened_documents: new_numbers(),
            virtual_to_servers: TextTable::new(),
        };
        assert(tracker@.versions =~= nothing_open().versions);
        assert(tracker@.hosts =~= nothing_open().hosts);
        assert(tracker@.servers =~= nothing_open().servers);
        tracker
    }

    /// Whether a virtual document is claimed or open on some downstream server.
    pub fn is_document_opened(&self, virtual_uri: &VirtualDocumentUri) -> (opened: bool)
        requires
            self.wf(),
        ensures
            opened == (count_of(self@.opened, virtual_uri@.uri) > 0),
            opened ==> exists|key: KeyView| #[trigger]
                holds(self@.versions, key, virtual_uri@.uri),
    {
        match number_at(&self.opened_documents, virtual_uri.uri()) {
            Some(count) => {
                proof {
                    let set = holders(self@.versions, virtual_uri@.uri);
                    assert(self@.opened.contains_key(virtual_uri@.uri));
                    assert(set.len() > 0);
                    let key = set.choose();
                    assert(set.contains(key));
                    assert(holds(self@.versions, key, virtual_uri@.uri));
                }
                count > 0
            },
            None => false,
        }
    }

    /// Lists a connection among those that a document is open on.
    fn add_to_reverse_index(&mut self, uri: &str, key: &ConnectionKey)
        requires
            old(self).parts_wf(),
        ensures
            final(self).parts_wf(),
            final(self)@ == (TrackerView {
                servers: with_server(old(self)@.servers, uri@, key@),
                ..old(self)@
            }),
    {
        let ghost listed = servers_of(self@.servers, uri@);
        match self.virtual_to_servers.get_mut(uri) {
            Some(keys) => {
                if !holds_key(keys, key) {
                    let added = key.clone();
                    proof {
                        lemma_key_views_push(keys@, added);
                    }
                    keys.push(added);
                }
            },
            None => {
                let mut keys: Vec<ConnectionKey> = Vec::new();
                keys.push(key.clone());
                assert(key_views(keys@) =~= Seq::<KeyView>::empty().push(key@));
                self.virtual_to_servers.insert(uri.to_owned(), keys);
            },
        }
        assert(self@.servers =~= with_server(old(self)@.servers, uri@, key@));
    }

    /// Takes a connection from those that a document is open on.
    fn remove_from_reverse_index(&mut self, uri: &str, key: &ConnectionKey)
        requires
            old(self).parts_wf(),
        ensures
            final(self).parts_wf(),
            final(self)@ == (TrackerView {
                servers: without_server(old(self)@.servers, uri@, key@),
                ..old(self)@
            }),
    {
        let mut emptied = false;
        match self.virtual_to_servers.get_mut(uri) {
            Some(keys) => {
                let rest = without_key(keys, key);
                emptied = rest.len() == 0;
                *keys = rest;
            },
            None => {},
        }
        if emptied {
            self.virtual_to_servers.remove(uri);
        }
        assert(self@.servers =~= without_server(old(self)@.servers, uri@, key@));
    }

    /// Counts one opening of a document less.
    fn decrement_opened(&mut self, uri: &str)
        requires
            old(self).parts_wf(),
        ensures
            final(self).parts_wf(),
            final(self)@ == (TrackerView {
                opened: counted_down(old(self)@.opened, uri@),
                ..old(self)@
            }),
    {
        match number_at(&self.opened_documents, uri) {
            Some(count) => {
                if count <= 1 {
                    clear_number(&mut self.opened_documents, uri);
                } else {
                    set_number(&mut self.opened_documents, uri.to_owned(), count - 1);
                }
            },
            None => {},
        }
    }

    /// Whether a connection holds a document.
    fn holds_document(&self, uri: &str, key: &ConnectionKey) -> (held: bool)
        requires
            self.parts_wf(),
        ensures
            held == holds(self@.versions, key@, uri@),
    {
        match self.document_versions.get(key) {
            Some(docs) => {
                assert(self.document_versions@.contains_key(key@));
                docs.contains(&uri.to_owned())
            },
            None => false,
        }
    }

    /// Makes sure that a connection is known.
    fn documents_mut(&mut self, key: &ConnectionKey)
        requires
            old(self).parts_wf(),
        ensures
            final(self).parts_wf(),
            final(self)@ == claim_refused(old(self)@, key@),
            final(self).document_versions@.contains_key(key@),
    {
        if !self.document_versions.contains(key) {
            self.document_versions.insert(key.clone(), Table::new());
        }
        assert(self@.versions =~= claim_refused(old(self)@, key@).versions);
    }

    /// Claims a virtual document for opening on a connection. Only the first of
    /// several claims is granted, until it is given up.
    pub fn try_claim_for_open(
        &mut self,
        virtual_uri: &VirtualDocumentUri,
        connection_key: &ConnectionKey,
    ) -> (granted: bool)
        requires
            old(self).wf(),
        ensures
            final(self).wf(),
            granted == !holds(old(self)@.versions, connection_key@, virtual_uri@.uri),
            final(self)@ == (if granted {
                claimed_by(old(self)@, virtual_uri@.uri, connection_key@)
            } else {
                claim_refused(old(self)@, connection_key@)
            }),
    {
        let ghost before = self@;
        let ghost uri = virtual_uri@.uri;
        proof {
            claims_stay_consistent(before, uri, connection_key@);
        }
        if self.holds_document(virtual_uri.uri(), connection_key) {
            self.documents_mut(connection_key);
            return false;
        }
        self.documents_mut(connection_key);
        let ghost known = self.document_versions@;
        assert(known[connection_key@]@ == documents_of(before.versions, connection_key@)) by {
            assert(self@.versions[connection_key@] == known[connection_key@]@);
        }
        match self.document_versions.get_mut(connection_key) {
            Some(docs) => {
                docs.insert(virtual_uri.to_uri_string(), 1);
            },
            None => {},
        }
        assert forall|key: KeyView| self@.versions.contains_key(key) implies self@.versions[key]
            == claimed_by(before, uri, connection_key@).versions[key] by {
            if key != connection_key@ {
                assert(self.document_versions@[key] == known[key]);
                assert(claim_refused(before, connection_key@).versions[key] == known[key]@);
            }
        }
        proof {
            self.document_versions.lemma_len();
            assert(self@.versions =~= claimed_by(before, uri, connection_key@).versions);
            assert(self@.versions.dom() =~= self.document_versions@.dom());
        }
        let connections = self.document_versions.len();
        let count = match number_at(&self.opened_documents, virtual_uri.uri()) {
            Some(count) => count,
            None => 0,
        };
        assert(count < connections);
        set_number(&mut self.opened_documents, virtual_uri.to_uri_string(), count + 1);
        self.add_to_reverse_index(virtual_uri.uri(), connection_key);
        assert(self@ =~= claimed_by(before, uri, connection_key@));
        true
    }

    /// Forgets that a connection holds a document.
    fn drop_version(&mut self, uri: &str, key: &ConnectionKey)
        requires
            old(self).parts_wf(),
        ensures
            final(self).parts_wf(),
            final(self)@ == (TrackerView {
                versions: if old(self)@.versions.contains_key(key@) {
                    old(self)@.versions.insert(key@, old(self)@.versions[key@].remove(uri@))
                } else {
                    old(self)@.versions
                },
                ..old(self)@
            }),
    {
        let ghost known = self.document_versions@;
        match self.document_versions.get_mut(key) {
            Some(docs) => {
                docs.remove(&uri.to_owned());
            },
            None => {},
        }
        assert forall|other: KeyView| self@.versions.contains_key(other) && other
            != key@ implies self@.versions[other] == old(self)@.versions[other] by {
            assert(self.document_versions@[other] == known[other]);
        }
        proof {
            if old(self)@.versions.contains_key(key@) {
                assert(self@.versions =~= old(self)@.versions.insert(
                    key@,
                    old(self)@.versions[key@].remove(uri@),
                ));
            } else {
                assert(self@.versions =~= old(self)@.versions);
            }
        }
    }

    /// Takes back a claim whose document was not opened after all.
    pub fn unclaim_document(
        &mut self,
        virtual_uri: &VirtualDocumentUri,
        connection_key: &ConnectionKey,
    )
        requires
            old(self).wf(),
        ensures
            final(self).wf(),
            final(self)@ == given_up(old(self)@, virtual_uri@.uri, connection_key@),
    {
        proof {
            claims_stay_consistent(self@, virtual_uri@.uri, connection_key@);
        }
        self.drop_version(virtual_uri.uri(), connection_key);
        self.decrement_opened(virtual_uri.uri());
        self.remove_from_reverse_index(virtual_uri.uri(), connection_key);
    }

    /// Forgets a document that was closed on a connection. The host document
    /// keeps its list.
    pub fn untrack_document(
        &mut self,
        virtual_uri: &VirtualDocumentUri,
        connection_key: &ConnectionKey,
    )
        requires
            old(self).wf(),
        ensures
            final(self).wf(),
            final(self)@ == given_up(old(self)@, virtual_uri@.uri, connection_key@),
    {
        proof {
            claims_stay_consistent(self@, virtual_uri@.uri, connection_key@);
        }
        self.drop_version(virtual_uri.uri(), connection_key);
        self.decrement_opened(virtual_uri.uri());
        self.remove_from_reverse_index(virtual_uri.uri(), connection_key);
    }

    /// Whether a list has an entry for a document on a connection.
    fn has_doc(docs: &Vec<OpenedVirtualDoc>, uri: &str, key: &ConnectionKey) -> (has: bool)
        ensures
            has == lists_doc(doc_views(docs@), uri@, key@),
    {
        let mut i: usize = 0;
        while i < docs.len()
            invariant
                i <= docs@.len(),
                forall|j: int|
                    0 <= j < i ==> !((#[trigger] doc_views(docs@)[j]).uri.uri == uri@ && doc_views(
                        docs@,
                    )[j].key == key@),
            decreases docs@.len() - i,
        {
            if docs[i].virtual_uri.is_at(uri) && docs[i].connection_key.same(key) {
                assert(doc_views(docs@)[i as int] == docs@[i as int]@);
                return true;
            }
            i += 1;
        }
        false
    }

    /// Lists a document among those of a host document, unless it is there.
    fn list_for_host(&mut self, host: &str, virtual_uri: &VirtualDocumentUri, key: &ConnectionKey)
        requires
            old(self).parts_wf(),
        ensures
            final(self).parts_wf(),
            ({
                let docs = docs_of(old(self)@.hosts, host@);
                final(self)@ == (TrackerView {
                    hosts: old(self)@.hosts.insert(
                        host@,
                        if lists_doc(docs, virtual_uri@.uri, key@) {
                            docs
                        } else {
                            docs.push(DocView { uri: virtual_uri@, key: key@ })
                        },
                    ),
                    ..old(self)@
                })
            }),
    {
        let ghost docs = docs_of(self@.hosts, host@);
        let ghost listed = lists_doc(docs, virtual_uri@.uri, key@);
        let name = host.to_owned();
        if !self.host_to_virtual.contains(&name) {
            let none: Vec<OpenedVirtualDoc> = Vec::new();
            assert(doc_views(none@) =~= Seq::<DocView>::empty());
            self.host_to_virtual.insert(name.clone(), none);
        }
        let ghost known = self.host_to_virtual@;
        assert(doc_views(known[host@]@) == docs);
        match self.host_to_virtual.get_mut(&name) {
            Some(list) => {
                if !Self::has_doc(list, virtual_uri.uri(), key) {
                    let doc = OpenedVirtualDoc {
                        virtual_uri: virtual_uri.clone(),
                        connection_key: key.clone(),
                    };
                    proof {
                        lemma_doc_views_push(list@, doc);
                    }
                    list.push(doc);
                }
            },
            None => {},
        }
        assert forall|other: Seq<char>| self@.hosts.contains_key(other) && other
            != host@ implies self@.hosts[other] == old(self)@.hosts[other] by {
            assert(self.host_to_virtual@[other] == known[other]);
        }
        assert(self@.hosts =~= old(self)@.hosts.insert(
            host@,
            if listed {
                docs
            } else {
                docs.push(DocView { uri: virtual_uri@, key: key@ })
            },
        ));
    }

    /// Records that a document is open on a connection, for a host document.
    pub fn register_opened_document(
        &mut self,
        host_uri: &str,
        virtual_uri: &VirtualDocumentUri,
        connection_key: &ConnectionKey,
    )
        requires
            old(self).wf(),
        ensures
            final(self).wf(),
            final(self)@ == recorded_open(
                old(self)@,
                host_uri@,
                virtual_uri@,
                connection_key@,
            ),
    {
        let ghost before = self@;
        let ghost target = recorded_open(before, host_uri@, virtual_uri@, connection_key@);
        proof {
            recording_stays_consistent(before, host_uri@, virtual_uri@, connection_key@);
        }
        let held = self.holds_document(virtual_uri.uri(), connection_key);
        self.documents_mut(connection_key);
        if !held {
            let ghost known = self.document_versions@;
            let ghost known_versions = self@.versions;
            assert(known[connection_key@]@ == documents_of(before.versions, connection_key@)) by {
                assert(self@.versions[connection_key@] == known[connection_key@]@);
            }
            match self.document_versions.get_mut(connection_key) {
                Some(docs) => {
                    docs.insert(virtual_uri.to_uri_string(), 1);
                },
                None => {},
            }
            assert(self@.versions[connection_key@] == target.versions[connection_key@]);
            assert forall|key: KeyView| self@.versions.contains_key(key)
                == target.versions.contains_key(key) by {
                assert(known.contains_key(key) == known_versions.contains_key(key));
                assert(self.document_versions@.contains_key(key) == known.contains_key(key));
            }
            assert forall|key: KeyView| self@.versions.contains_key(key) implies self@.versions[key]
                == target.versions[key] by {
                if key != connection_key@ {
                    assert(self.document_versions@[key] == known[key]);
                    assert(claim_refused(before, connection_key@).versions[key] == known[key]@);
                }
            }
            assert(self@.versions =~= target.versions);
        } else {
            assert(documents_of(before.versions, connection_key@).contains_key(virtual_uri@.uri));
            assert(self@.versions =~= target.versions);
        }
        self.list_for_host(host_uri, virtual_uri, connection_key);
        if number_at(&self.opened_documents, virtual_uri.uri()).is_none() {
            set_number(&mut self.opened_documents, virtual_uri.to_uri_string(), 1);
        }
        self.add_to_reverse_index(virtual_uri.uri(), connection_key);
        assert(self@ =~= target);
    }

    /// The version of a document on a connection.
    pub fn document_version(&self, virtual_uri: &str, connection_key: &ConnectionKey) -> (version:
        Option<i32>)
        requires
            self.wf(),
        ensures
            version == (if holds(self@.versions, connection_key@, virtual_uri@) {
                Some(self@.versions[connection_key@][virtual_uri@])
            } else {
                None
            }),
    {
        match self.document_versions.get(connection_key) {
            Some(docs) => {
                assert(self.document_versions@.contains_key(connection_key@));
                match docs.get(&virtual_uri.to_owned()) {
                    Some(version) => Some(*version),
                    None => None,
                }
            },
            None => None,
        }
    }

    /// Moves a document on a connection to its next version. Gives nothing for a
    /// document that the connection does not hold.
    pub fn increment_document_version(
        &mut self,
        virtual_uri: &VirtualDocumentUri,
        connection_key: &ConnectionKey,
    ) -> (version: Option<i32>)
        requires
            old(self).wf(),
        ensures
            final(self).wf(),
            ({
                let uri = virtual_uri@.uri;
                let key = connection_key@;
                if holds(old(self)@.versions, key, uri) {
                    let next = version_after(old(self)@.versions[key][uri]);
                    &&& version == Some(next)
                    &&& final(self)@ == (TrackerView {
                        versions: old(self)@.versions.insert(
                            key,
                            old(self)@.versions[key].insert(uri, next),
                        ),
                        ..old(self)@
                    })
                } else {
                    version is None && final(self)@ == old(self)@
                }
            }),
    {
        let ghost uri = virtual_uri@.uri;
        let ghost key = connection_key@;
        let current = self.document_version(virtual_uri.uri(), connection_key);
        match current {
            Some(version) => {
                let next = version.wrapping_add(1);
                let ghost known = self.document_versions@;
                match self.document_versions.get_mut(connection_key) {
                    Some(docs) => {
                        docs.insert(virtual_uri.to_uri_string(), next);
                    },
                    None => {},
                }
                proof {
                    let held = old(self)@.versions[key].insert(uri, next);
                    let target = old(self)@.versions.insert(key, held);
                    assert forall|other: KeyView| self@.versions.contains_key(other) && other
                        != key implies self@.versions[other] == old(self)@.versions[other] by {
                        assert(self.document_versions@[other] == known[other]);
                    }
                    assert(self@.versions =~= target);
                    assert(held.dom() =~= old(self)@.versions[key].dom());
                    lemma_same_holders(old(self)@.versions, key, held);
                    assert(self.parts_wf());
                    assert(self@.opened == old(self)@.opened);
                    assert(self@.servers == old(self)@.servers);
                    assert(self@.versions.dom().finite());
                    assert(tracking_is_consistent(self@));
                }
                Some(next)
            },
            None => None,
        }
    }

    /// Parts a list into the documents that `goes` picks and the others, both in
    /// their order.
    fn split_docs<F: Fn(&OpenedVirtualDoc) -> bool>(
        docs: &Vec<OpenedVirtualDoc>,
        goes: F,
        Ghost(go): Ghost<spec_fn(DocView) -> bool>,
        Ghost(stay): Ghost<spec_fn(DocView) -> bool>,
    ) -> (parts: (Vec<OpenedVirtualDoc>, Vec<OpenedVirtualDoc>))
        requires
            forall|doc: &OpenedVirtualDoc| call_requires(goes, (doc,)),
            forall|doc: &OpenedVirtualDoc, picked: bool|
                call_ensures(goes, (doc,), picked) ==> picked == go(doc@),
            forall|doc: DocView| #[trigger] stay(doc) == !go(doc),
        ensures
            doc_views(parts.0@) == doc_views(docs@).filter(go),
            doc_views(parts.1@) == doc_views(docs@).filter(stay),
    {
        let ghost all = doc_views(docs@);
        let mut gone: Vec<OpenedVirtualDoc> = Vec::new();
        let mut rest: Vec<OpenedVirtualDoc> = Vec::new();
        let mut i: usize = 0;
        proof {
            reveal(Seq::filter);
            assert(all.take(0) =~= Seq::<DocView>::empty());
            assert(doc_views(gone@) =~= all.take(0).filter(go));
            assert(doc_views(rest@) =~= all.take(0).filter(stay));
        }
        while i < docs.len()
            invariant
                i <= docs@.len(),
                all == doc_views(docs@),
                forall|doc: &OpenedVirtualDoc| call_requires(goes, (doc,)),
                forall|doc: &OpenedVirtualDoc, picked: bool|
                    call_ensures(goes, (doc,), picked) ==> picked == go(doc@),
                forall|doc: DocView| #[trigger] stay(doc) == !go(doc),
                doc_views(gone@) == all.take(i as int).filter(go),
                doc_views(rest@) == all.take(i as int).filter(stay),
            decreases docs@.len() - i,
        {
            let doc = docs[i].clone();
            proof {
                let seen = all.take(i as int);
                assert(all.take(i as int + 1) =~= seen.push(doc@));
                seen.lemma_filter_push(doc@, go);
                seen.lemma_filter_push(doc@, stay);
                assert(stay(doc@) == !go(doc@));
                lemma_doc_views_push(gone@, doc);
                lemma_doc_views_push(rest@, doc);
            }
            if goes(&doc) {
                gone.push(doc);
            } else {
                rest.push(doc);
            }
            i += 1;
        }
        assert(all.take(all.len() as int) =~= all);
        (gone, rest)
    }

    /// Takes several documents from the connections that they are open on.
    fn remove_all_from_reverse_index(&mut self, docs: &Vec<OpenedVirtualDoc>)
        requires
            old(self).parts_wf(),
        ensures
            final(self).parts_wf(),
            final(self)@ == (TrackerView {
                servers: without_servers(old(self)@.servers, doc_views(docs@)),
                ..old(self)@
            }),
    {
        let ghost all = doc_views(docs@);
        let mut i: usize = 0;
        assert(all.take(0) =~= Seq::<DocView>::empty());
        while i < docs.len()
            invariant
                self.parts_wf(),
                i <= docs@.len(),
                all == doc_views(docs@),
                self@ == (TrackerView {
                    servers: without_servers(old(self)@.servers, all.take(i as int)),
                    ..old(self)@
                }),
            decreases docs@.len() - i,
        {
            proof {
                assert(all.take(i as int + 1).drop_last() =~= all.take(i as int));
                assert(all.take(i as int + 1).last() == docs@[i as int]@);
            }
            self.remove_from_reverse_index(docs[i].virtual_uri.uri(), &docs[i].connection_key);
            i += 1;
        }
        assert(all.take(all.len() as int) =~= all);
    }

    /// Sets the list of a host document that has one.
    fn set_host_docs(&mut self, host: &str, docs: Vec<OpenedVirtualDoc>)
        requires
            old(self).parts_wf(),
            old(self)@.hosts.contains_key(host@),
        ensures
            final(self).parts_wf(),
            final(self)@ == (TrackerView {
                hosts: old(self)@.hosts.insert(host@, doc_views(docs@)),
                ..old(self)@
            }),
    {
        let ghost said = doc_views(docs@);
        self.host_to_virtual.insert(host.to_owned(), docs);
        assert(self@.hosts =~= old(self)@.hosts.insert(host@, said));
    }

    /// Takes one virtual document, on all its connections, from the list of a
    /// host document.
    pub fn unregister_virtual_doc(&mut self, host_uri: &str, virtual_uri: &VirtualDocumentUri)
        requires
            old(self).wf(),
        ensures
            final(self).wf(),
            final(self)@ == host_docs_split(
                old(self)@,
                host_uri@,
                at_uri(virtual_uri@.uri),
                not_at_uri(virtual_uri@.uri),
            ),
    {
        let ghost go = at_uri(virtual_uri@.uri);
        let ghost stay = not_at_uri(virtual_uri@.uri);
        proof {
            host_removal_stays_consistent(self@, host_uri@, go, stay);
        }
        let parts = match self.host_to_virtual.get(&host_uri.to_owned()) {
            Some(docs) => {
                let goes = |doc: &OpenedVirtualDoc| -> (picked: bool)
                    ensures
                        picked == go(doc@),
                    { doc.virtual_uri.is_at(virtual_uri.uri()) };
                Some(Self::split_docs(docs, goes, Ghost(go), Ghost(stay)))
            },
            None => None,
        };
        match parts {
            Some((gone, rest)) => {
                self.set_host_docs(host_uri, rest);
                self.remove_all_from_reverse_index(&gone);
            },
            None => {},
        }
    }

    /// Takes back a claim whose document was not opened after all, and takes the
    /// document on this connection from the list of its host document.
    pub fn rollback_open_claim(
        &mut self,
        host_uri: &str,
        virtual_uri: &VirtualDocumentUri,
        connection_key: &ConnectionKey,
    )
        requires
            old(self).wf(),
        ensures
            final(self).wf(),
            final(self)@ == host_docs_split(
                given_up(old(self)@, virtual_uri@.uri, connection_key@),
                host_uri@,
                at_doc(virtual_uri@.uri, connection_key@),
                not_at_doc(virtual_uri@.uri, connection_key@),
            ),
    {
        self.unclaim_document(virtual_uri, connection_key);
        let ghost go = at_doc(virtual_uri@.uri, connection_key@);
        let ghost stay = not_at_doc(virtual_uri@.uri, connection_key@);
        proof {
            host_removal_stays_consistent(self@, host_uri@, go, stay);
        }
        let parts = match self.host_to_virtual.get(&host_uri.to_owned()) {
            Some(docs) => {
                let goes = |doc: &OpenedVirtualDoc| -> (picked: bool)
                    ensures
                        picked == go(doc@),
                    {
                        doc.virtual_uri.is_at(virtual_uri.uri()) && doc.connection_key.same(
                            connection_key,
                        )
                    };
                Some(Self::split_docs(docs, goes, Ghost(go), Ghost(stay)))
            },
            None => None,
        };
        match parts {
            Some((gone, rest)) => {
                self.set_host_docs(host_uri, rest);
                self.remove_all_from_reverse_index(&gone);
            },
            None => {},
        }
    }

    /// A second list that says the same.
    fn copy_docs(docs: &Vec<OpenedVirtualDoc>) -> (copy: Vec<OpenedVirtualDoc>)
        ensures
            doc_views(copy@) == doc_views(docs@),
    {
        let mut copy: Vec<OpenedVirtualDoc> = Vec::new();
        let mut i: usize = 0;
        while i < docs.len()
            invariant
                i <= docs@.len(),
                copy@.len() == i,
                forall|j: int| 0 <= j < i ==> (#[trigger] copy@[j])@ == docs@[j]@,
            decreases docs@.len() - i,
        {
            copy.push(docs[i].clone());
            i += 1;
        }
        assert(doc_views(copy@) =~= doc_views(docs@));
        copy
    }

    /// The virtual documents of a host document. They stay open.
    pub fn host_virtual_docs(&self, host_uri: &str) -> (docs: Vec<OpenedVirtualDoc>)
        requires
            self.wf(),
        ensures
            doc_views(docs@) == docs_of(self@.hosts, host_uri@),
    {
        match self.host_to_virtual.get(&host_uri.to_owned()) {
            Some(docs) => Self::copy_docs(docs),
            None => {
                let none: Vec<OpenedVirtualDoc> = Vec::new();
                assert(doc_views(none@) =~= Seq::<DocView>::empty());
                none
            },
        }
    }

    /// Takes all virtual documents of a host document out and gives them.
    pub fn remove_host_virtual_docs(&mut self, host_uri: &str) -> (docs: Vec<OpenedVirtualDoc>)
        requires
            old(self).wf(),
        ensures
            final(self).wf(),
            doc_views(docs@) == docs_of(old(self)@.hosts, host_uri@),
            final(self)@ == host_docs_removed(old(self)@, host_uri@),
    {
        let ghost before = self@;
        proof {
            host_removal_stays_consistent(self@, host_uri@, at_uri(host_uri@), not_at_uri(host_uri@));
        }
        let docs = match self.host_to_virtual.remove(&host_uri.to_owned()) {
            Some(docs) => docs,
            None => {
                let none: Vec<OpenedVirtualDoc> = Vec::new();
                assert(doc_views(none@) =~= Seq::<DocView>::empty());
                none
            },
        };
        assert(self@.hosts =~= before.hosts.remove(host_uri@));
        self.remove_all_from_reverse_index(&docs);
        docs
    }

    /// Takes the virtual documents of a host document out that `goes` picks, and
    /// gives them in their order.
    fn remove_docs_where<F: Fn(&OpenedVirtualDoc) -> bool>(
        &mut self,
        host_uri: &str,
        goes: F,
        Ghost(go): Ghost<spec_fn(DocView) -> bool>,
        Ghost(stay): Ghost<spec_fn(DocView) -> bool>,
    ) -> (docs: Vec<OpenedVirtualDoc>)
        requires
            old(self).wf(),
            forall|doc: &OpenedVirtualDoc| call_requires(goes, (doc,)),
            forall|doc: &OpenedVirtualDoc, picked: bool|
                call_ensures(goes, (doc,), picked) ==> picked == go(doc@),
            forall|doc: DocView| #[trigger] stay(doc) == !go(doc),
        ensures
            final(self).wf(),
            doc_views(docs@) == docs_of(old(self)@.hosts, host_uri@).filter(go),
            final(self)@ == host_docs_split(old(self)@, host_uri@, go, stay),
    {
        proof {
            host_removal_stays_consistent(self@, host_uri@, go, stay);
        }
        let parts = match self.host_to_virtual.get(&host_uri.to_owned()) {
            Some(docs) => Some(Self::split_docs(docs, goes, Ghost(go), Ghost(stay))),
            None => None,
        };
        match parts {
            Some((gone, rest)) => {
                self.set_host_docs(host_uri, rest);
                self.remove_all_from_reverse_index(&gone);
                gone
            },
            None => {
                let none: Vec<OpenedVirtualDoc> = Vec::new();
                proof {
                    reveal(Seq::filter);
                    assert(doc_views(none@) =~= Seq::<DocView>::empty().filter(go));
                }
                none
            },
        }
    }

    /// Takes the virtual documents of a host document out that lie in one of the
    /// regions, and gives them in their order.
    pub fn remove_docs_in_regions(&mut self, host_uri: &str, regions: &Vec<String>) -> (docs: Vec<
        OpenedVirtualDoc,
    >)
        requires
            old(self).wf(),
        ensures
            final(self).wf(),
            doc_views(docs@) == docs_of(old(self)@.hosts, host_uri@).filter(
                in_regions(texts(regions@)),
            ),
            final(self)@ == host_docs_split(
                old(self)@,
                host_uri@,
                in_regions(texts(regions@)),
                outside_regions(texts(regions@)),
            ),
    {
        let ghost go = in_regions(texts(regions@));
        let ghost stay = outside_regions(texts(regions@));
        let goes = |doc: &OpenedVirtualDoc| -> (picked: bool)
            ensures
                picked == go(doc@),
            { holds_text(regions, doc.virtual_uri.region_id()) };
        self.remove_docs_where(host_uri, goes, Ghost(go), Ghost(stay))
    }

    /// Takes the virtual documents of a host document out whose region is
    /// expected in another language, and gives them in their order.
    pub fn remove_replaced_virtual_docs(
        &mut self,
        host_uri: &str,
        expected_languages: &Table<String, String>,
    ) -> (docs: Vec<OpenedVirtualDoc>)
        requires
            old(self).wf(),
            expected_languages.wf(),
        ensures
            final(self).wf(),
            doc_views(docs@) == docs_of(old(self)@.hosts, host_uri@).filter(
                is_replaced(expected_languages@),
            ),
            final(self)@ == host_docs_split(
                old(self)@,
                host_uri@,
                is_replaced(expected_languages@),
                not_replaced(expected_languages@),
            ),
    {
        let ghost go = is_replaced(expected_languages@);
        let ghost stay = not_replaced(expected_languages@);
        let goes = |doc: &OpenedVirtualDoc| -> (picked: bool)
            ensures
                picked == go(doc@),
            {
                match expected_languages.get(&doc.virtual_uri.region_id().to_owned()) {
                    Some(language) => !same_text(language.as_str(), doc.virtual_uri.language()),
                    None => false,
                }
            };
        self.remove_docs_where(host_uri, goes, Ghost(go), Ghost(stay))
    }

    /// The regions that a list of ULIDs names.
    pub fn regions_of(ulids: &[u128]) -> (regions: Vec<String>)
        ensures
            texts(regions@) == ulids@.map_values(|ulid: u128| ulid_text(ulid)),
    {
        let mut regions: Vec<String> = Vec::new();
        let mut i: usize = 0;
        while i < ulids.len()
            invariant
                i <= ulids@.len(),
                regions@.len() == i,
                forall|j: int| 0 <= j < i ==> (#[trigger] regions@[j])@ == ulid_text(ulids@[j]),
            decreases ulids@.len() - i,
        {
            regions.push(ulid_string(ulids[i]));
            i += 1;
        }
        assert(texts(regions@) =~= ulids@.map_values(|ulid: u128| ulid_text(ulid)));
        regions
    }

    /// Takes the virtual documents of a host document out whose region one of the
    /// ULIDs names, and gives them in their order.
    pub fn remove_matching_virtual_docs(&mut self, host_uri: &str, invalidated_ulids: &[u128]) -> (docs:
        Vec<OpenedVirtualDoc>)
        requires
            old(self).wf(),
        ensures
            final(self).wf(),
            ({
                let regions = invalidated_ulids@.map_values(|ulid: u128| ulid_text(ulid));
                &&& doc_views(docs@) == docs_of(old(self)@.hosts, host_uri@).filter(
                    in_regions(regions),
                )
                &&& final(self)@ == host_docs_split(
                    old(self)@,
                    host_uri@,
                    in_regions(regions),
                    outside_regions(regions),
                )
            }),
    {
        let regions = Self::regions_of(invalidated_ulids);
        self.remove_docs_in_regions(host_uri, &regions)
    }

    /// The connections that a virtual document is open on, in the order in which
    /// they opened it.
    pub fn get_all_connections_for_virtual_uri(&self, virtual_uri: &VirtualDocumentUri) -> (keys:
        Vec<ConnectionKey>)
        requires
            self.wf(),
        ensures
            key_views(keys@) == servers_of(self@.servers, virtual_uri@.uri),
    {
        match self.virtual_to_servers.get(virtual_uri.uri()) {
            Some(keys) => copy_keys(keys),
            None => {
                let none: Vec<ConnectionKey> = Vec::new();
                assert(key_views(none@) =~= Seq::<KeyView>::empty());
                none
            },
        }
    }

    /// Whether the virtual document at an address is open on a connection.
    pub fn is_virtual_doc_open_on_connection(
        &self,
        virtual_uri: &str,
        connection_key: &ConnectionKey,
    ) -> (open: bool)
        requires
            self.wf(),
        ensures
            open == servers_of(self@.servers, virtual_uri@).contains(connection_key@),
    {
        match self.virtual_to_servers.get(virtual_uri) {
            Some(keys) => holds_key(keys, connection_key),
            None => false,
        }
    }

    /// The list of every host document without what was open on a connection.
    /// Host documents that are left with nothing are not listed.
    fn drop_from_hosts(&mut self, key: &ConnectionKey)
        requires
            old(self).parts_wf(),
        ensures
            final(self).parts_wf(),
            final(self)@ == (TrackerView { hosts: purged(old(self)@, key@).hosts, ..old(self)@ }),
    {
        let ghost before = self@.hosts;
        let ghost names = self.host_to_virtual.keys();
        let ghost target = purged(self@, key@).hosts;
        let ghost stay = on_other_connection(key@);
        let ghost go = |doc: DocView| doc.key == key@;
        let mut kept: Table<String, Vec<OpenedVirtualDoc>> = Table::new();
        let mut i: usize = 0;
        proof {
            self.host_to_virtual.lemma_keys();
        }
        while i < self.host_to_virtual.len()
            invariant
                self.parts_wf(),
                *self == *old(self),
                kept.wf(),
                names == self.host_to_virtual.keys(),
                names.no_duplicates(),
                i <= names.len(),
                before == self@.hosts,
                target == purged(self@, key@).hosts,
                stay == on_other_connection(key@),
                go == (|doc: DocView| doc.key == key@),
                forall|host: Seq<char>| #[trigger]
                    kept@.contains_key(host) <==> target.contains_key(host) && names.take(
                        i as int,
                    ).contains(host),
                forall|host: Seq<char>| #[trigger]
                    kept@.contains_key(host) ==> doc_views(kept@[host]@) == target[host],
            decreases names.len() - i,
        {
            let ghost host = names[i as int];
            proof {
                self.host_to_virtual.lemma_keys();
                lemma_take_contains(names, i as int);
                assert(before.contains_key(host));
            }
            let goes = |doc: &OpenedVirtualDoc| -> (picked: bool)
                ensures
                    picked == go(doc@),
                { doc.connection_key.same(key) };
            let (_, rest) = Self::split_docs(
                self.host_to_virtual.value_at(i),
                goes,
                Ghost(go),
                Ghost(stay),
            );
            assert(doc_views(rest@) == before[host].filter(stay));
            if rest.len() > 0 {
                kept.insert(self.host_to_virtual.key_at(i).clone(), rest);
            }
            i += 1;
        }
        proof {
            assert(names.take(names.len() as int) =~= names);
            self.host_to_virtual.lemma_keys();
        }
        self.host_to_virtual = kept;
        assert(self@.hosts =~= target) by {
            assert forall|host: Seq<char>| self@.hosts.contains_key(host) == target.contains_key(
                host,
            ) by {
                if target.contains_key(host) {
                    assert(before.contains_key(host));
                    assert(names.contains(host));
                }
                assert(kept@.contains_key(host) <==> target.contains_key(host) && names.contains(
                    host,
                ));
            }
        }
    }

    /// Forgets everything that one connection held. Other connections keep what
    /// they hold, even of the same documents.
    pub fn purge_connection(&mut self, connection_key: &ConnectionKey)
        requires
            old(self).wf(),
        ensures
            final(self).wf(),
            final(self)@ == purged(old(self)@, connection_key@),
    {
        let ghost before = self@;
        let ghost key = connection_key@;
        proof {
            purging_stays_consistent(before, key);
        }
        let removed = self.document_versions.remove(connection_key);
        assert(self@.versions =~= before.versions.remove(key));
        match removed {
            Some(docs) => {
                let ghost uris = docs.keys();
                let mut i: usize = 0;
                proof {
                    docs.lemma_keys();
                    assert(uris.take(0) =~= Seq::<Seq<char>>::empty());
                    lemma_partly_purged_start(before, key);
                }
                while i < docs.len()
                    invariant
                        self.parts_wf(),
                        docs.wf(),
                        uris == docs.keys(),
                        uris.no_duplicates(),
                        i <= uris.len(),
                        key == connection_key@,
                        self@ == partly_purged(before, key, uris.take(i as int)),
                    decreases uris.len() - i,
                {
                    let uri = docs.key_at(i).clone();
                    proof {
                        assert(uris.take(i as int + 1) =~= uris.take(i as int).push(uri@));
                        assert(!uris.take(i as int).contains(uri@)) by {
                            let seen = uris.take(i as int);
                            if seen.contains(uri@) {
                                let j = choose|j: int| 0 <= j < seen.len() && seen[j] == uri@;
                                assert(uris[j] == uris[i as int]);
                            }
                        }
                        lemma_partly_purged_step(before, key, uris.take(i as int), uri@);
                    }
                    self.decrement_opened(uri.as_str());
                    self.remove_from_reverse_index(uri.as_str(), connection_key);
                    i += 1;
                }
                proof {
                    docs.lemma_keys();
                    assert(uris.take(uris.len() as int) =~= uris);
                    lemma_partly_purged_end(before, key, uris);
                }
            },
            None => {
                proof {
                    lemma_partly_purged_start(before, key);
                    lemma_partly_purged_end(before, key, Seq::empty());
                }
            },
        }
        self.drop_from_hosts(connection_key);
        assert(self@ =~= purged(before, key));
    }

    /// The host document and the region of the virtual document at an address,
    /// where one is open.
    pub fn resolve_virtual_uri(&self, virtual_uri: &str) -> (found: Option<(String, String)>)
        requires
            self.wf(),
        ensures
            match found {
                Some((host, region)) => self@.hosts.contains_key(host@) && exists|i: int|
                    0 <= i < self@.hosts[host@].len() && (
                    #[trigger] self@.hosts[host@][i]).uri.uri == virtual_uri@
                        && self@.hosts[host@][i].uri.region_id == region@,
                None => forall|host: Seq<char>, i: int|
                    self@.hosts.contains_key(host) && 0 <= i < self@.hosts[host].len() ==> (
                    #[trigger] self@.hosts[host][i]).uri.uri != virtual_uri@,
            },
    {
        let ghost names = self.host_to_virtual.keys();
        let mut h: usize = 0;
        while h < self.host_to_virtual.len()
            invariant
                self.parts_wf(),
                names == self.host_to_virtual.keys(),
                h <= names.len(),
                forall|g: int, i: int|
                    0 <= g < h && 0 <= i < self@.hosts[names[g]].len() ==> (
                    #[trigger] self@.hosts[names[g]][i]).uri.uri != virtual_uri@,
            decreases names.len() - h,
        {
            proof {
                self.host_to_virtual.lemma_keys();
            }
            let ghost host = names[h as int];
            let docs = self.host_to_virtual.value_at(h);
            assert(self@.hosts.contains_key(host));
            assert(self@.hosts[host] == doc_views(docs@));
            let mut i: usize = 0;
            while i < docs.len()
                invariant
                    self.parts_wf(),
                    names == self.host_to_virtual.keys(),
                    h < names.len(),
                    host == names[h as int],
                    self@.hosts.contains_key(host),
                    self@.hosts[host] == doc_views(docs@),
                    i <= docs@.len(),
                    forall|j: int|
                        0 <= j < i ==> (#[trigger] self@.hosts[host][j]).uri.uri != virtual_uri@,
                decreases docs@.len() - i,
            {
                assert(self@.hosts[host][i as int] == docs@[i as int]@);
                if docs[i].virtual_uri.is_at(virtual_uri) {
                    let name = self.host_to_virtual.key_at(h).clone();
                    let region = docs[i].virtual_uri.region_id().to_owned();
                    assert(self@.hosts[name@][i as int].uri.region_id == region@);
                    return Some((name, region));
                }
                i += 1;
            }
            h += 1;
        }
        proof {
            self.host_to_virtual.lemma_keys();
            assert forall|host: Seq<char>, i: int|
                self@.hosts.contains_key(host) && 0 <= i < self@.hosts[host].len() implies (
            #[trigger] self@.hosts[host][i]).uri.uri != virtual_uri@ by {
                assert(names.contains(host));
                let g = choose|g: int| 0 <= g < names.len() && names[g] == host;
                assert(self@.hosts[names[g]][i].uri.uri != virtual_uri@);
            }
        }
        None
    }
}

/// An open document is its address, with language and region, on its connection, and
/// a list has the content of each of its entries.
pub proof fn documents_say_every_part(
    one: OpenedVirtualDoc,
    two: OpenedVirtualDoc,
    list: Seq<OpenedVirtualDoc>,
    i: int,
)
    ensures
        one@ == two@ <==> one.virtual_uri@ == two.virtual_uri@ && one.connection_key@
            == two.connection_key@,
        doc_views(list).len() == list.len(),
        0 <= i < list.len() ==> doc_views(list)[i] == list[i]@,
{
}

} // verus!
