//! Host documents that are kept in step with servers of their own.

use crate::connection_key::ConnectionKey;
use crate::document_place::{drop_connection, off_connection, DocumentPlace, PlaceView};
use crate::table::Table;
use crate::text::same_text;
use vstd::prelude::*;

verus! {

/// How far a server was kept in step with a host document.
#[derive(Clone, Copy, Debug, PartialEq, Eq, Structural)]
pub struct HostDocSyncState {
    pub version: i32,
    pub fingerprint: u64,
}

/// Whether some connection of a server was told of a host document.
pub open spec fn known_to(
    documents: Map<PlaceView, HostDocSyncState>,
    uri: Seq<char>,
    server: Seq<char>,
) -> bool {
    exists|place: PlaceView| #[trigger]
        documents.contains_key(place) && place.uri == uri && place.key.server == server
}

/// Whether some connection of a server was told of a host document in a version.
pub open spec fn known_in_version(
    documents: Map<PlaceView, HostDocSyncState>,
    uri: Seq<char>,
    server: Seq<char>,
    version: i32,
) -> bool {
    exists|place: PlaceView| #[trigger]
        documents.contains_key(place) && place.uri == uri && place.key.server == server
            && documents[place].version == version
}

/// Which host documents which connections were told of.
pub struct HostDocuments {
    documents: Table<DocumentPlace, HostDocSyncState>,
}

impl View for HostDocuments {
    type V = Map<PlaceView, HostDocSyncState>;

    closed spec fn view(&self) -> Map<PlaceView, HostDocSyncState> {
        self.documents@
    }
}

impl HostDocuments {
    /// The table is in order.
    pub closed spec fn wf(self) -> bool {
        self.documents.wf()
    }

    /// No connection was told of anything.
    pub fn new() -> (documents: Self)
        ensures
            documents.wf(),
            (documents@ == Map::<PlaceView, HostDocSyncState>::empty()),
    {
        HostDocuments { documents: Table::new() }
    }

    /// Notes how far a connection was kept in step with a host document.
    pub fn record(&mut self, host_uri: &str, key: &ConnectionKey, state: HostDocSyncState)
        requires
            old(self).wf(),
        ensures
            final(self).wf(),
            final(self)@ == old(self)@.insert(PlaceView { uri: host_uri@, key: key@ }, state),
    {
        self.documents.insert(DocumentPlace::new(host_uri, key), state);
    }

    /// Forgets what one connection was told of.
    pub fn purge_connection(&mut self, key: &ConnectionKey)
        requires
            old(self).wf(),
        ensures
            final(self).wf(),
            final(self)@ == off_connection(old(self)@, key@),
    {
        drop_connection(&mut self.documents, key);
    }

    fn position(&self, host_uri: &str, server_name: &str) -> (found: Option<usize>)
        requires
            self.wf(),
        ensures
            match found {
                Some(i) => i < self.documents.keys().len() && self.documents.keys()[i as int].uri
                    == host_uri@ && self.documents.keys()[i as int].key.server == server_name@,
                None => !known_to(self@, host_uri@, server_name@),
            },
    {
        let mut i: usize = 0;
        while i < self.documents.len()
            invariant
                self.wf(),
                i <= self.documents.keys().len(),
                forall|j: int|
                    0 <= j < i ==> !((#[trigger] self.documents.keys()[j]).uri == host_uri@
                        && self.documents.keys()[j].key.server == server_name@),
            decreases self.documents.keys().len() - i,
        {
            let place = self.documents.key_at(i);
            if same_text(place.uri.as_str(), host_uri) && same_text(
                place.key.server(),
                server_name,
            ) {
                return Some(i);
            }
            i += 1;
        }
        proof {
            self.documents.lemma_keys();
            if known_to(self@, host_uri@, server_name@) {
                let place = choose|place: PlaceView| #[trigger]
                    self@.contains_key(place) && place.uri == host_uri@ && place.key.server
                        == server_name@;
                assert(self.documents.keys().contains(place));
                let j = choose|j: int|
                    0 <= j < self.documents.keys().len() && self.documents.keys()[j] == place;
                assert(self.documents.keys()[j].uri == host_uri@);
            }
        }
        None
    }

    /// Whether some connection of a server was told of a host document.
    pub fn is_host_document_opened(&self, host_uri: &str, server_name: &str) -> (opened: bool)
        requires
            self.wf(),
        ensures
            opened == known_to(self@, host_uri@, server_name@),
    {
        match self.position(host_uri, server_name) {
            Some(i) => {
                proof {
                    self.documents.lemma_keys();
                    assert(self@.contains_key(self.documents.keys()[i as int]));
                }
                true
            },
            None => false,
        }
    }

    /// The version of a host document that a connection of a server was told of
    /// last.
    pub fn host_document_version(&self, host_uri: &str, server_name: &str) -> (version: Option<i32>)
        requires
            self.wf(),
        ensures
            match version {
                Some(version) => known_in_version(self@, host_uri@, server_name@, version),
                None => !known_to(self@, host_uri@, server_name@),
            },
    {
        match self.position(host_uri, server_name) {
            Some(i) => {
                proof {
                    self.documents.lemma_keys();
                    assert(self@.contains_key(self.documents.keys()[i as int]));
                }
                Some(self.documents.value_at(i).version)
            },
            None => None,
        }
    }
}

/// A host document is known to a server exactly while one of the server's
/// connections was told of it, and in a version that this connection was told. What
/// is noted for another document or server plays no part.
pub proof fn told_documents_are_known(
    documents: Map<PlaceView, HostDocSyncState>,
    place: PlaceView,
    state: HostDocSyncState,
    uri: Seq<char>,
    server: Seq<char>,
    version: i32,
)
    ensures
        known_to(documents.insert(place, state), place.uri, place.key.server),
        known_in_version(
            documents.insert(place, state),
            place.uri,
            place.key.server,
            state.version,
        ),
        uri != place.uri || server != place.key.server ==> known_to(
            documents.insert(place, state),
            uri,
            server,
        ) == known_to(documents, uri, server) && known_in_version(
            documents.insert(place, state),
            uri,
            server,
            version,
        ) == known_in_version(documents, uri, server, version),
        known_in_version(documents, uri, server, version) ==> known_to(documents, uri, server),
        (forall|p: PlaceView| #[trigger]
            documents.contains_key(p) ==> p.uri != uri || p.key.server != server) ==> !known_to(
            documents,
            uri,
            server,
        ),
{
    let after = documents.insert(place, state);
    assert(after.contains_key(place));
    if uri != place.uri || server != place.key.server {
        if known_to(documents, uri, server) {
            let p = choose|p: PlaceView| #[trigger]
                documents.contains_key(p) && p.uri == uri && p.key.server == server;
            assert(after.contains_key(p));
        }
        if known_to(after, uri, server) {
            let p = choose|p: PlaceView| #[trigger]
                after.contains_key(p) && p.uri == uri && p.key.server == server;
            assert(documents.contains_key(p));
        }
        if known_in_version(documents, uri, server, version) {
            let p = choose|p: PlaceView| #[trigger]
                documents.contains_key(p) && p.uri == uri && p.key.server == server
                    && documents[p].version == version;
            assert(after.contains_key(p));
        }
        if known_in_version(after, uri, server, version) {
            let p = choose|p: PlaceView| #[trigger]
                after.contains_key(p) && p.uri == uri && p.key.server == server && after[p].version
                    == version;
            assert(documents.contains_key(p));
        }
    }
    if known_in_version(documents, uri, server, version) {
        let p = choose|p: PlaceView| #[trigger]
            documents.contains_key(p) && p.uri == uri && p.key.server == server
                && documents[p].version == version;
        assert(documents.contains_key(p));
    }
}

} // verus!
