//! The identity of one pooled connection: a server name and the root that the
//! server was started for.

use crate::table::TableKey;
use crate::text::same_text;
use vstd::prelude::*;

verus! {

/// Which root a connection serves.
#[derive(Debug, PartialEq, Eq, Hash)]
pub enum ConnectionRoot {
    /// The workspace root that a root marker was found in.
    Marker(String),
    /// The root that the editor announced, for documents without a marker.
    ClientFallback,
    /// One instance for all roots.
    Shared,
}

/// The identity of a pooled connection.
#[derive(Debug, PartialEq, Eq, Hash)]
pub struct ConnectionKey {
    server: String,
    root: ConnectionRoot,
}

/// The mathematical content of a [`ConnectionRoot`].
pub enum RootView {
    Marker(Seq<char>),
    ClientFallback,
    Shared,
}

/// The mathematical content of a [`ConnectionKey`].
pub struct KeyView {
    pub server: Seq<char>,
    pub root: RootView,
}

impl View for ConnectionRoot {
    type V = RootView;

    open spec fn view(&self) -> RootView {
        match *self {
            ConnectionRoot::Marker(root) => RootView::Marker(root@),
            ConnectionRoot::ClientFallback => RootView::ClientFallback,
            ConnectionRoot::Shared => RootView::Shared,
        }
    }
}

impl View for ConnectionKey {
    type V = KeyView;

    closed spec fn view(&self) -> KeyView {
        KeyView { server: self.server@, root: self.root@ }
    }
}

impl ConnectionRoot {
    fn same(&self, other: &Self) -> (same: bool)
        ensures
            same == (self@ == other@),
    {
        match (self, other) {
            (ConnectionRoot::Marker(mine), ConnectionRoot::Marker(theirs)) => same_text(
                mine.as_str(),
                theirs.as_str(),
            ),
            (ConnectionRoot::ClientFallback, ConnectionRoot::ClientFallback) => true,
            (ConnectionRoot::Shared, ConnectionRoot::Shared) => true,
            _ => false,
        }
    }
}

impl Clone for ConnectionRoot {
    fn clone(&self) -> (copy: Self)
        ensures
            copy@ == self@,
    {
        match self {
            ConnectionRoot::Marker(root) => ConnectionRoot::Marker(root.clone()),
            ConnectionRoot::ClientFallback => ConnectionRoot::ClientFallback,
            ConnectionRoot::Shared => ConnectionRoot::Shared,
        }
    }
}

impl Clone for ConnectionKey {
    fn clone(&self) -> (copy: Self)
        ensures
            copy@ == self@,
    {
        ConnectionKey { server: self.server.clone(), root: self.root.clone() }
    }
}

impl TableKey for ConnectionKey {
    fn same(&self, other: &Self) -> (same: bool) {
        same_text(self.server.as_str(), other.server.as_str()) && self.root.same(&other.root)
    }

    fn duplicate(&self) -> (copy: Self) {
        self.clone()
    }
}

impl KeyView {
    /// The text under which a key is shown to people.
    pub open spec fn shown(self) -> Seq<char> {
        match self.root {
            RootView::Marker(root) => self.server + "@"@ + root,
            RootView::ClientFallback => self.server,
            RootView::Shared => self.server + "#shared"@,
        }
    }
}

/// The key of `server` for the editor's own root.
pub open spec fn fallback_key(server: Seq<char>) -> KeyView {
    KeyView { server, root: RootView::ClientFallback }
}

/// The key of the one instance of `server` that serves all roots.
pub open spec fn shared_key(server: Seq<char>) -> KeyView {
    KeyView { server, root: RootView::Shared }
}

/// The key of `server` for the marker root `root`.
pub open spec fn marker_key(server: Seq<char>, root: Seq<char>) -> KeyView {
    KeyView { server, root: RootView::Marker(root) }
}

impl ConnectionKey {
    /// The key of `server` for the marker root `root`, or for the editor's own
    /// root when no marker was found.
    pub fn new(server: &str, root: Option<String>) -> (key: ConnectionKey)
        ensures
            key@ == (match root {
                Some(root) => marker_key(server@, root@),
                None => fallback_key(server@),
            }),
    {
        let root = match root {
            Some(root) => ConnectionRoot::Marker(root),
            None => ConnectionRoot::ClientFallback,
        };
        ConnectionKey { server: server.to_owned(), root }
    }

    /// The key of the one instance of `server` that serves every root.
    pub fn shared(server: &str) -> (key: ConnectionKey)
        ensures
            key@ == shared_key(server@),
    {
        ConnectionKey { server: server.to_owned(), root: ConnectionRoot::Shared }
    }

    /// The key of `server` for documents that have no marker root.
    pub fn for_server(server: &str) -> (key: ConnectionKey)
        ensures
            key@ == fallback_key(server@),
    {
        ConnectionKey::new(server, None)
    }

    /// Whether this is a shared-instance key.
    pub fn is_shared(&self) -> (shared: bool)
        ensures
            shared == (self@.root is Shared),
    {
        matches!(self.root, ConnectionRoot::Shared)
    }

    /// Whether this key stands for the editor's own root.
    pub fn is_client_fallback(&self) -> (fallback: bool)
        ensures
            fallback == (self@.root is ClientFallback),
    {
        matches!(self.root, ConnectionRoot::ClientFallback)
    }

    /// The server's name.
    pub fn server(&self) -> (server: &str)
        ensures
            server@ == self@.server,
    {
        self.server.as_str()
    }

    /// The marker root, where the key has one.
    pub fn marker_root(&self) -> (root: Option<&str>)
        ensures
            match self@.root {
                RootView::Marker(text) => root is Some && root->0@ == text,
                _ => root is None,
            },
    {
        match &self.root {
            ConnectionRoot::Marker(root) => Some(root.as_str()),
            _ => None,
        }
    }

    /// Writes the key as people read it: `server@root`, `server`, or
    /// `server#shared`.
    pub fn to_string(&self) -> (shown: String)
        ensures
            shown@ == self@.shown(),
    {
        let server = self.server.clone();
        match &self.root {
            ConnectionRoot::Marker(root) => server.concat("@").concat(root.as_str()),
            ConnectionRoot::ClientFallback => server,
            ConnectionRoot::Shared => server.concat("#shared"),
        }
    }
}

/// The three kinds of key of one server never stand for the same connection,
/// and neither do the keys of two marker roots.
pub proof fn roots_keep_connections_apart(
    server: Seq<char>,
    other: Seq<char>,
    one: Seq<char>,
    two: Seq<char>,
)
    ensures
        shared_key(server) != fallback_key(other),
        shared_key(server) != marker_key(other, one),
        fallback_key(server) != marker_key(other, one),
        one != two ==> marker_key(server, one) != marker_key(server, two),
        server != other ==> shared_key(server) != shared_key(other),
        server != other ==> fallback_key(server) != fallback_key(other),
        server != other ==> marker_key(server, one) != marker_key(other, two),
{
}

/// Holds of every key but one.
pub open spec fn other_than(key: KeyView) -> spec_fn(KeyView) -> bool {
    |other: KeyView| other != key
}

/// What a list of keys says.
pub open spec fn key_views(list: Seq<ConnectionKey>) -> Seq<KeyView> {
    list.map_values(|key: ConnectionKey| key@)
}

/// What a list says after one more key.
pub broadcast proof fn lemma_key_views_push(list: Seq<ConnectionKey>, key: ConnectionKey)
    ensures
        #[trigger] key_views(list.push(key)) == key_views(list).push(key@),
{
    assert(key_views(list.push(key)) =~= key_views(list).push(key@));
}

/// Whether a list of keys holds a key.
pub fn holds_key(list: &Vec<ConnectionKey>, key: &ConnectionKey) -> (held: bool)
    ensures
        held == key_views(list@).contains(key@),
{
    let mut i: usize = 0;
    while i < list.len()
        invariant
            i <= list@.len(),
            forall|j: int| 0 <= j < i ==> (#[trigger] list@[j])@ != key@,
        decreases list@.len() - i,
    {
        if list[i].same(key) {
            assert(key_views(list@)[i as int] == key@);
            return true;
        }
        i += 1;
    }
    assert forall|j: int| 0 <= j < key_views(list@).len() implies key_views(list@)[j] != key@ by {
        assert(list@[j]@ != key@);
    }
    false
}

/// The keys of a list that are not the given one, in their order.
pub fn without_key(list: &Vec<ConnectionKey>, key: &ConnectionKey) -> (rest: Vec<ConnectionKey>)
    ensures
        key_views(rest@) == key_views(list@).filter(other_than(key@)),
{
    let ghost apart = other_than(key@);
    let mut rest: Vec<ConnectionKey> = Vec::new();
    let mut i: usize = 0;
    assert(key_views(list@).take(0) =~= Seq::<KeyView>::empty());
    assert(key_views(rest@) =~= Seq::<KeyView>::empty().filter(apart)) by {
        reveal(Seq::filter);
    }
    while i < list.len()
        invariant
            i <= list@.len(),
            apart == other_than(key@),
            key_views(rest@) == key_views(list@).take(i as int).filter(apart),
        decreases list@.len() - i,
    {
        proof {
            let seen = key_views(list@).take(i as int);
            assert(key_views(list@).take(i as int + 1) =~= seen.push(list@[i as int]@));
            seen.lemma_filter_push(list@[i as int]@, apart);
        }
        if !list[i].same(key) {
            let kept = list[i].clone();
            proof {
                lemma_key_views_push(rest@, kept);
            }
            rest.push(kept);
        }
        i += 1;
    }
    assert(key_views(list@).take(list@.len() as int) =~= key_views(list@));
    rest
}

/// A second list that says the same.
pub fn copy_keys(list: &Vec<ConnectionKey>) -> (copy: Vec<ConnectionKey>)
    ensures
        key_views(copy@) == key_views(list@),
{
    let mut copy: Vec<ConnectionKey> = Vec::new();
    let mut i: usize = 0;
    while i < list.len()
        invariant
            i <= list@.len(),
            copy@.len() == i,
            forall|j: int| 0 <= j < i ==> (#[trigger] copy@[j])@ == list@[j]@,
        decreases list@.len() - i,
    {
        copy.push(list[i].clone());
        i += 1;
    }
    assert(key_views(copy@) =~= key_views(list@));
    copy
}

/// A key names its server and nothing but its root: the marker root that it was
/// made for, the editor's own root, or all roots.
pub proof fn keys_say_what_they_are_for(server: Seq<char>, root: Seq<char>)
    ensures
        marker_key(server, root).server == server && marker_key(server, root).root
            == RootView::Marker(root),
        fallback_key(server).server == server && fallback_key(server).root is ClientFallback,
        shared_key(server).server == server && shared_key(server).root is Shared,
        marker_key(server, root).shown().len() == server.len() + 1 + root.len(),
        marker_key(server, root).shown().take(server.len() as int) == server,
        marker_key(server, root).shown().skip(1 + server.len() as int) == root,
        fallback_key(server).shown() == server,
        shared_key(server).shown().take(server.len() as int) == server,
        shared_key(server).shown() != server,
{
    reveal_strlit("@");
    reveal_strlit("#shared");
    assert(marker_key(server, root).shown().take(server.len() as int) =~= server);
    assert(marker_key(server, root).shown().skip(1 + server.len() as int) =~= root);
    assert(shared_key(server).shown().take(server.len() as int) =~= server);
    assert(shared_key(server).shown().len() != server.len());
}

/// A list of keys has the content of each of its entries.
pub proof fn key_lists_say_every_entry(list: Seq<ConnectionKey>, i: int)
    ensures
        key_views(list).len() == list.len(),
        0 <= i < list.len() ==> key_views(list)[i] == list[i]@,
{
}

} // verus!
