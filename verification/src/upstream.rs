//! Requests of the editor, and on which connections they are being worked on.

use crate::connection_key::{key_views, ConnectionKey, KeyView};
use crate::table::{Table, TableKey};
use crate::text::same_text;
use vstd::prelude::*;

verus! {

/// The number or the text by which the editor names a request.
#[derive(Debug, PartialEq, Eq, Hash)]
pub enum UpstreamId {
    Number(i64),
    String(String),
}

/// The mathematical content of an [`UpstreamId`].
pub enum UpstreamView {
    Number(i64),
    Text(Seq<char>),
}

impl View for UpstreamId {
    type V = UpstreamView;

    open spec fn view(&self) -> UpstreamView {
        match *self {
            UpstreamId::Number(number) => UpstreamView::Number(number),
            UpstreamId::String(text) => UpstreamView::Text(text@),
        }
    }
}

impl Clone for UpstreamId {
    fn clone(&self) -> (copy: Self)
        ensures
            copy@ == self@,
    {
        match self {
            UpstreamId::Number(number) => UpstreamId::Number(*number),
            UpstreamId::String(text) => UpstreamId::String(text.clone()),
        }
    }
}

impl TableKey for UpstreamId {
    fn same(&self, other: &Self) -> (same: bool) {
        match (self, other) {
            (UpstreamId::Number(mine), UpstreamId::Number(theirs)) => *mine == *theirs,
            (UpstreamId::String(mine), UpstreamId::String(theirs)) => same_text(
                mine.as_str(),
                theirs.as_str(),
            ),
            _ => false,
        }
    }

    fn duplicate(&self) -> (copy: Self) {
        self.clone()
    }
}

/// A decimal digit.
pub open spec fn digit(n: int) -> char {
    "0123456789"@[n]
}

/// A number in decimal digits.
pub open spec fn decimal(n: nat) -> Seq<char>
    decreases n,
{
    if n < 10 {
        seq![digit(n as int)]
    } else {
        decimal(n / 10).push(digit((n % 10) as int))
    }
}

/// A number in decimal digits, with a sign where it is negative.
pub open spec fn signed_decimal(n: int) -> Seq<char> {
    if n < 0 {
        seq!['-'] + decimal((-n) as nat)
    } else {
        decimal(n as nat)
    }
}

impl UpstreamView {
    /// How a request is named to people: a text stands between quotes.
    pub open spec fn shown(self) -> Seq<char> {
        match self {
            UpstreamView::Number(number) => signed_decimal(number as int),
            UpstreamView::Text(text) => seq!['"'] + text + seq!['"'],
        }
    }
}

fn digit_char(n: u64) -> (c: char)
    requires
        n < 10,
    ensures
        c == digit(n as int),
{
    proof {
        reveal_strlit("0123456789");
    }
    match n {
        0 => '0',
        1 => '1',
        2 => '2',
        3 => '3',
        4 => '4',
        5 => '5',
        6 => '6',
        7 => '7',
        8 => '8',
        _ => '9',
    }
}

fn push_decimal(text: &mut String, n: u64)
    ensures
        final(text)@ == old(text)@ + decimal(n as nat),
    decreases n,
{
    let ghost before = text@;
    if n >= 10 {
        push_decimal(text, n / 10);
        assert((n / 10) as nat == (n as nat) / 10);
    }
    let last: u64 = n % 10;
    text.push(digit_char(last));
    assert(text@ =~= before + decimal(n as nat));
}

impl UpstreamId {
    /// The request that the editor names by a number.
    pub fn from_number(number: i64) -> (id: Self)
        ensures
            id@ == UpstreamView::Number(number),
    {
        UpstreamId::Number(number)
    }

    /// The request that the editor names by a text.
    pub fn from_text(text: &str) -> (id: Self)
        ensures
            id@ == UpstreamView::Text(text@),
    {
        UpstreamId::String(text.to_owned())
    }

    /// How the request is named to people.
    pub fn to_string(&self) -> (shown: String)
        ensures
            shown@ == self@.shown(),
    {
        let mut shown = String::new();
        match self {
            UpstreamId::Number(number) => {
                let number: i64 = *number;
                if number < 0 {
                    shown.push('-');
                    let rest: i64 = -(number + 1);
                    let magnitude: u64 = rest as u64 + 1;
                    push_decimal(&mut shown, magnitude);
                    assert(shown@ =~= seq!['-'] + decimal(magnitude as nat));
                } else {
                    push_decimal(&mut shown, number as u64);
                    assert(shown@ =~= decimal(number as nat));
                }
            },
            UpstreamId::String(text) => {
                shown.push('"');
                shown.append(text.as_str());
                shown.push('"');
                assert(shown@ =~= seq!['"'] + text@ + seq!['"']);
            },
        }
        shown
    }
}

/// One more request, as far as one can count.
pub open spec fn counted_up(count: usize) -> usize {
    if count < usize::MAX {
        (count + 1) as usize
    } else {
        count
    }
}

/// How many requests of a name are being worked on, by connection.
pub open spec fn requests_of(
    requests: Map<UpstreamView, Map<KeyView, usize>>,
    id: UpstreamView,
) -> Map<KeyView, usize> {
    if requests.contains_key(id) {
        requests[id]
    } else {
        Map::empty()
    }
}

/// How many requests of a name are being worked on, on one connection.
pub open spec fn request_count(
    requests: Map<UpstreamView, Map<KeyView, usize>>,
    id: UpstreamView,
    key: KeyView,
) -> usize {
    if requests_of(requests, id).contains_key(key) {
        requests_of(requests, id)[key]
    } else {
        0
    }
}

/// The requests with one more of a name on a connection.
pub open spec fn request_added(
    requests: Map<UpstreamView, Map<KeyView, usize>>,
    id: UpstreamView,
    key: KeyView,
) -> Map<UpstreamView, Map<KeyView, usize>> {
    requests.insert(
        id,
        requests_of(requests, id).insert(key, counted_up(request_count(requests, id, key))),
    )
}

/// The requests with one less of a name on a connection. A connection with none
/// left goes, and a name with no connection left.
pub open spec fn request_taken(
    requests: Map<UpstreamView, Map<KeyView, usize>>,
    id: UpstreamView,
    key: KeyView,
) -> Map<UpstreamView, Map<KeyView, usize>> {
    let count = request_count(requests, id, key);
    let left = if count <= 1 {
        requests_of(requests, id).remove(key)
    } else {
        requests_of(requests, id).insert(key, (count - 1) as usize)
    };
    if left =~= Map::empty() {
        requests.remove(id)
    } else {
        requests.insert(id, left)
    }
}

/// No name is kept without a connection, and no connection without a request.
pub open spec fn requests_are_live(requests: Map<UpstreamView, Map<KeyView, usize>>) -> bool {
    forall|id: UpstreamView| #[trigger]
        requests.contains_key(id) ==> !(requests[id] =~= Map::empty()) && (forall|key: KeyView|
         #[trigger]
            requests[id].contains_key(key) ==> requests[id][key] > 0)
}

/// On which connections the editor's requests are being worked on.
pub struct UpstreamRequestRegistry {
    requests: Table<UpstreamId, Table<ConnectionKey, usize>>,
}

impl View for UpstreamRequestRegistry {
    type V = Map<UpstreamView, Map<KeyView, usize>>;

    closed spec fn view(&self) -> Map<UpstreamView, Map<KeyView, usize>> {
        self.requests@.map_values(|counts: Table<ConnectionKey, usize>| counts@)
    }
}

impl UpstreamRequestRegistry {
    /// The tables are in order and hold nothing that is over.
    pub closed spec fn wf(self) -> bool {
        &&& self.requests.wf()
        &&& forall|id: UpstreamView| #[trigger]
            self.requests@.contains_key(id) ==> self.requests@[id].wf()
        &&& requests_are_live(self@)
    }

    /// What is kept is live.
    pub proof fn lemma_live(self)
        requires
            self.wf(),
        ensures
            requests_are_live(self@),
    {
    }

    /// No request is being worked on.
    pub fn new() -> (registry: Self)
        ensures
            registry.wf(),
            (registry@ == Map::<UpstreamView, Map<KeyView, usize>>::empty()),
    {
        let registry = UpstreamRequestRegistry { requests: Table::new() };
        assert(registry@ =~= Map::<UpstreamView, Map<KeyView, usize>>::empty());
        registry
    }

    /// Notes that a connection works on a request of the editor.
    pub fn register_upstream_request(&mut self, id: UpstreamId, key: &ConnectionKey)
        requires
            old(self).wf(),
        ensures
            final(self).wf(),
            final(self)@ == request_added(old(self)@, id@, key@),
    {
        let ghost before = self.requests@;
        let mut counts: Table<ConnectionKey, usize> = match self.requests.remove(&id) {
            Some(counts) => counts,
            None => Table::new(),
        };
        let count: usize = match counts.get(key) {
            Some(count) => *count,
            None => 0,
        };
        let count: usize = if count < usize::MAX {
            count + 1
        } else {
            count
        };
        counts.insert(key.clone(), count);
        let ghost inner = counts;
        let ghost id_view = id@;
        self.requests.insert(id, counts);
        proof {
            assert(requests_of(old(self)@, id_view) =~= (if before.contains_key(id_view) {
                before[id_view]@
            } else {
                Map::empty()
            }));
            assert(self@ =~= request_added(old(self)@, id_view, key@));
            assert(inner@.contains_key(key@));
            assert forall|other: UpstreamView| #[trigger]
                self.requests@.contains_key(other) implies self.requests@[other].wf() by {
                if other != id_view {
                    assert(before.contains_key(other));
                }
            }
            assert(requests_are_live(self@)) by {
                assert forall|other: UpstreamView| #[trigger] self@.contains_key(other) implies !(
                self@[other] =~= Map::empty()) && (forall|k: KeyView| #[trigger]
                    self@[other].contains_key(k) ==> self@[other][k] > 0) by {
                    if other != id_view {
                        assert(old(self)@.contains_key(other));
                    } else {
                        if before.contains_key(id_view) {
                            assert(old(self)@.contains_key(id_view));
                        }
                    }
                }
            }
        }
    }

    /// Notes that a connection is done with a request of the editor. The name
    /// stays with the connection while other requests of that name are under way
    /// on it.
    pub fn unregister_upstream_request(&mut self, id: &UpstreamId, key: &ConnectionKey)
        requires
            old(self).wf(),
        ensures
            final(self).wf(),
            final(self)@ == request_taken(old(self)@, id@, key@),
    {
        let ghost before = self.requests@;
        let mut counts: Table<ConnectionKey, usize> = match self.requests.remove(id) {
            Some(counts) => counts,
            None => {
                proof {
                    assert(requests_of(old(self)@, id@) =~= Map::<KeyView, usize>::empty());
                    assert(requests_of(old(self)@, id@).remove(key@) =~= Map::<
                        KeyView,
                        usize,
                    >::empty());
                    assert(self@ =~= request_taken(old(self)@, id@, key@));
                    assert(self@ =~= old(self)@);
                    assert(self.requests@ =~= before);
                }
                return ;
            },
        };
        let ghost held = counts@;
        assert(old(self)@.contains_key(id@));
        assert(requests_of(old(self)@, id@) == held);
        let count: usize = match counts.get(key) {
            Some(count) => *count,
            None => 0,
        };
        if count <= 1 {
            counts.remove(key);
        } else {
            counts.insert(key.clone(), count - 1);
        }
        let ghost left = counts@;
        let ghost inner = counts;
        proof {
            counts.lemma_keys();
            counts.lemma_len();
            if counts.keys().len() == 0 {
                assert(left.dom() =~= Set::empty());
                assert(left =~= Map::<KeyView, usize>::empty());
            } else {
                assert(left.contains_key(counts.keys()[0]));
            }
        }
        if counts.len() > 0 {
            self.requests.insert(id.clone(), counts);
        }
        proof {
            if left =~= Map::<KeyView, usize>::empty() {
                assert(self.requests@ =~= before.remove(id@));
            } else {
                assert(self.requests@ =~= before.insert(id@, inner));
            }
            assert(self@ =~= request_taken(old(self)@, id@, key@));
            assert forall|other: UpstreamView| #[trigger]
                self.requests@.contains_key(other) implies self.requests@[other].wf() by {
                if other != id@ {
                    assert(before.contains_key(other));
                }
            }
            assert(requests_are_live(self@)) by {
                assert forall|other: UpstreamView| #[trigger] self@.contains_key(other) implies !(
                self@[other] =~= Map::empty()) && (forall|k: KeyView| #[trigger]
                    self@[other].contains_key(k) ==> self@[other][k] > 0) by {
                    assert(old(self)@.contains_key(other));
                }
            }
        }
    }

    /// Forgets a request of the editor on all connections.
    pub fn unregister_all_for_upstream_id(&mut self, id: Option<&UpstreamId>)
        requires
            old(self).wf(),
        ensures
            final(self).wf(),
            final(self)@ == (match id {
                Some(id) => old(self)@.remove(id@),
                None => old(self)@,
            }),
    {
        let ghost before = self.requests@;
        if let Some(id) = id {
            self.requests.remove(id);
            assert(self@ =~= old(self)@.remove(id@));
            assert forall|other: UpstreamView| #[trigger]
                self.requests@.contains_key(other) implies self.requests@[other].wf() by {
                assert(before.contains_key(other));
            }
            assert(requests_are_live(self@)) by {
                assert forall|other: UpstreamView| #[trigger] self@.contains_key(other) implies !(
                self@[other] =~= Map::empty()) && (forall|k: KeyView| #[trigger]
                    self@[other].contains_key(k) ==> self@[other][k] > 0) by {
                    assert(old(self)@.contains_key(other));
                }
            }
        }
    }

    /// How many requests of a name are under way on a connection.
    pub fn count(&self, id: &UpstreamId, key: &ConnectionKey) -> (count: usize)
        requires
            self.wf(),
        ensures
            count == request_count(self@, id@, key@),
    {
        match self.requests.get(id) {
            Some(counts) => {
                assert(self@.contains_key(id@));
                match counts.get(key) {
                    Some(count) => *count,
                    None => 0,
                }
            },
            None => 0,
        }
    }

    /// The connections that work on a request of the editor, each once. Nothing
    /// is given back where none does.
    pub fn connections_for(&self, id: &UpstreamId) -> (keys: Option<Vec<ConnectionKey>>)
        requires
            self.wf(),
        ensures
            match keys {
                Some(keys) => self@.contains_key(id@) && key_views(keys@).no_duplicates() && (
                forall|key: KeyView|
                    self@[id@].contains_key(key) <==> #[trigger] key_views(keys@).contains(key)),
                None => !self@.contains_key(id@),
            },
    {
        match self.requests.get(id) {
            Some(counts) => {
                let mut keys: Vec<ConnectionKey> = Vec::new();
                let mut i: usize = 0;
                while i < counts.len()
                    invariant
                        counts.wf(),
                        i <= counts.keys().len(),
                        keys.len() == i,
                        forall|j: int|
                            0 <= j < i ==> (#[trigger] keys@[j])@ == counts.keys()[j],
                    decreases counts.keys().len() - i,
                {
                    keys.push(counts.key_at(i).clone());
                    i += 1;
                }
                proof {
                    assert(key_views(keys@) =~= counts.keys());
                    counts.lemma_keys();
                    assert(self@[id@] == counts@);
                }
                Some(keys)
            },
            None => None,
        }
    }
}

/// Taking a request off again undoes putting it on, as far as one can count.
pub proof fn taking_undoes_adding(
    requests: Map<UpstreamView, Map<KeyView, usize>>,
    id: UpstreamView,
    key: KeyView,
)
    requires
        requests_are_live(requests),
        request_count(requests, id, key) < usize::MAX,
    ensures
        request_taken(request_added(requests, id, key), id, key) == requests,
{
    let added = request_added(requests, id, key);
    let before = requests_of(requests, id);
    let count = request_count(requests, id, key);
    assert(requests_of(added, id) == before.insert(key, (count + 1) as usize));
    if requests.contains_key(id) {
        if before.contains_key(key) {
            assert(before[key] > 0);
            assert(before.insert(key, (count + 1) as usize).insert(key, count) =~= before);
        } else {
            assert(before.insert(key, 1usize).remove(key) =~= before);
        }
        assert(request_taken(added, id, key) =~= requests);
    } else {
        assert(before.insert(key, 1usize).remove(key) =~= Map::<KeyView, usize>::empty());
        assert(request_taken(added, id, key) =~= requests);
    }
}

/// Adding and taking leave every other request and every other connection as
/// they were.
pub proof fn other_requests_are_spared(
    requests: Map<UpstreamView, Map<KeyView, usize>>,
    id: UpstreamView,
    key: KeyView,
    other_id: UpstreamView,
    other_key: KeyView,
)
    requires
        id != other_id || key != other_key,
    ensures
        request_count(request_added(requests, id, key), other_id, other_key) == request_count(
            requests,
            other_id,
            other_key,
        ),
        request_count(request_taken(requests, id, key), other_id, other_key) == request_count(
            requests,
            other_id,
            other_key,
        ),
{
    let count = request_count(requests, id, key);
    let left = if count <= 1 {
        requests_of(requests, id).remove(key)
    } else {
        requests_of(requests, id).insert(key, (count - 1) as usize)
    };
    if id == other_id {
        assert(left.contains_key(other_key) == requests_of(requests, id).contains_key(other_key));
        if left =~= Map::empty() {
            assert(!left.contains_key(other_key));
        }
    }
}

/// A connection stays listed for a request while another one of that name is
/// under way on it.
pub proof fn siblings_keep_the_connection(
    requests: Map<UpstreamView, Map<KeyView, usize>>,
    id: UpstreamView,
    key: KeyView,
)
    ensures
        request_count(request_taken(requests, id, key), id, key) == (if request_count(
            requests,
            id,
            key,
        ) > 0 {
            request_count(requests, id, key) - 1
        } else {
            0
        }),
{
    let count = request_count(requests, id, key);
    let left = if count <= 1 {
        requests_of(requests, id).remove(key)
    } else {
        requests_of(requests, id).insert(key, (count - 1) as usize)
    };
    if left =~= Map::empty() {
        assert(!left.contains_key(key));
    }
}

/// Putting a request on adds one to its count on its connection, and makes the
/// connection listed for it. A connection is listed exactly while it counts some.
pub proof fn adding_counts_one(
    requests: Map<UpstreamView, Map<KeyView, usize>>,
    id: UpstreamView,
    key: KeyView,
)
    ensures
        request_count(requests, id, key) < usize::MAX ==> request_count(
            request_added(requests, id, key),
            id,
            key,
        ) == request_count(requests, id, key) + 1,
        request_added(requests, id, key).contains_key(id),
        request_added(requests, id, key)[id].contains_key(key),
        requests_are_live(requests) ==> (request_count(requests, id, key) > 0 <==> (
        requests.contains_key(id) && requests[id].contains_key(key))),
        requests_are_live(requests) && request_count(requests, id, key) <= 1 ==> !requests_of(
            request_taken(requests, id, key),
            id,
        ).contains_key(key),
{
    let count = request_count(requests, id, key);
    if count <= 1 {
        let left = requests_of(requests, id).remove(key);
        if left =~= Map::empty() {
            assert(!left.contains_key(key));
        }
    }
}

/// The number that a text in decimal digits stands for.
pub open spec fn read_decimal(text: Seq<char>) -> nat
    decreases text.len(),
{
    if text.len() == 0 {
        0
    } else {
        10 * read_decimal(text.drop_last()) + (text.last() as nat - '0' as nat) as nat
    }
}

/// A number is written in decimal digits that read back as the number, without a
/// leading zero where it is not zero itself.
pub proof fn numbers_read_back(n: nat)
    ensures
        read_decimal(decimal(n)) == n,
        decimal(n).len() > 0,
        forall|i: int| 0 <= i < decimal(n).len() ==> '0' <= #[trigger] decimal(n)[i] <= '9',
        n > 0 ==> decimal(n)[0] != '0',
    decreases n,
{
    reveal_strlit("0123456789");
    let last = (n % 10) as int;
    assert(digit(last) as nat == '0' as nat + n % 10) by {
        assert(last == 0 || last == 1 || last == 2 || last == 3 || last == 4 || last == 5 || last
            == 6 || last == 7 || last == 8 || last == 9);
    }
    if n < 10 {
        assert(decimal(n).drop_last() =~= Seq::<char>::empty());
        assert(read_decimal(Seq::empty()) == 0);
    } else {
        numbers_read_back(n / 10);
        assert(decimal(n).drop_last() =~= decimal(n / 10));
        assert(decimal(n)[0] == decimal(n / 10)[0]);
        assert forall|i: int| 0 <= i < decimal(n).len() implies '0' <= #[trigger] decimal(n)[i]
            <= '9' by {
            if i < decimal(n / 10).len() {
                assert(decimal(n)[i] == decimal(n / 10)[i]);
            }
        }
    }
}

/// The names of requests can be told apart as they are shown: different numbers are
/// written differently, and a text stands between quotes.
pub proof fn requests_are_shown_apart(one: i64, two: i64, text: Seq<char>, other: Seq<char>)
    ensures
        one != two ==> UpstreamView::Number(one).shown() != UpstreamView::Number(two).shown(),
        one < 0 <==> UpstreamView::Number(one).shown()[0] == '-',
        text != other ==> UpstreamView::Text(text).shown() != UpstreamView::Text(other).shown(),
        UpstreamView::Text(text).shown() != UpstreamView::Number(one).shown(),
        UpstreamView::Text(text).shown().len() == text.len() + 2,
        UpstreamView::Text(text).shown().subrange(1, 1 + text.len() as int) == text,
{
    let a = signed_decimal(one as int);
    let b = signed_decimal(two as int);
    if one >= 0 {
        numbers_read_back(one as nat);
    } else {
        numbers_read_back((-one) as nat);
        assert(a[0] == '-');
        assert(a.skip(1) =~= decimal((-one) as nat));
    }
    if two >= 0 {
        numbers_read_back(two as nat);
    } else {
        numbers_read_back((-two) as nat);
        assert(b[0] == '-');
        assert(b.skip(1) =~= decimal((-two) as nat));
    }
    if one >= 0 {
        assert('0' <= a[0] <= '9');
    }
    if two >= 0 {
        assert('0' <= b[0] <= '9');
    }
    let quoted = UpstreamView::Text(text).shown();
    assert(quoted.subrange(1, 1 + text.len() as int) =~= text);
    let quoted_other = UpstreamView::Text(other).shown();
    assert(quoted_other.subrange(1, 1 + other.len() as int) =~= other);
    assert(quoted[0] == '"');
}

/// A count that cannot go up stays, and two names of requests are the same exactly
/// where they are the same number or the same text.
pub proof fn full_counts_stay(
    requests: Map<UpstreamView, Map<KeyView, usize>>,
    id: UpstreamView,
    key: KeyView,
    one: UpstreamId,
    two: UpstreamId,
)
    ensures
        request_count(requests, id, key) == usize::MAX ==> request_count(
            request_added(requests, id, key),
            id,
            key,
        ) == usize::MAX,
        one@ == two@ <==> (match (one, two) {
            (UpstreamId::Number(mine), UpstreamId::Number(theirs)) => mine == theirs,
            (UpstreamId::String(mine), UpstreamId::String(theirs)) => mine@ == theirs@,
            _ => false,
        }),
{
}

} // verus!
