//! One document on one connection.

use crate::connection_key::{ConnectionKey, KeyView};
use crate::seqs::lemma_filter_out_one;
use crate::table::{Table, TableKey};
use crate::text::same_text;
use vstd::prelude::*;

verus! {

/// A document, by its address, on a connection.
#[derive(Debug, PartialEq, Eq)]
pub struct DocumentPlace {
    pub uri: String,
    pub key: ConnectionKey,
}

/// The mathematical content of a [`DocumentPlace`].
pub struct PlaceView {
    pub uri: Seq<char>,
    pub key: KeyView,
}

impl View for DocumentPlace {
    type V = PlaceView;

    open spec fn view(&self) -> PlaceView {
        PlaceView { uri: self.uri@, key: self.key@ }
    }
}

impl TableKey for DocumentPlace {
    fn same(&self, other: &Self) -> (same: bool) {
        same_text(self.uri.as_str(), other.uri.as_str()) && self.key.same(&other.key)
    }

    fn duplicate(&self) -> (copy: Self) {
        DocumentPlace { uri: self.uri.clone(), key: self.key.clone() }
    }
}

impl DocumentPlace {
    /// The document at an address on a connection.
    pub fn new(uri: &str, key: &ConnectionKey) -> (place: Self)
        ensures
            place@ == (PlaceView { uri: uri@, key: key@ }),
    {
        DocumentPlace { uri: uri.to_owned(), key: key.clone() }
    }
}

/// What is kept for documents on other connections.
pub open spec fn off_connection<V>(places: Map<PlaceView, V>, key: KeyView) -> Map<PlaceView, V> {
    Map::new(
        |place: PlaceView| places.contains_key(place) && place.key != key,
        |place: PlaceView| places[place],
    )
}

/// Drops what is kept for documents on a connection.
pub fn drop_connection<V>(places: &mut Table<DocumentPlace, V>, key: &ConnectionKey)
    requires
        old(places).wf(),
    ensures
        final(places).wf(),
        final(places)@ == off_connection(old(places)@, key@),
{
    let ghost start = places@;
    let mut i: usize = 0;
    while i < places.len()
        invariant
            places.wf(),
            i <= places.keys().len(),
            forall|j: int| 0 <= j < i ==> (#[trigger] places.keys()[j]).key != key@,
            forall|place: PlaceView| #[trigger]
                places@.contains_key(place) ==> start.contains_key(place) && places@[place]
                    == start[place],
            forall|place: PlaceView|
                start.contains_key(place) && place.key != key@ ==> #[trigger] places@.contains_key(
                    place,
                ),
        decreases places.keys().len() - i,
    {
        if places.key_at(i).key.same(key) {
            let gone = places.key_at(i).duplicate();
            let ghost order = places.keys();
            proof {
                places.lemma_keys();
                lemma_filter_out_one(order, i as int);
            }
            places.remove(&gone);
            proof {
                assert(places.keys() == order.remove(i as int));
            }
        } else {
            i += 1;
        }
    }
    proof {
        places.lemma_keys();
        assert forall|place: PlaceView| places@.contains_key(place) implies place.key != key@ by {
            assert(places.keys().contains(place));
        }
        assert(places@ =~= off_connection(start, key@));
    }
}

/// Dropping a connection drops what is kept for its own places and keeps the rest as
/// it is.
pub proof fn dropping_spares_other_connections<V>(
    places: Map<PlaceView, V>,
    key: KeyView,
    place: PlaceView,
)
    ensures
        place.key == key ==> !off_connection(places, key).contains_key(place),
        place.key != key ==> off_connection(places, key).contains_key(place)
            == places.contains_key(place),
        place.key != key && places.contains_key(place) ==> off_connection(places, key)[place]
            == places[place],
{
}

/// A place is a document's address and a connection.
pub proof fn places_say_every_part(one: DocumentPlace, two: DocumentPlace)
    ensures
        one@ == two@ <==> one.uri@ == two.uri@ && one.key@ == two.key@,
{
}

} // verus!
