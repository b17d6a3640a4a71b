//! Pointing at connections of a pool without holding on to them.

use crate::connection_handle::HandleView;
use crate::connection_key::{ConnectionKey, KeyView};
use vstd::prelude::*;

verus! {

/// One connection of a pool: its key, and its number among those that had the
/// key.
#[derive(Debug, PartialEq, Eq)]
pub struct ConnectionRef {
    pub key: ConnectionKey,
    pub id: u64,
}

/// The mathematical content of a [`ConnectionRef`].
pub struct RefView {
    pub key: KeyView,
    pub id: u64,
}

impl View for ConnectionRef {
    type V = RefView;

    open spec fn view(&self) -> RefView {
        RefView { key: self.key@, id: self.id }
    }
}

/// The contents of a list.
pub open spec fn ref_views(list: Seq<ConnectionRef>) -> Seq<RefView> {
    Seq::new(list.len(), |i: int| list[i]@)
}

/// The connections that are held under some keys.
pub open spec fn refs_of(connections: Map<KeyView, HandleView>, keys: Seq<KeyView>) -> Seq<RefView> {
    Seq::new(keys.len(), |i: int| RefView { key: keys[i], id: connections[keys[i]].id })
}

/// Holds of the keys whose connections are picked.
pub open spec fn picked(
    connections: Map<KeyView, HandleView>,
    pick: spec_fn(HandleView) -> bool,
) -> spec_fn(KeyView) -> bool {
    |key: KeyView| pick(connections[key])
}

/// One more connection in a list.
pub proof fn lemma_refs_push(
    connections: Map<KeyView, HandleView>,
    keys: Seq<KeyView>,
    list: Seq<ConnectionRef>,
    key: KeyView,
    last: ConnectionRef,
)
    requires
        ref_views(list) == refs_of(connections, keys),
        last@ == (RefView { key, id: connections[key].id }),
    ensures
        ref_views(list.push(last)) == refs_of(connections, keys.push(key)),
{
    assert(ref_views(list.push(last)) =~= ref_views(list).push(last@));
    assert(refs_of(connections, keys.push(key)) =~= refs_of(connections, keys).push(last@));
}

/// The connections that are picked are exactly those that are walked and wanted,
/// each with the number that it has.
pub proof fn targets_are_the_picked(
    connections: Map<KeyView, HandleView>,
    order: Seq<KeyView>,
    wanted: spec_fn(HandleView) -> bool,
    key: KeyView,
)
    ensures
        ({
            let targets = refs_of(connections, order.filter(picked(connections, wanted)));
            &&& targets.contains(RefView { key, id: connections[key].id }) <==> order.contains(key)
                && wanted(connections[key])
            &&& forall|i: int|
                0 <= i < targets.len() ==> (#[trigger] targets[i]).id
                    == connections[targets[i].key].id && order.contains(targets[i].key) && wanted(
                    connections[targets[i].key],
                )
            &&& order.no_duplicates() ==> forall|i: int, j: int|
                0 <= i < j < targets.len() ==> (#[trigger] targets[i]).key != (
                #[trigger] targets[j]).key
        }),
{
    let keep = picked(connections, wanted);
    let keys = order.filter(keep);
    let targets = refs_of(connections, keys);
    crate::seqs::lemma_filter_members(order, keep);
    assert forall|i: int| 0 <= i < targets.len() implies (#[trigger] targets[i]).id
        == connections[targets[i].key].id && order.contains(targets[i].key) && wanted(
        connections[targets[i].key],
    ) by {
        assert(keys.contains(keys[i]));
    }
    if keys.contains(key) {
        let i = choose|i: int| 0 <= i < keys.len() && keys[i] == key;
        assert(targets[i] == RefView { key, id: connections[key].id });
    }
    if targets.contains(RefView { key, id: connections[key].id }) {
        let i = choose|i: int|
            0 <= i < targets.len() && targets[i] == RefView { key, id: connections[key].id };
        assert(keys[i] == key);
    }
    if order.no_duplicates() {
        crate::seqs::lemma_filter_no_duplicates(order, keep);
        assert forall|i: int, j: int| 0 <= i < j < targets.len() implies (#[trigger] targets[i]).key
            != (#[trigger] targets[j]).key by {
            assert(keys[i] != keys[j]);
        }
    }
}

/// A reference to a connection is its key and its number, and a list has the content
/// of each of its entries.
pub proof fn references_say_every_part(
    one: ConnectionRef,
    two: ConnectionRef,
    list: Seq<ConnectionRef>,
    i: int,
)
    ensures
        one@ == two@ <==> one.key@ == two.key@ && one.id == two.id,
        ref_views(list).len() == list.len(),
        0 <= i < list.len() ==> ref_views(list)[i] == list[i]@,
{
}

} // verus!
