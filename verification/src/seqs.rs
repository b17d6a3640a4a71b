//! Facts about finite sequences.

use vstd::prelude::*;

verus! {

/// Filtering by what holds of every item changes nothing.
pub proof fn lemma_filter_keeps_all<A>(items: Seq<A>, keep: spec_fn(A) -> bool)
    requires
        forall|i: int| 0 <= i < items.len() ==> keep(#[trigger] items[i]),
    ensures
        items.filter(keep) == items,
    decreases items.len(),
{
    reveal(Seq::filter);
    if items.len() > 0 {
        lemma_filter_keeps_all(items.drop_last(), keep);
        assert(keep(items[items.len() - 1]));
        assert(items =~= items.drop_last().push(items.last()));
    }
}

/// Filtering one item out of a sequence without repetitions is removing it.
pub proof fn lemma_filter_out_one<A>(items: Seq<A>, i: int)
    requires
        items.no_duplicates(),
        0 <= i < items.len(),
    ensures
        items.filter(|item: A| item != items[i]) == items.remove(i),
{
    let item = items[i];
    let apart = |other: A| other != item;
    let low = items.subrange(0, i);
    let high = items.subrange(i + 1, items.len() as int);
    assert(items =~= low + (seq![item] + high));
    Seq::filter_distributes_over_add(low, seq![item] + high, apart);
    Seq::filter_distributes_over_add(seq![item], high, apart);
    lemma_filter_keeps_all(low, apart);
    lemma_filter_keeps_all(high, apart);
    assert(seq![item].filter(apart) =~= Seq::<A>::empty()) by {
        reveal(Seq::filter);
        let one = seq![item];
        assert(one.drop_last() =~= Seq::<A>::empty());
        assert(one.drop_last().filter(apart) =~= Seq::<A>::empty());
        assert(!apart(one.last()));
    }
    assert(items.remove(i) =~= low + high);
    assert(Seq::<A>::empty() + high =~= high);
}

/// The items that a filter keeps.
pub proof fn lemma_filter_members<A>(items: Seq<A>, keep: spec_fn(A) -> bool)
    ensures
        forall|item: A| #[trigger]
            items.filter(keep).contains(item) <==> items.contains(item) && keep(item),
    decreases items.len(),
{
    reveal(Seq::filter);
    if items.len() > 0 {
        let front = items.drop_last();
        lemma_filter_members(front, keep);
        assert(items =~= front.push(items.last()));
        front.lemma_filter_push(items.last(), keep);
        assert forall|item: A| #[trigger]
            items.filter(keep).contains(item) <==> items.contains(item) && keep(item) by {
            lemma_push_contains(front, items.last(), item);
            lemma_push_contains(front.filter(keep), items.last(), item);
        }
    }
}

/// The items of a sequence with one more.
pub proof fn lemma_push_contains<A>(items: Seq<A>, last: A, item: A)
    ensures
        items.push(last).contains(item) <==> items.contains(item) || item == last,
{
    let longer = items.push(last);
    if longer.contains(item) {
        let j = choose|j: int| 0 <= j < longer.len() && longer[j] == item;
        if j < items.len() {
            assert(items[j] == item);
        }
    }
    if items.contains(item) {
        let j = choose|j: int| 0 <= j < items.len() && items[j] == item;
        assert(longer[j] == item);
    }
    assert(longer[items.len() as int] == last);
}

/// A filter repeats nothing that the sequence did not repeat.
pub proof fn lemma_filter_no_duplicates<A>(items: Seq<A>, keep: spec_fn(A) -> bool)
    requires
        items.no_duplicates(),
    ensures
        items.filter(keep).no_duplicates(),
    decreases items.len(),
{
    reveal(Seq::filter);
    if items.len() > 0 {
        let front = items.drop_last();
        lemma_filter_no_duplicates(front, keep);
        lemma_filter_members(front, keep);
        assert(items =~= front.push(items.last()));
        front.lemma_filter_push(items.last(), keep);
        assert(!front.contains(items.last()));
        let kept = front.filter(keep);
        assert forall|i: int, j: int| 0 <= i < j < items.filter(keep).len() implies items.filter(
            keep,
        )[i] != items.filter(keep)[j] by {
            if j == kept.len() {
                assert(kept.contains(kept[i]));
            }
        }
    }
}

/// One more item of a sequence.
pub proof fn lemma_take_contains<A>(items: Seq<A>, i: int)
    requires
        0 <= i < items.len(),
    ensures
        forall|item: A| #[trigger]
            items.take(i + 1).contains(item) <==> items.take(i).contains(item) || item == items[i],
{
    assert forall|item: A| #[trigger]
        items.take(i + 1).contains(item) <==> items.take(i).contains(item) || item == items[i] by {
        let longer = items.take(i + 1);
        let shorter = items.take(i);
        if longer.contains(item) {
            let j = choose|j: int| 0 <= j < longer.len() && longer[j] == item;
            if j < i {
                assert(shorter[j] == item);
            }
        }
        if shorter.contains(item) {
            let j = choose|j: int| 0 <= j < shorter.len() && shorter[j] == item;
            assert(longer[j] == item);
        }
        assert(items.take(i + 1)[i] == items[i]);
    }
}

} // verus!
