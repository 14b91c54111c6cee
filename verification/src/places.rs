//! Where the items of a selection stand in the sequence they were taken from.

use vstd::prelude::*;

verus! {

/// The places of the items for which `wanted` holds, in order.
pub open spec fn places_of<A>(items: Seq<A>, wanted: spec_fn(A) -> bool) -> Seq<int>
    decreases items.len(),
{
    if items.len() == 0 {
        Seq::empty()
    } else {
        let earlier = places_of(items.drop_last(), wanted);
        if wanted(items.last()) {
            earlier.push(items.len() - 1)
        } else {
            earlier
        }
    }
}

/// Selecting keeps the items that are wanted, each once and in order.
pub proof fn law_selection_keeps_order<A>(items: Seq<A>, wanted: spec_fn(A) -> bool)
    ensures
        ({
            let places = places_of(items, wanted);
            let selected = items.filter(wanted);
            &&& places.len() == selected.len()
            &&& forall|i: int|
                0 <= i < places.len() ==> 0 <= #[trigger] places[i] < items.len() && wanted(
                    items[places[i]],
                ) && selected[i] == items[places[i]]
            &&& forall|i: int, j: int|
                0 <= i < j < places.len() ==> #[trigger] places[i] < #[trigger] places[j]
            &&& forall|p: int|
                0 <= p < items.len() && wanted(#[trigger] items[p]) ==> places.contains(p)
        }),
    decreases items.len(),
{
    reveal(Seq::filter);
    if items.len() > 0 {
        let last = items.len() - 1;
        let fewer = items.drop_last();
        let earlier = places_of(fewer, wanted);
        let places = places_of(items, wanted);
        law_selection_keeps_order(fewer, wanted);
        assert forall|i: int| 0 <= i < places.len() implies 0 <= #[trigger] places[i] < items.len()
            && wanted(items[places[i]]) && items.filter(wanted)[i] == items[places[i]] by {
            if i < earlier.len() {
                assert(places[i] == earlier[i]);
                assert(fewer[earlier[i]] == items[earlier[i]]);
            }
        }
        assert forall|p: int| 0 <= p < items.len() && wanted(
            #[trigger] items[p],
        ) implies places.contains(p) by {
            if p < last {
                assert(fewer[p] == items[p]);
                let i = choose|i: int| 0 <= i < earlier.len() && earlier[i] == p;
                assert(places[i] == p);
            } else {
                assert(places[places.len() - 1] == p);
            }
        }
    }
}

} // verus!
