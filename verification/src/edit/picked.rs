//! The set of places that a caller picks in a mod order.

use vstd::prelude::*;
use crate::edit::order::positions;
use crate::instance::ModOrderIndex;
use crate::util::{as_ints, selection};

verus! {

/// `foldhash::fast::RandomState`, which makes the hashers of a set of
/// places. Values of it are only handed on.
#[verifier::external_type_specification]
#[verifier::external_body]
pub struct ExRandomState(foldhash::fast::RandomState);

/// The places that a set holds.
pub uninterp spec fn places_held(set: foldhash::HashSet<ModOrderIndex>) -> Set<int>;

/// `HashSet::iter` goes through the items of the set, each of them once, in
/// an order that is not fixed; the items are collected as they come. So
/// what is said of the result is what it holds, and not where.
#[verifier::external_body]
pub(crate) fn places_of(set: &foldhash::HashSet<ModOrderIndex>) -> (r: Vec<ModOrderIndex>)
    ensures
        as_ints(positions(r@)).to_set() == places_held(*set),
{
    set.iter().copied().collect()
}

/// The places below `n` among `held`.
pub open spec fn picked(held: Set<int>, n: nat) -> Set<int> {
    Set::new(|k: int| 0 <= k < n && held.contains(k))
}

/// The places that a list names are those that it holds, in whatever order
/// and however often it holds them.
pub proof fn lemma_picked(places: Seq<ModOrderIndex>, n: nat)
    ensures
        selection(positions(places), n) == picked(as_ints(positions(places)).to_set(), n),
{
    let from = positions(places);
    let ints = as_ints(from);
    assert forall|k: int| selection(from, n).contains(k) implies picked(ints.to_set(), n).contains(
        k,
    ) by {
        let j = choose|j: int| 0 <= j < from.len() && from[j] == k;
        assert(ints[j] == k);
        assert(ints.contains(k));
    }
    assert forall|k: int| picked(ints.to_set(), n).contains(k) implies selection(from, n).contains(
        k,
    ) by {
        assert(ints.contains(k));
        let j = choose|j: int| 0 <= j < ints.len() && ints[j] == k;
        assert(from[j] == k);
    }
    assert(selection(from, n) =~= picked(ints.to_set(), n));
}

} // verus!
