//! What edits do to a mod order.

use vstd::prelude::*;
use crate::instance::profiles::ProfilesView;
use crate::instance::{ModIndex, ModOrderEntry, ModOrderIndex, ProfileView, order_is_valid};
use crate::util::{arrangement, block_start, lemma_members, lemma_move_keeps_order, moved};
use crate::util::{others, selection};

verus! {

/// The mods that a mod order names, as numbers.
pub open spec fn index_set(order: Seq<ModOrderEntry>) -> Set<int> {
    Set::new(|k: int| exists|j: int| 0 <= j < order.len() && (#[trigger] order[j]).index.0 == k)
}

/// The disabled entry for the mod with the number `k`.
pub open spec fn disabled_entry(k: int) -> ModOrderEntry {
    ModOrderEntry { index: ModIndex(k as u32), enabled: false }
}

/// Disabled entries for the mods of a mod list of `mods_len` mods that a mod
/// order does not name, by ascending index.
pub open spec fn missing_entries(order: Seq<ModOrderEntry>, mods_len: nat) -> Seq<ModOrderEntry> {
    let missing = others(mods_len, index_set(order));
    Seq::new(missing.len(), |i: int| disabled_entry(missing[i]))
}

/// A mod order with the entries that it lacks for a mod list of `mods_len`
/// mods added at its end. An order with more entries than there are mods is
/// left as it is.
pub open spec fn completed_order(order: Seq<ModOrderEntry>, mods_len: nat) -> Seq<ModOrderEntry> {
    if order.len() <= mods_len {
        order + missing_entries(order, mods_len)
    } else {
        order
    }
}

/// A valid mod order stays valid when it is completed, and then, unless it
/// had more entries than there are mods, names every mod.
pub proof fn lemma_completed_order(order: Seq<ModOrderEntry>, mods_len: nat)
    requires
        order_is_valid(order, mods_len),
        mods_len <= u32::MAX + 1,
    ensures
        order_is_valid(completed_order(order, mods_len), mods_len),
        order.len() <= mods_len ==> forall|k: int|
            0 <= k < mods_len ==> index_set(completed_order(order, mods_len)).contains(k),
{
    let set = index_set(order);
    let missing = others(mods_len, set);
    let added = missing_entries(order, mods_len);
    let all = completed_order(order, mods_len);
    lemma_members(mods_len, set);
    if order.len() <= mods_len {
        assert forall|i: int| 0 <= i < all.len() implies (#[trigger] all[i]).index.0 < mods_len by {
            if i >= order.len() {
                assert(all[i] == disabled_entry(missing[i - order.len()]));
            }
        }
        assert forall|i: int, j: int| 0 <= i < j < all.len() implies (#[trigger] all[i]).index != (
        #[trigger] all[j]).index by {
            if j >= order.len() {
                let b = missing[j - order.len()];
                assert(all[j] == disabled_entry(b));
                assert(!set.contains(b));
                if i >= order.len() {
                    let a = missing[i - order.len()];
                    assert(all[i] == disabled_entry(a));
                    assert(a < b);
                } else {
                    assert(all[i] == order[i]);
                    if order[i].index.0 == b {
                        assert(set.contains(b));
                    }
                }
            }
        }
        assert forall|k: int| 0 <= k < mods_len implies index_set(all).contains(k) by {
            if set.contains(k) {
                let j = choose|j: int| 0 <= j < order.len() && (#[trigger] order[j]).index.0 == k;
                assert(all[j].index.0 == k);
            } else {
                let i = choose|i: int| 0 <= i < missing.len() && missing[i] == k;
                assert(all[order.len() + i] == disabled_entry(k));
                assert(all[order.len() + i].index.0 == k);
            }
        }
    }
}

/// Adds to a mod order disabled entries for the mods of a mod list of
/// `mods_len` mods that it does not name, by ascending index.
pub fn add_missing_mods(order: &mut Vec<ModOrderEntry>, mods_len: usize)
    requires
        mods_len <= u32::MAX + 1,
    ensures
        final(order)@ == completed_order(old(order)@, mods_len as nat),
{
    if order.len() > mods_len {
        return ;
    }
    let ghost before = order@;
    let ghost set = index_set(before);
    let mut mods_present: Vec<bool> = vec![false; mods_len];
    let mut j: usize = 0;
    while j < order.len()
        invariant
            j <= order@.len(),
            order@ == before,
            mods_present@.len() == mods_len,
            forall|k: int|
                0 <= k < mods_len ==> (#[trigger] mods_present@[k] <==> exists|t: int|
                    0 <= t < j && (#[trigger] before[t]).index.0 == k),
        decreases order@.len() - j,
    {
        let index = order[j].mod_index().as_usize();
        if index < mods_len {
            mods_present[index] = true;
        }
        j = j + 1;
    }
    let mut k: usize = 0;
    assert(order@ =~= before + Seq::new(0, |i: int| disabled_entry(others(0, set)[i])));
    while k < mods_len
        invariant
            k <= mods_len <= u32::MAX + 1,
            mods_present@.len() == mods_len,
            set == index_set(before),
            forall|i: int| 0 <= i < mods_len ==> (#[trigger] mods_present@[i] <==> set.contains(i)),
            order@ == before + Seq::new(
                others(k as nat, set).len(),
                |i: int| disabled_entry(others(k as nat, set)[i]),
            ),
        decreases mods_len - k,
    {
        let ghost so_far = others(k as nat, set);
        if !mods_present[k] {
            order.push(ModOrderEntry::new(ModIndex(k as u32)));
        }
        k = k + 1;
        proof {
            let now = others(k as nat, set);
            assert(order@ =~= before + Seq::new(now.len(), |i: int| disabled_entry(now[i])));
        }
    }
}

/// An entry of a mod order after the mod `removed` left the mod list: an
/// entry for a mod behind it names the index one lower, any other entry is
/// as it was.
pub open spec fn entry_after_removal(entry: ModOrderEntry, removed: ModIndex) -> ModOrderEntry {
    if entry.index.0 > removed.0 {
        ModOrderEntry { index: ModIndex((entry.index.0 - 1) as u32), enabled: entry.enabled }
    } else {
        entry
    }
}

/// A mod order after the mod `removed` left the mod list: its entry is gone,
/// and the others are as [`entry_after_removal`] says, in their order.
pub open spec fn order_without(order: Seq<ModOrderEntry>, removed: ModIndex) -> Seq<ModOrderEntry>
    decreases order.len(),
{
    if order.len() == 0 {
        Seq::empty()
    } else {
        let before = order_without(order.drop_last(), removed);
        if order.last().index == removed {
            before
        } else {
            before.push(entry_after_removal(order.last(), removed))
        }
    }
}

/// The profiles after the mod `removed` left the mod list.
pub open spec fn profiles_without(profiles: ProfilesView, removed: ModIndex) -> ProfilesView {
    Seq::new(
        profiles.len(),
        |i: int|
            (
                profiles[i].0,
                ProfileView {
                    display_name: profiles[i].1.display_name,
                    mod_order: order_without(profiles[i].1.mod_order, removed),
                },
            ),
    )
}

/// Every entry of a mod order without a mod comes from an entry for another
/// mod, and the entries come in the order in which they came.
pub proof fn lemma_order_without(order: Seq<ModOrderEntry>, removed: ModIndex) -> (from: Seq<int>)
    ensures
        from.len() == order_without(order, removed).len(),
        forall|i: int|
            0 <= i < from.len() ==> 0 <= #[trigger] from[i] < order.len() && order[from[i]].index
                != removed && order_without(order, removed)[i] == entry_after_removal(
                order[from[i]],
                removed,
            ),
        forall|i: int, j: int| 0 <= i < j < from.len() ==> from[i] < from[j],
        forall|k: int|
            0 <= k < order.len() && (#[trigger] order[k]).index != removed ==> exists|i: int|
                0 <= i < from.len() && #[trigger] from[i] == k,
    decreases order.len(),
{
    if order.len() == 0 {
        Seq::empty()
    } else {
        let earlier = order.drop_last();
        let before = lemma_order_without(earlier, removed);
        let last = order.len() - 1;
        let from = if order.last().index == removed {
            before
        } else {
            before.push(last)
        };
        assert forall|k: int|
            0 <= k < order.len() && (#[trigger] order[k]).index != removed implies exists|i: int|
            0 <= i < from.len() && #[trigger] from[i] == k by {
            if k < last {
                assert(earlier[k] == order[k]);
                let i = choose|i: int| 0 <= i < before.len() && #[trigger] before[i] == k;
                assert(from[i] == k);
            } else {
                assert(from[before.len() as int] == k);
            }
        }
        from
    }
}

/// A valid mod order without a mod of the mod list is valid for the mod list
/// without that mod.
pub proof fn lemma_order_without_is_valid(
    order: Seq<ModOrderEntry>,
    removed: ModIndex,
    mods_len: nat,
)
    requires
        order_is_valid(order, mods_len),
        removed.0 < mods_len,
    ensures
        order_is_valid(order_without(order, removed), (mods_len - 1) as nat),
{
    let from = lemma_order_without(order, removed);
    let after = order_without(order, removed);
    assert forall|i: int| 0 <= i < after.len() implies (#[trigger] after[i]).index.0 < mods_len
        - 1 by {
        assert(order[from[i]].index.0 < mods_len);
    }
    assert forall|i: int, j: int| 0 <= i < j < after.len() implies (#[trigger] after[i]).index != (
    #[trigger] after[j]).index by {
        assert(order[from[i]].index != order[from[j]].index);
    }
}

/// Takes the mod `removed` out of a mod order.
pub(crate) fn remove_from_order(order: &Vec<ModOrderEntry>, removed: ModIndex) -> (r: Vec<ModOrderEntry>)
    ensures
        r@ == order_without(order@, removed),
{
    let mut r: Vec<ModOrderEntry> = Vec::new();
    let mut i: usize = 0;
    assert(order@.take(0) =~= Seq::empty());
    while i < order.len()
        invariant
            i <= order@.len(),
            r@ == order_without(order@.take(i as int), removed),
        decreases order@.len() - i,
    {
        let entry = order[i];
        proof {
            assert(order@.take(i + 1).drop_last() =~= order@.take(i as int));
            assert(order@.take(i + 1).last() == entry);
        }
        if entry.index.0 != removed.0 {
            if entry.index.0 > removed.0 {
                r.push(ModOrderEntry { index: ModIndex(entry.index.0 - 1), enabled: entry.enabled });
            } else {
                r.push(entry);
            }
        }
        i = i + 1;
    }
    assert(order@.take(i as int) =~= order@);
    r
}

/// The positions that a selection of entries names.
pub open spec fn positions(indices: Seq<ModOrderIndex>) -> Seq<usize> {
    Seq::new(indices.len(), |i: int| indices[i].0 as usize)
}

/// A valid mod order stays valid when entries of it are moved.
pub proof fn lemma_moved_order_is_valid(
    order: Seq<ModOrderEntry>,
    from: Seq<usize>,
    to: usize,
    mods_len: nat,
)
    requires
        order_is_valid(order, mods_len),
    ensures
        order_is_valid(
            moved(
                order,
                selection(from, order.len()),
                block_start(order.len(), selection(from, order.len()), to as int),
            ),
            mods_len,
        ),
{
    let n = order.len();
    let sel = selection(from, n);
    let first = block_start(n, sel, to as int);
    let arr = arrangement(n, sel, first);
    let after = moved(order, sel, first);
    lemma_move_keeps_order(n, from, to);
    assert forall|i: int| 0 <= i < after.len() implies (#[trigger] after[i]).index.0 < mods_len by {
        assert(0 <= arr[i] < n);
        assert(after[i] == order[arr[i]]);
    }
    assert forall|i: int, j: int| 0 <= i < j < after.len() implies (#[trigger] after[i]).index != (
    #[trigger] after[j]).index by {
        assert(0 <= arr[i] < n && 0 <= arr[j] < n);
        assert(arr[i] != arr[j]);
        assert(after[i] == order[arr[i]] && after[j] == order[arr[j]]);
        if arr[i] < arr[j] {
            assert(order[arr[i]].index != order[arr[j]].index);
        } else {
            assert(order[arr[j]].index != order[arr[i]].index);
        }
    }
}

} // verus!
