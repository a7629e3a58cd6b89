//! What holds of every merged tree: which mods provide a file, and in
//! which order.

use vstd::prelude::*;
use crate::file_tree::merge::{MergeFault, lemma_priority_in_range, merged_entries};
use crate::file_tree::merge::{merged_sources, root_only};
use crate::file_tree::source::{ModSourceView, SourceEntryView, entries_are_nested, entry_path};
use crate::file_tree::source::names_are_distinct;
use crate::file_tree::tree::{PathKind, TreePath, merged_entry};
use crate::instance::{ModDeclaration, ModIndex, ModOrderEntry};
use crate::instance::{entry_is_active, mods_by_priority, order_is_valid};

verus! {

/// Whether one of the first `n` entries of a listing is a file at `path`.
pub open spec fn has_file(entries: Seq<SourceEntryView>, n: int, path: TreePath) -> bool {
    exists|i: int| 0 <= i < n && #[trigger] entry_path(entries, i) == path && !entries[i].is_dir
}

/// The providers of the file at `path`, or none where no file stands there.
pub open spec fn providers_at(view: Map<TreePath, PathKind>, path: TreePath) -> Seq<ModIndex> {
    if view.dom().contains(path) && view[path] is File {
        view[path]->File_0
    } else {
        Seq::empty()
    }
}

/// Whether a file stands at `path`.
pub open spec fn is_file_at(view: Map<TreePath, PathKind>, path: TreePath) -> bool {
    view.dom().contains(path) && view[path] is File
}

/// The mods among the first `n` of `priority` whose listings hold a file at
/// `path`, in the order of `priority`.
pub open spec fn providers_among(
    sources: Seq<ModSourceView>,
    priority: Seq<ModIndex>,
    n: int,
    path: TreePath,
) -> Seq<ModIndex>
    decreases n,
{
    if n <= 0 {
        Seq::empty()
    } else {
        let before = providers_among(sources, priority, n - 1, path);
        let source = sources[priority[n - 1].0 as int];
        if has_file(source.entries, source.entries.len() as int, path) {
            before.push(priority[n - 1])
        } else {
            before
        }
    }
}

/// The path of an entry is as long as the entry lies deep, and ends with the
/// entry's name.
proof fn lemma_entry_path_shape(entries: Seq<SourceEntryView>, i: int)
    requires
        entries_are_nested(entries),
        0 <= i < entries.len(),
    ensures
        entry_path(entries, i).len() >= 1,
        entry_path(entries, i).last() == entries[i].name,
        entries[i].parent is None <==> entry_path(entries, i).len() == 1,
        entries[i].parent matches Some(p) ==> entry_path(entries, i).drop_last() == entry_path(
            entries,
            p,
        ),
    decreases i,
{
    match entries[i].parent {
        Some(p) => {
            lemma_entry_path_shape(entries, p);
            assert(entry_path(entries, i).drop_last() =~= entry_path(entries, p));
        },
        None => {},
    }
}

/// In a listing whose directories hold no name twice, no two entries have
/// the same path.
pub proof fn lemma_entry_paths_differ(entries: Seq<SourceEntryView>, i: int, j: int)
    requires
        entries_are_nested(entries),
        names_are_distinct(entries),
        0 <= i < j < entries.len(),
    ensures
        entry_path(entries, i) != entry_path(entries, j),
    decreases j,
{
    lemma_entry_path_shape(entries, i);
    lemma_entry_path_shape(entries, j);
    if entry_path(entries, i) == entry_path(entries, j) {
        match (entries[i].parent, entries[j].parent) {
            (Some(p), Some(q)) => {
                if p < q {
                    lemma_entry_paths_differ(entries, p, q);
                } else if q < p {
                    lemma_entry_paths_differ(entries, q, p);
                }
            },
            _ => {},
        }
    }
}

/// What entering the first `n` entries of a listing does to the file at a
/// path: where the listing has a file at the path, a file stands there that
/// the mod provides last; else the file there is as it was. What stood in the
/// tree stands in it still, a directory as a directory.
pub proof fn lemma_merged_entries(
    view: Map<TreePath, PathKind>,
    entries: Seq<SourceEntryView>,
    n: int,
    mod_index: ModIndex,
    p: TreePath,
)
    requires
        entries_are_nested(entries),
        names_are_distinct(entries),
        0 <= n <= entries.len(),
        merged_entries(view, entries, n, mod_index).is_ok(),
    ensures
        ({
            let after = merged_entries(view, entries, n, mod_index)->Ok_0;
            &&& view.dom().contains(p) ==> after.dom().contains(p) && (view[p] is Dir
                ==> after[p] is Dir)
            &&& has_file(entries, n, p) ==> is_file_at(after, p) && providers_at(after, p)
                == providers_at(view, p).push(mod_index) && (view.dom().contains(p)
                ==> view[p] is File)
            &&& !has_file(entries, n, p) ==> is_file_at(after, p) == is_file_at(view, p)
                && providers_at(after, p) == providers_at(view, p)
        }),
    decreases n,
{
    if n > 0 {
        lemma_merged_entries(view, entries, n - 1, mod_index, p);
        let before = merged_entries(view, entries, n - 1, mod_index)->Ok_0;
        let after = merged_entries(view, entries, n, mod_index)->Ok_0;
        let q = entry_path(entries, n - 1);
        let is_dir = entries[n - 1].is_dir;
        assert(merged_entry(before, q, is_dir, mod_index) == Some(after));
        if has_file(entries, n - 1, p) {
            let i = choose|i: int|
                0 <= i < n - 1 && #[trigger] entry_path(entries, i) == p && !entries[i].is_dir;
            assert(0 <= i < n && entry_path(entries, i) == p && !entries[i].is_dir);
            if p == q {
                lemma_entry_paths_differ(entries, i, n - 1);
            }
        }
        if p == q && !is_dir {
            assert(0 <= n - 1 < n && entry_path(entries, n - 1) == p && !entries[n - 1].is_dir);
        }
        if has_file(entries, n, p) {
            let i = choose|i: int|
                0 <= i < n && #[trigger] entry_path(entries, i) == p && !entries[i].is_dir;
            if i < n - 1 {
                assert(has_file(entries, n - 1, p));
            }
        }
    } else {
        if has_file(entries, n, p) {
            let i = choose|i: int|
                0 <= i < n && #[trigger] entry_path(entries, i) == p && !entries[i].is_dir;
        }
    }
}

/// The providers of every file of a merged tree are the mods whose listings
/// hold a file at its path, from the highest priority to the lowest; and
/// where a mod holds a file at a path, a file stands there.
pub proof fn lemma_providers(
    sources: Seq<ModSourceView>,
    priority: Seq<ModIndex>,
    n: int,
    path: TreePath,
)
    requires
        0 <= n <= priority.len(),
        forall|k: int| 0 <= k < priority.len() ==> 0 <= (#[trigger] priority[k]).0 < sources.len(),
        forall|k: int|
            0 <= k < sources.len() ==> entries_are_nested((#[trigger] sources[k]).entries)
                && names_are_distinct(sources[k].entries),
        merged_sources(sources, priority, n).is_ok(),
    ensures
        providers_at(merged_sources(sources, priority, n)->Ok_0, path) == providers_among(
            sources,
            priority,
            n,
            path,
        ),
        is_file_at(merged_sources(sources, priority, n)->Ok_0, path) <==> providers_among(
            sources,
            priority,
            n,
            path,
        ).len() > 0,
    decreases n,
{
    if n > 0 {
        lemma_providers(sources, priority, n - 1, path);
        let before = merged_sources(sources, priority, n - 1)->Ok_0;
        let source = sources[priority[n - 1].0 as int];
        let after = merged_sources(sources, priority, n)->Ok_0;
        assert(merged_entries(
            before,
            source.entries,
            source.entries.len() as int,
            priority[n - 1],
        ) == Ok::<Map<TreePath, PathKind>, MergeFault>(after));
        lemma_merged_entries(
            before,
            source.entries,
            source.entries.len() as int,
            priority[n - 1],
            path,
        );
        assert(providers_at(after, path) == providers_among(sources, priority, n, path));
    } else {
        assert(root_only().dom().contains(path) ==> path == Seq::<Seq<char>>::empty());
    }
}

/// The mods of `providers_among` stand in the order of `priority`: each is
/// a mod of `priority`, and of two of them the earlier stands earlier in
/// `priority`.
pub proof fn lemma_providers_in_order(
    sources: Seq<ModSourceView>,
    priority: Seq<ModIndex>,
    n: int,
    path: TreePath,
) -> (places: Seq<int>)
    requires
        0 <= n <= priority.len(),
    ensures
        places.len() == providers_among(sources, priority, n, path).len(),
        forall|i: int|
            0 <= i < places.len() ==> 0 <= #[trigger] places[i] < n && priority[places[i]]
                == providers_among(sources, priority, n, path)[i],
        forall|i: int, j: int| 0 <= i < j < places.len() ==> places[i] < places[j],
    decreases n,
{
    if n <= 0 {
        Seq::empty()
    } else {
        let before = lemma_providers_in_order(sources, priority, n - 1, path);
        let source = sources[priority[n - 1].0 as int];
        if has_file(source.entries, source.entries.len() as int, path) {
            before.push(n - 1)
        } else {
            before
        }
    }
}

/// Whether the listing of the mod holds a file at `path`.
pub open spec fn provides(sources: Seq<ModSourceView>, mod_index: ModIndex, path: TreePath) -> bool {
    has_file(
        sources[mod_index.0 as int].entries,
        sources[mod_index.0 as int].entries.len() as int,
        path,
    )
}

/// Whether the entry at `place` of the mod order is an active entry for the
/// mod `mod_index`.
pub open spec fn stands_at(
    mods: Seq<ModDeclaration>,
    order: Seq<ModOrderEntry>,
    place: int,
    mod_index: ModIndex,
) -> bool {
    0 <= place < order.len() && order[place].index == mod_index && entry_is_active(
        mods,
        order[place],
    )
}

/// The place of the entry for the mod `mod_index` in a mod order.
pub open spec fn place_in_order(order: Seq<ModOrderEntry>, mod_index: ModIndex) -> int {
    choose|a: int| 0 <= a < order.len() && (#[trigger] order[a]).index == mod_index
}

/// The mods of `mods_by_priority` stand in the mod order from back to front:
/// each belongs to an active entry, and of two of them the earlier belongs to
/// the later entry.
pub proof fn lemma_priority_places(mods: Seq<ModDeclaration>, order: Seq<ModOrderEntry>) -> (places:
    Seq<int>)
    ensures
        places.len() == mods_by_priority(mods, order).len(),
        forall|i: int|
            0 <= i < places.len() ==> stands_at(
                mods,
                order,
                #[trigger] places[i],
                mods_by_priority(mods, order)[i],
            ),
        forall|i: int, j: int| 0 <= i < j < places.len() ==> places[i] > places[j],
        forall|a: int|
            0 <= a < order.len() && entry_is_active(mods, #[trigger] order[a]) ==> exists|i: int|
                0 <= i < places.len() && #[trigger] places[i] == a,
    decreases order.len(),
{
    if order.len() == 0 {
        Seq::empty()
    } else {
        let rest = order.drop_first();
        let later = lemma_priority_places(mods, rest);
        let shifted = Seq::new(later.len(), |i: int| later[i] + 1);
        let places = if entry_is_active(mods, order[0]) {
            shifted.push(0)
        } else {
            shifted
        };
        let priority = mods_by_priority(mods, order);
        assert forall|i: int| 0 <= i < places.len() implies stands_at(
            mods,
            order,
            #[trigger] places[i],
            priority[i],
        ) by {
            if i < later.len() {
                assert(stands_at(mods, rest, later[i], mods_by_priority(mods, rest)[i]));
                assert(rest[later[i]] == order[later[i] + 1]);
            }
        }
        assert forall|a: int|
            0 <= a < order.len() && entry_is_active(mods, #[trigger] order[a]) implies exists|
            i: int,
        | 0 <= i < places.len() && #[trigger] places[i] == a by {
            if a == 0 {
                assert(places[later.len() as int] == 0);
            } else {
                assert(rest[a - 1] == order[a]);
                let i = choose|i: int| 0 <= i < later.len() && #[trigger] later[i] == a - 1;
                assert(places[i] == a);
            }
        }
        places
    }
}

/// A mod is among `providers_among` exactly if it is one of the first `n`
/// mods of `priority` and its listing holds a file at the path.
pub proof fn lemma_providers_among(
    sources: Seq<ModSourceView>,
    priority: Seq<ModIndex>,
    n: int,
    path: TreePath,
    mod_index: ModIndex,
)
    requires
        0 <= n <= priority.len(),
    ensures
        providers_among(sources, priority, n, path).contains(mod_index) <==> (provides(
            sources,
            mod_index,
            path,
        ) && exists|k: int| 0 <= k < n && #[trigger] priority[k] == mod_index),
    decreases n,
{
    if n > 0 {
        lemma_providers_among(sources, priority, n - 1, path, mod_index);
        let before = providers_among(sources, priority, n - 1, path);
        let all = providers_among(sources, priority, n, path);
        if provides(sources, priority[n - 1], path) {
            assert(all == before.push(priority[n - 1]));
            assert(all[before.len() as int] == priority[n - 1]);
            if before.contains(mod_index) {
                let i = choose|i: int| 0 <= i < before.len() && before[i] == mod_index;
                assert(all[i] == mod_index);
            }
            if all.contains(mod_index) {
                let i = choose|i: int| 0 <= i < all.len() && all[i] == mod_index;
                if i < before.len() {
                    assert(before[i] == mod_index);
                }
            }
        }
        if provides(sources, mod_index, path) && exists|k: int|
            0 <= k < n && #[trigger] priority[k] == mod_index {
            let k = choose|k: int| 0 <= k < n && #[trigger] priority[k] == mod_index;
            if k < n - 1 {
                assert(before.contains(mod_index));
            }
        }
    }
}

/// The providers of a file of the merged tree are the right mods in the
/// right order.
///
/// Of the tree that the merge of the listings `sources` gives for the mod
/// list `mods` and the mod order `order`, and of a file of it: the file has
/// a provider; no mod provides it twice; its providers are the mods with an
/// active entry in the mod order whose listings hold a file at the path; and
/// of two providers the earlier has the later place in the mod order, so
/// that the first provider is the one named last in the mod order.
pub proof fn lemma_file_providers(
    mods: Seq<ModDeclaration>,
    order: Seq<ModOrderEntry>,
    sources: Seq<ModSourceView>,
    path: TreePath,
)
    requires
        order_is_valid(order, mods.len()),
        sources.len() == mods.len(),
        forall|k: int|
            0 <= k < sources.len() ==> entries_are_nested((#[trigger] sources[k]).entries)
                && names_are_distinct(sources[k].entries),
        merged_sources(
            sources,
            mods_by_priority(mods, order),
            mods_by_priority(mods, order).len() as int,
        ).is_ok(),
        is_file_at(
            merged_sources(
                sources,
                mods_by_priority(mods, order),
                mods_by_priority(mods, order).len() as int,
            )->Ok_0,
            path,
        ),
    ensures
        ({
            let priority = mods_by_priority(mods, order);
            let view = merged_sources(sources, priority, priority.len() as int)->Ok_0;
            let providers = view[path]->File_0;
            &&& providers.len() > 0
            &&& forall|i: int, j: int|
                0 <= i < j < providers.len() ==> providers[i] != providers[j]
            &&& forall|i: int|
                0 <= i < providers.len() ==> stands_at(
                    mods,
                    order,
                    place_in_order(order, #[trigger] providers[i]),
                    providers[i],
                )
            &&& forall|i: int, j: int|
                0 <= i < j < providers.len() ==> place_in_order(order, #[trigger] providers[i])
                    > place_in_order(order, #[trigger] providers[j])
            &&& forall|m: ModIndex|
                #![trigger providers.contains(m)]
                providers.contains(m) <==> (provides(sources, m, path) && exists|a: int|
                    #[trigger] stands_at(mods, order, a, m))
        }),
{
    let priority = mods_by_priority(mods, order);
    let n = priority.len() as int;
    let view = merged_sources(sources, priority, n)->Ok_0;
    let providers = view[path]->File_0;
    lemma_priority_in_range(mods, order);
    lemma_providers(sources, priority, n, path);
    assert(providers == providers_among(sources, priority, n, path));
    let among = lemma_providers_in_order(sources, priority, n, path);
    let places = lemma_priority_places(mods, order);
    assert forall|i: int| 0 <= i < providers.len() implies stands_at(
        mods,
        order,
        place_in_order(order, #[trigger] providers[i]),
        providers[i],
    ) && place_in_order(order, providers[i]) == places[among[i]] by {
        let a = places[among[i]];
        assert(stands_at(mods, order, a, priority[among[i]]));
        let c = place_in_order(order, providers[i]);
        assert(0 <= c < order.len() && order[c].index == providers[i]);
        if c != a {
            assert(order[c].index != order[a].index);
        }
    }
    assert forall|i: int, j: int| 0 <= i < j < providers.len() implies providers[i]
        != providers[j] && place_in_order(order, #[trigger] providers[i]) > place_in_order(
        order,
        #[trigger] providers[j],
    ) by {
        assert(among[i] < among[j]);
        assert(places[among[i]] > places[among[j]]);
        assert(place_in_order(order, providers[i]) == places[among[i]]);
        assert(place_in_order(order, providers[j]) == places[among[j]]);
    }
    assert forall|m: ModIndex|
        #![trigger providers.contains(m)]
        providers.contains(m) <==> (provides(sources, m, path) && exists|a: int|
            #[trigger] stands_at(mods, order, a, m)) by {
        lemma_providers_among(sources, priority, n, path, m);
        if exists|k: int| 0 <= k < n && #[trigger] priority[k] == m {
            let k = choose|k: int| 0 <= k < n && #[trigger] priority[k] == m;
            assert(stands_at(mods, order, places[k], m));
        }
        if exists|a: int| #[trigger] stands_at(mods, order, a, m) {
            let a = choose|a: int| #[trigger] stands_at(mods, order, a, m);
            let i = choose|i: int| 0 <= i < places.len() && #[trigger] places[i] == a;
            assert(stands_at(mods, order, places[i], priority[i]));
            assert(priority[i] == m);
        }
    }
}

/// Whether one of the first `n` entries of a listing stands at `path`.
pub open spec fn has_entry(entries: Seq<SourceEntryView>, n: int, path: TreePath) -> bool {
    exists|i: int| 0 <= i < n && #[trigger] entry_path(entries, i) == path
}

/// Whether the listing of one of the first `n` mods of `priority` holds an
/// entry at `path`.
pub open spec fn listed_among(
    sources: Seq<ModSourceView>,
    priority: Seq<ModIndex>,
    n: int,
    path: TreePath,
) -> bool
    decreases n,
{
    if n <= 0 {
        false
    } else {
        let source = sources[priority[n - 1].0 as int];
        listed_among(sources, priority, n - 1, path) || has_entry(
            source.entries,
            source.entries.len() as int,
            path,
        )
    }
}

/// Entering entries of a listing adds their paths to the tree and no
/// others.
pub proof fn lemma_merged_entries_paths(
    view: Map<TreePath, PathKind>,
    entries: Seq<SourceEntryView>,
    n: int,
    mod_index: ModIndex,
    path: TreePath,
)
    requires
        0 <= n <= entries.len(),
        merged_entries(view, entries, n, mod_index).is_ok(),
    ensures
        merged_entries(view, entries, n, mod_index)->Ok_0.dom().contains(path) <==> (
        view.dom().contains(path) || has_entry(entries, n, path)),
    decreases n,
{
    if n > 0 {
        lemma_merged_entries_paths(view, entries, n - 1, mod_index, path);
        let before = merged_entries(view, entries, n - 1, mod_index)->Ok_0;
        let after = merged_entries(view, entries, n, mod_index)->Ok_0;
        let q = entry_path(entries, n - 1);
        assert(merged_entry(before, q, entries[n - 1].is_dir, mod_index) == Some(after));
        if has_entry(entries, n - 1, path) {
            let i = choose|i: int| 0 <= i < n - 1 && #[trigger] entry_path(entries, i) == path;
            assert(0 <= i < n && entry_path(entries, i) == path);
        }
        if path == q {
            assert(0 <= n - 1 < n && entry_path(entries, n - 1) == path);
        }
        if has_entry(entries, n, path) {
            let i = choose|i: int| 0 <= i < n && #[trigger] entry_path(entries, i) == path;
            if i < n - 1 {
                assert(has_entry(entries, n - 1, path));
            }
        }
    } else {
        if has_entry(entries, n, path) {
            let i = choose|i: int| 0 <= i < n && #[trigger] entry_path(entries, i) == path;
        }
    }
}

/// The paths of a merged tree are the root and the paths of the entries of
/// the mods that were merged.
pub proof fn lemma_merged_paths(
    sources: Seq<ModSourceView>,
    priority: Seq<ModIndex>,
    n: int,
    path: TreePath,
)
    requires
        0 <= n <= priority.len(),
        merged_sources(sources, priority, n).is_ok(),
    ensures
        merged_sources(sources, priority, n)->Ok_0.dom().contains(path) <==> (path
            == Seq::<Seq<char>>::empty() || listed_among(sources, priority, n, path)),
    decreases n,
{
    if n > 0 {
        lemma_merged_paths(sources, priority, n - 1, path);
        let before = merged_sources(sources, priority, n - 1)->Ok_0;
        let source = sources[priority[n - 1].0 as int];
        let after = merged_sources(sources, priority, n)->Ok_0;
        assert(merged_entries(
            before,
            source.entries,
            source.entries.len() as int,
            priority[n - 1],
        ) == Ok::<Map<TreePath, PathKind>, MergeFault>(after));
        lemma_merged_entries_paths(
            before,
            source.entries,
            source.entries.len() as int,
            priority[n - 1],
            path,
        );
    } else {
        assert(root_only().dom().contains(path) <==> path == Seq::<Seq<char>>::empty());
    }
}

/// Whether one of the first `n` entries of a listing is a directory at
/// `path`.
pub open spec fn has_dir(entries: Seq<SourceEntryView>, n: int, path: TreePath) -> bool {
    exists|i: int| 0 <= i < n && #[trigger] entry_path(entries, i) == path && entries[i].is_dir
}

/// Whether a directory stands at `path`.
pub open spec fn is_dir_at(view: Map<TreePath, PathKind>, path: TreePath) -> bool {
    view.dom().contains(path) && view[path] is Dir
}

/// Whether an entry at `path` that is a directory or not, as `is_dir` says,
/// cannot be entered into a tree: a file stands there for a directory, or a
/// directory for a file.
pub open spec fn clashes(view: Map<TreePath, PathKind>, path: TreePath, is_dir: bool) -> bool {
    view.dom().contains(path) && (view[path] is Dir) != is_dir
}

/// Whether the first `n` entries of a listing can be entered into a tree.
pub open spec fn entries_fit(
    view: Map<TreePath, PathKind>,
    entries: Seq<SourceEntryView>,
    n: int,
) -> bool {
    forall|i: int|
        0 <= i < n ==> !clashes(view, #[trigger] entry_path(entries, i), entries[i].is_dir)
}

/// What entering the first `n` entries of a listing does to the directory at
/// a path: where the listing has a directory at the path, a directory
/// stands there; else a directory stands there exactly if one stood there.
pub proof fn lemma_merged_entries_dirs(
    view: Map<TreePath, PathKind>,
    entries: Seq<SourceEntryView>,
    n: int,
    mod_index: ModIndex,
    p: TreePath,
)
    requires
        entries_are_nested(entries),
        names_are_distinct(entries),
        0 <= n <= entries.len(),
        merged_entries(view, entries, n, mod_index).is_ok(),
    ensures
        has_dir(entries, n, p) ==> is_dir_at(merged_entries(view, entries, n, mod_index)->Ok_0, p),
        !has_dir(entries, n, p) ==> is_dir_at(merged_entries(view, entries, n, mod_index)->Ok_0, p)
            == is_dir_at(view, p),
    decreases n,
{
    if n > 0 {
        lemma_merged_entries_dirs(view, entries, n - 1, mod_index, p);
        let before = merged_entries(view, entries, n - 1, mod_index)->Ok_0;
        let after = merged_entries(view, entries, n, mod_index)->Ok_0;
        let q = entry_path(entries, n - 1);
        let is_dir = entries[n - 1].is_dir;
        assert(merged_entry(before, q, is_dir, mod_index) == Some(after));
        if has_dir(entries, n - 1, p) {
            let i = choose|i: int|
                0 <= i < n - 1 && #[trigger] entry_path(entries, i) == p && entries[i].is_dir;
            assert(0 <= i < n && entry_path(entries, i) == p && entries[i].is_dir);
            if p == q {
                lemma_entry_paths_differ(entries, i, n - 1);
            }
        }
        if p == q && is_dir {
            assert(0 <= n - 1 < n && entry_path(entries, n - 1) == p && entries[n - 1].is_dir);
        }
        if has_dir(entries, n, p) {
            let i = choose|i: int|
                0 <= i < n && #[trigger] entry_path(entries, i) == p && entries[i].is_dir;
            if i < n - 1 {
                assert(has_dir(entries, n - 1, p));
            }
        }
    } else {
        if has_dir(entries, n, p) {
            let i = choose|i: int|
                0 <= i < n && #[trigger] entry_path(entries, i) == p && entries[i].is_dir;
        }
    }
}

/// The entries of a listing can be entered into a tree exactly if none of
/// them is a file where the tree has a directory, or a directory where the
/// tree has a file.
pub proof fn lemma_entries_merge(
    view: Map<TreePath, PathKind>,
    entries: Seq<SourceEntryView>,
    n: int,
    mod_index: ModIndex,
)
    requires
        entries_are_nested(entries),
        names_are_distinct(entries),
        0 <= n <= entries.len(),
    ensures
        merged_entries(view, entries, n, mod_index).is_ok() <==> entries_fit(view, entries, n),
    decreases n,
{
    if n > 0 {
        lemma_entries_merge(view, entries, n - 1, mod_index);
        let q = entry_path(entries, n - 1);
        let is_dir = entries[n - 1].is_dir;
        if merged_entries(view, entries, n - 1, mod_index).is_ok() {
            let before = merged_entries(view, entries, n - 1, mod_index)->Ok_0;
            lemma_merged_entries_paths(view, entries, n - 1, mod_index, q);
            lemma_merged_entries(view, entries, n - 1, mod_index, q);
            assert(!has_entry(entries, n - 1, q)) by {
                if has_entry(entries, n - 1, q) {
                    let i = choose|i: int| 0 <= i < n - 1 && #[trigger] entry_path(entries, i) == q;
                    lemma_entry_paths_differ(entries, i, n - 1);
                }
            }
            assert(!has_file(entries, n - 1, q)) by {
                if has_file(entries, n - 1, q) {
                    let i = choose|i: int|
                        0 <= i < n - 1 && #[trigger] entry_path(entries, i) == q
                            && !entries[i].is_dir;
                    assert(has_entry(entries, n - 1, q));
                }
            }
            assert(clashes(before, q, is_dir) == clashes(view, q, is_dir)) by {
                assert(before.dom().contains(q) == view.dom().contains(q));
                assert(is_file_at(before, q) == is_file_at(view, q));
            }
            assert(merged_entry(before, q, is_dir, mod_index).is_some() == !clashes(
                before,
                q,
                is_dir,
            ));
            if entries_fit(view, entries, n - 1) && !clashes(view, q, is_dir) {
                assert forall|i: int| 0 <= i < n implies !clashes(
                    view,
                    #[trigger] entry_path(entries, i),
                    entries[i].is_dir,
                ) by {}
            }
            if entries_fit(view, entries, n) {
                assert(!clashes(view, entry_path(entries, n - 1), entries[n - 1].is_dir));
            }
        } else {
            if entries_fit(view, entries, n) {
                assert forall|i: int| 0 <= i < n - 1 implies !clashes(
                    view,
                    #[trigger] entry_path(entries, i),
                    entries[i].is_dir,
                ) by {}
            }
        }
    }
}

/// Whether the listing of the mod holds a directory at `path`.
pub open spec fn provides_dir(sources: Seq<ModSourceView>, mod_index: ModIndex, path: TreePath) -> bool {
    has_dir(
        sources[mod_index.0 as int].entries,
        sources[mod_index.0 as int].entries.len() as int,
        path,
    )
}

/// Whether the listing of one of the first `n` mods of `priority` holds a
/// directory at `path`.
pub open spec fn dir_among(
    sources: Seq<ModSourceView>,
    priority: Seq<ModIndex>,
    n: int,
    path: TreePath,
) -> bool
    decreases n,
{
    if n <= 0 {
        false
    } else {
        dir_among(sources, priority, n - 1, path) || provides_dir(sources, priority[n - 1], path)
    }
}

/// Where a directory is among the first `n` mods, one of them holds it.
pub proof fn lemma_dir_among(
    sources: Seq<ModSourceView>,
    priority: Seq<ModIndex>,
    n: int,
    path: TreePath,
) -> (k: int)
    requires
        dir_among(sources, priority, n, path),
    ensures
        0 <= k < n,
        provides_dir(sources, priority[k], path),
    decreases n,
{
    if provides_dir(sources, priority[n - 1], path) {
        n - 1
    } else {
        lemma_dir_among(sources, priority, n - 1, path)
    }
}

/// A directory that one of the first `n` mods holds is among them.
pub proof fn lemma_dir_is_among(
    sources: Seq<ModSourceView>,
    priority: Seq<ModIndex>,
    n: int,
    path: TreePath,
    k: int,
)
    requires
        0 <= k < n,
        provides_dir(sources, priority[k], path),
    ensures
        dir_among(sources, priority, n, path),
    decreases n,
{
    if k < n - 1 {
        lemma_dir_is_among(sources, priority, n - 1, path, k);
    }
}

/// The directories of a merged tree are the root and the directories of the
/// mods that were merged.
pub proof fn lemma_merged_dirs(
    sources: Seq<ModSourceView>,
    priority: Seq<ModIndex>,
    n: int,
    path: TreePath,
)
    requires
        0 <= n <= priority.len(),
        forall|k: int| 0 <= k < priority.len() ==> 0 <= (#[trigger] priority[k]).0 < sources.len(),
        forall|k: int|
            0 <= k < sources.len() ==> entries_are_nested((#[trigger] sources[k]).entries)
                && names_are_distinct(sources[k].entries),
        merged_sources(sources, priority, n).is_ok(),
    ensures
        is_dir_at(merged_sources(sources, priority, n)->Ok_0, path) <==> (path == Seq::<
            Seq<char>,
        >::empty() || dir_among(sources, priority, n, path)),
    decreases n,
{
    if n > 0 {
        lemma_merged_dirs(sources, priority, n - 1, path);
        let before = merged_sources(sources, priority, n - 1)->Ok_0;
        let source = sources[priority[n - 1].0 as int];
        let after = merged_sources(sources, priority, n)->Ok_0;
        assert(merged_entries(
            before,
            source.entries,
            source.entries.len() as int,
            priority[n - 1],
        ) == Ok::<Map<TreePath, PathKind>, MergeFault>(after));
        lemma_merged_entries_dirs(
            before,
            source.entries,
            source.entries.len() as int,
            priority[n - 1],
            path,
        );
    } else {
        assert(root_only().dom().contains(path) <==> path == Seq::<Seq<char>>::empty());
    }
}

/// Whether two of the first `n` mods of `priority` are at odds: one holds a
/// file at a path at which the other holds a directory.
pub open spec fn sources_clash(sources: Seq<ModSourceView>, priority: Seq<ModIndex>, n: int) -> bool {
    exists|path: TreePath, a: int, b: int|
        0 <= a < n && 0 <= b < n && #[trigger] provides(sources, priority[a], path)
            && #[trigger] provides_dir(sources, priority[b], path)
}

/// The merge succeeds exactly where no two mods are at odds.
///
/// Of listings that were read to their end: the merge of the first `n` mods
/// of `priority` gives a tree exactly if no path is a file in one of them
/// and a directory in another.
pub proof fn lemma_merge_succeeds(sources: Seq<ModSourceView>, priority: Seq<ModIndex>, n: int)
    requires
        0 <= n <= priority.len(),
        forall|k: int| 0 <= k < priority.len() ==> 0 <= (#[trigger] priority[k]).0 < sources.len(),
        forall|k: int|
            0 <= k < sources.len() ==> entries_are_nested((#[trigger] sources[k]).entries)
                && names_are_distinct(sources[k].entries) && sources[k].failure.is_none(),
    ensures
        merged_sources(sources, priority, n).is_ok() <==> !sources_clash(sources, priority, n),
    decreases n,
{
    if n > 0 {
        lemma_merge_succeeds(sources, priority, n - 1);
        let m = priority[n - 1];
        let source = sources[m.0 as int];
        let entries = source.entries;
        let len = entries.len() as int;
        if sources_clash(sources, priority, n - 1) {
            let (path, a, b) = choose|path: TreePath, a: int, b: int|
                0 <= a < n - 1 && 0 <= b < n - 1 && #[trigger] provides(sources, priority[a], path)
                    && #[trigger] provides_dir(sources, priority[b], path);
            assert(0 <= a < n && 0 <= b < n && provides(sources, priority[a], path)
                && provides_dir(sources, priority[b], path));
        } else {
            let before = merged_sources(sources, priority, n - 1)->Ok_0;
            lemma_entries_merge(before, entries, len, m);
            assert(merged_sources(sources, priority, n).is_ok() == entries_fit(
                before,
                entries,
                len,
            ));
            if sources_clash(sources, priority, n) {
                let (path, a, b) = choose|path: TreePath, a: int, b: int|
                    0 <= a < n && 0 <= b < n && #[trigger] provides(sources, priority[a], path)
                        && #[trigger] provides_dir(sources, priority[b], path);
                if a < n - 1 && b < n - 1 {
                    assert(sources_clash(sources, priority, n - 1));
                } else if a == n - 1 && b == n - 1 {
                    let i = choose|i: int|
                        0 <= i < len && #[trigger] entry_path(entries, i) == path
                            && !entries[i].is_dir;
                    let j = choose|j: int|
                        0 <= j < len && #[trigger] entry_path(entries, j) == path
                            && entries[j].is_dir;
                    if i < j {
                        lemma_entry_paths_differ(entries, i, j);
                    } else {
                        lemma_entry_paths_differ(entries, j, i);
                    }
                } else if a == n - 1 {
                    let i = choose|i: int|
                        0 <= i < len && #[trigger] entry_path(entries, i) == path
                            && !entries[i].is_dir;
                    lemma_dir_is_among(sources, priority, n - 1, path, b);
                    lemma_merged_dirs(sources, priority, n - 1, path);
                    assert(clashes(before, entry_path(entries, i), entries[i].is_dir));
                } else {
                    let j = choose|j: int|
                        0 <= j < len && #[trigger] entry_path(entries, j) == path
                            && entries[j].is_dir;
                    lemma_providers_among(sources, priority, n - 1, path, priority[a]);
                    lemma_providers(sources, priority, n - 1, path);
                    assert(providers_among(sources, priority, n - 1, path).contains(priority[a]));
                    assert(clashes(before, entry_path(entries, j), entries[j].is_dir));
                }
            } else {
                assert forall|i: int| 0 <= i < len implies !clashes(
                    before,
                    #[trigger] entry_path(entries, i),
                    entries[i].is_dir,
                ) by {
                    let q = entry_path(entries, i);
                    if clashes(before, q, entries[i].is_dir) {
                        lemma_entry_path_shape(entries, i);
                        if entries[i].is_dir {
                            lemma_providers(sources, priority, n - 1, q);
                            let earlier = providers_among(sources, priority, n - 1, q);
                            lemma_providers_among(sources, priority, n - 1, q, earlier[0]);
                            assert(earlier.contains(earlier[0]));
                            let a = choose|a: int|
                                0 <= a < n - 1 && #[trigger] priority[a] == earlier[0];
                            assert(0 <= i < len && entry_path(entries, i) == q && entries[i].is_dir);
                            assert(provides(sources, priority[a], q) && provides_dir(
                                sources,
                                priority[n - 1],
                                q,
                            ));
                        } else {
                            lemma_merged_dirs(sources, priority, n - 1, q);
                            let b = lemma_dir_among(sources, priority, n - 1, q);
                            assert(0 <= i < len && entry_path(entries, i) == q && !entries[i].is_dir);
                            assert(provides(sources, priority[n - 1], q) && provides_dir(
                                sources,
                                priority[b],
                                q,
                            ));
                        }
                    }
                }
            }
        }
    } else {
        if sources_clash(sources, priority, n) {
            let (path, a, b) = choose|path: TreePath, a: int, b: int|
                0 <= a < n && 0 <= b < n && #[trigger] provides(sources, priority[a], path)
                    && #[trigger] provides_dir(sources, priority[b], path);
        }
    }
}

} // verus!
