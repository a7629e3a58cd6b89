//! The merge of the files of the enabled mods into one tree.

use vstd::prelude::*;
use vstd::string::*;
use crate::file_tree::source::{ModSource, ModSourceView, SourceEntryView, entry_path};
use crate::file_tree::tree::{FileTree, PathKind, TreePath, lemma_extended_twice, merged_entry};
use crate::instance::{Instance, ModDeclaration, ModIndex, ModOrderEntry};
use crate::instance::{active_mods, mods_by_priority};
use crate::text::names_view;

verus! {

/// What stands in the way of a merge.
pub enum MergeFault {
    /// The mod has a file where a directory stands, or a directory where a
    /// file stands.
    Conflict { path: TreePath, mod_index: ModIndex, is_dir: bool },
    /// The directory of the mod could not be read to its end.
    Unreadable { mod_index: ModIndex, message: Seq<char> },
}

/// The paths of a tree after the first `n` entries of a listing of the mod
/// `mod_index` were entered in their order, or the first fault that was met.
pub open spec fn merged_entries(
    view: Map<TreePath, PathKind>,
    entries: Seq<SourceEntryView>,
    n: int,
    mod_index: ModIndex,
) -> Result<Map<TreePath, PathKind>, MergeFault>
    decreases n,
{
    if n <= 0 {
        Ok(view)
    } else {
        match merged_entries(view, entries, n - 1, mod_index) {
            Ok(before) => match merged_entry(
                before,
                entry_path(entries, n - 1),
                entries[n - 1].is_dir,
                mod_index,
            ) {
                Some(after) => Ok(after),
                None => Err(
                    MergeFault::Conflict {
                        path: entry_path(entries, n - 1),
                        mod_index,
                        is_dir: entries[n - 1].is_dir,
                    },
                ),
            },
            Err(fault) => Err(fault),
        }
    }
}

/// The paths of a tree after the files of the mod `mod_index` were entered:
/// all entries of its listing, where the listing is whole.
pub open spec fn merged_source(
    view: Map<TreePath, PathKind>,
    source: ModSourceView,
    mod_index: ModIndex,
) -> Result<Map<TreePath, PathKind>, MergeFault> {
    match merged_entries(view, source.entries, source.entries.len() as int, mod_index) {
        Ok(after) => match source.failure {
            Some(message) => Err(MergeFault::Unreadable { mod_index, message }),
            None => Ok(after),
        },
        Err(fault) => Err(fault),
    }
}

/// The paths of the tree of the root alone.
pub open spec fn root_only() -> Map<TreePath, PathKind> {
    Map::<TreePath, PathKind>::empty().insert(Seq::empty(), PathKind::Dir)
}

/// The paths of the tree after the files of the first `n` mods of
/// `priority` were entered, the mod of highest priority first, or the first
/// fault that was met. The listing of a mod stands in `sources` at the mod's
/// index.
pub open spec fn merged_sources(
    sources: Seq<ModSourceView>,
    priority: Seq<ModIndex>,
    n: int,
) -> Result<Map<TreePath, PathKind>, MergeFault>
    decreases n,
{
    if n <= 0 {
        Ok(root_only())
    } else {
        match merged_sources(sources, priority, n - 1) {
            Ok(before) => merged_source(
                before,
                sources[priority[n - 1].0 as int],
                priority[n - 1],
            ),
            Err(fault) => Err(fault),
        }
    }
}

/// What the listings say.
pub open spec fn sources_view(sources: Seq<ModSource>) -> Seq<ModSourceView> {
    Seq::new(sources.len(), |i: int| sources[i]@)
}

/// A fault of a merge, before the mods that are party to it are known by
/// name.
#[derive(Debug, Clone, PartialEq, Eq)]
pub enum UnresolvedTreeBuildError {
    /// The directory of the mod could not be read to its end; the message
    /// says why.
    Io { mod_index: ModIndex, message: String },
    /// The mod has a file at the path where the tree has a directory, or a
    /// directory where the tree has a file.
    TypeMismatch { path: Vec<String>, mod_index: ModIndex, is_dir: bool },
}

impl View for UnresolvedTreeBuildError {
    type V = MergeFault;

    open spec fn view(&self) -> MergeFault {
        match self {
            UnresolvedTreeBuildError::Io { mod_index, message } => MergeFault::Unreadable {
                mod_index: *mod_index,
                message: message@,
            },
            UnresolvedTreeBuildError::TypeMismatch {
                path,
                mod_index,
                is_dir,
            } => MergeFault::Conflict {
                path: names_view(path@),
                mod_index: *mod_index,
                is_dir: *is_dir,
            },
        }
    }
}

/// Every mod that brings files with it is a mod of the mod list.
pub proof fn lemma_priority_in_range(mods: Seq<ModDeclaration>, order: Seq<ModOrderEntry>)
    ensures
        forall|i: int|
            0 <= i < mods_by_priority(mods, order).len() ==> (#[trigger] mods_by_priority(
                mods,
                order,
            )[i]).0 < mods.len(),
    decreases order.len(),
{
    if order.len() > 0 {
        lemma_priority_in_range(mods, order.drop_first());
        let later = mods_by_priority(mods, order.drop_first());
        let all = mods_by_priority(mods, order);
        assert forall|i: int| 0 <= i < all.len() implies (#[trigger] all[i]).0 < mods.len() by {
            if i < later.len() {
                assert(all[i] == later[i]);
            }
        }
    }
}

/// Enters the files of the mod `mod_index` into the tree, in the order of
/// the listing. The first entry that is a file where the tree has a
/// directory, or a directory where the tree has a file, ends the merge with
/// an error that names its path; so does, after the last entry, the failure
/// that ended the listing.
pub fn merge_source(tree: &mut FileTree, mod_index: ModIndex, source: &ModSource) -> (r: Result<
    (),
    UnresolvedTreeBuildError,
>)
    requires
        old(tree).wf(),
        source.wf(),
    ensures
        final(tree).wf(),
        old(tree).extended_by(final(tree)),
        match merged_source(old(tree)@, source@, mod_index) {
            Ok(view) => r.is_ok() && final(tree)@ == view,
            Err(fault) => (r matches Err(e) && e@ == fault),
        },
{
    let ghost start = *tree;
    let ghost entries = source@.entries;
    let mut nodes: Vec<nary_tree::NodeId> = Vec::new();
    let mut i: usize = 0;
    while i < source.len()
        invariant
            i <= entries.len(),
            entries == source@.entries,
            source.wf(),
            tree.wf(),
            start == *old(tree),
            start.extended_by(tree),
            nodes@.len() == i,
            forall|j: int|
                0 <= j < i ==> tree.contains(#[trigger] nodes@[j]) && tree.path_of(nodes@[j])
                    == entry_path(entries, j) && tree.node_view(nodes@[j]).kind is Dir
                    == entries[j].is_dir,
            merged_entries(start@, entries, i as int, mod_index) == Ok::<
                Map<TreePath, PathKind>,
                MergeFault,
            >(tree@),
        decreases entries.len() - i,
    {
        let ghost mid = *tree;
        let entry = source.entry(i);
        let parent = match entry.parent {
            Some(p) => {
                assert(entries[i as int].parent == Some(p as int));
                nodes[p]
            },
            None => tree.root(),
        };
        proof {
            assert(tree.path_of(parent).push(entry@.name) =~= entry_path(entries, i as int));
        }
        match tree.merge_entry(parent, mod_index, entry.name.as_str(), entry.is_dir) {
            Ok(node) => {
                nodes.push(node);
                proof {
                    lemma_extended_twice(&start, &mid, tree);
                    assert forall|j: int| 0 <= j < i + 1 implies tree.contains(
                        #[trigger] nodes@[j],
                    ) && tree.path_of(nodes@[j]) == entry_path(entries, j) && tree.node_view(
                        nodes@[j],
                    ).kind is Dir == entries[j].is_dir by {
                        if j < i {
                            assert(mid.contains(nodes@[j]));
                        }
                    }
                }
            },
            Err(_) => {
                let path = source.path_of_entry(i);
                proof {
                    lemma_extended_twice(&start, &mid, tree);
                    lemma_first_fault(start@, entries, i + 1, mod_index);
                }
                return Err(
                    UnresolvedTreeBuildError::TypeMismatch {
                        path,
                        mod_index,
                        is_dir: entry.is_dir,
                    },
                );
            },
        }
        i = i + 1;
    }
    match source.failure() {
        Some(message) => Err(UnresolvedTreeBuildError::Io { mod_index, message: message.clone() }),
        None => Ok(()),
    }
}

/// The fault of the first `n` entries is the fault of the listing.
proof fn lemma_first_fault(
    view: Map<TreePath, PathKind>,
    entries: Seq<SourceEntryView>,
    n: int,
    mod_index: ModIndex,
)
    requires
        0 <= n <= entries.len(),
        merged_entries(view, entries, n, mod_index).is_err(),
    ensures
        merged_entries(view, entries, entries.len() as int, mod_index) == merged_entries(
            view,
            entries,
            n,
            mod_index,
        ),
    decreases entries.len() - n,
{
    if n < entries.len() {
        lemma_first_fault(view, entries, n + 1, mod_index);
    }
}

/// The fault of the first `n` mods is the fault of all of them.
proof fn lemma_first_source_fault(sources: Seq<ModSourceView>, priority: Seq<ModIndex>, n: int)
    requires
        0 <= n <= priority.len(),
        merged_sources(sources, priority, n).is_err(),
    ensures
        merged_sources(sources, priority, priority.len() as int) == merged_sources(
            sources,
            priority,
            n,
        ),
    decreases priority.len() - n,
{
    if n < priority.len() {
        lemma_first_source_fault(sources, priority, n + 1);
    }
}

/// Builds a [`FileTree`] from all the enabled mods of the instance.
///
/// The mods that bring files with them are gone through from the highest
/// priority to the lowest, so that the providers of each file stand in that
/// order; the files of a mod are those of its listing, which stands in
/// `sources` at the index of the mod. The first fault that is met ends the
/// merge and is the error.
pub fn build_path_tree<I: Instance>(instance: &I, sources: &Vec<ModSource>) -> (r: Result<
    FileTree,
    UnresolvedTreeBuildError,
>)
    requires
        instance.is_valid(),
        sources@.len() == instance.mods_spec().len(),
        forall|i: int| 0 <= i < sources@.len() ==> (#[trigger] sources@[i]).wf(),
    ensures
        match merged_sources(
            sources_view(sources@),
            mods_by_priority(instance.mods_spec(), instance.mod_order_spec()),
            mods_by_priority(instance.mods_spec(), instance.mod_order_spec()).len() as int,
        ) {
            Ok(view) => (r matches Ok(tree) && tree.wf() && tree@ == view),
            Err(fault) => (r matches Err(e) && e@ == fault),
        },
{
    let priority = active_mods(instance);
    let ghost views = sources_view(sources@);
    proof {
        lemma_priority_in_range(instance.mods_spec(), instance.mod_order_spec());
    }
    let mut tree = FileTree::new();
    let mut i: usize = 0;
    while i < priority.len()
        invariant
            i <= priority@.len(),
            views == sources_view(sources@),
            priority@ == mods_by_priority(instance.mods_spec(), instance.mod_order_spec()),
            forall|k: int| 0 <= k < priority@.len() ==> (#[trigger] priority@[k]).0 < sources@.len(),
            forall|k: int| 0 <= k < sources@.len() ==> (#[trigger] sources@[k]).wf(),
            tree.wf(),
            merged_sources(views, priority@, i as int) == Ok::<Map<TreePath, PathKind>, MergeFault>(
                tree@,
            ),
        decreases priority@.len() - i,
    {
        let mod_index = priority[i];
        let source = &sources[mod_index.as_usize()];
        assert(views[mod_index.0 as int] == source@);
        match merge_source(&mut tree, mod_index, source) {
            Ok(()) => {},
            Err(e) => {
                proof {
                    lemma_first_source_fault(views, priority@, i + 1);
                }
                return Err(e);
            },
        }
        i = i + 1;
    }
    Ok(tree)
}

} // verus!
