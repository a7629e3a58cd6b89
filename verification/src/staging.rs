//! The plan by which a merged tree becomes a tree of directories and
//! symbolic links.

use vstd::prelude::*;
use vstd::string::*;
use crate::file_tree::tree::{FileTree, PathKind, TreeNodeKind, TreePath};
use crate::instance::{Instance, ModDeclaration, ModIndex, mod_dir, mod_dir_path};
use crate::text::{join_path, joined_path, names_view};

verus! {

/// One step of building the staging tree.
#[derive(Debug, Clone, PartialEq, Eq)]
pub enum StagingAction {
    /// Make the directory at `path`.
    Mkdir { path: String },
    /// Make a symbolic link at `link_path` that points to `source_path`.
    Symlink { source_path: String, link_path: String },
}

/// What a [`StagingAction`] says.
pub enum StagingActionView {
    Mkdir { path: Seq<char> },
    Symlink { source_path: Seq<char>, link_path: Seq<char> },
}

impl View for StagingAction {
    type V = StagingActionView;

    open spec fn view(&self) -> StagingActionView {
        match self {
            StagingAction::Mkdir { path } => StagingActionView::Mkdir { path: path@ },
            StagingAction::Symlink { source_path, link_path } => StagingActionView::Symlink {
                source_path: source_path@,
                link_path: link_path@,
            },
        }
    }
}

/// The path `base` extended by the names of `components`, one after the
/// other.
pub open spec fn path_under(base: Seq<char>, components: TreePath) -> Seq<char>
    decreases components.len(),
{
    if components.len() == 0 {
        base
    } else {
        joined_path(path_under(base, components.drop_last()), components.last())
    }
}

/// Extends the path `base` by the names of `components`, one after the
/// other.
pub fn extend_path(base: &str, components: &Vec<String>) -> (r: String)
    ensures
        r@ == path_under(base@, names_view(components@)),
{
    let mut r = String::from_str(base);
    let mut i: usize = 0;
    assert(names_view(components@).take(0) =~= Seq::<Seq<char>>::empty());
    while i < components.len()
        invariant
            i <= components@.len(),
            r@ == path_under(base@, names_view(components@).take(i as int)),
        decreases components@.len() - i,
    {
        proof {
            let upto = names_view(components@).take(i + 1);
            assert(upto.drop_last() =~= names_view(components@).take(i as int));
            assert(upto.last() == components@[i as int]@);
        }
        r = join_path(r.as_str(), components[i].as_str());
        i = i + 1;
    }
    assert(names_view(components@).take(i as int) =~= names_view(components@));
    r
}

/// Whether a node can be staged for a mod list of `mods_len` mods: a file
/// has a provider, and its first provider is a mod of the list.
pub open spec fn kind_fits(kind: PathKind, mods_len: nat) -> bool {
    match kind {
        PathKind::Dir => true,
        PathKind::File(providers) => providers.len() > 0 && providers[0].0 < mods_len,
    }
}

/// The step that stages the node of the given kind at `path`: a directory is
/// made below the staging directory; a file becomes a symbolic link there
/// that points to the file of its first provider, by the absolute path of
/// that file in the directory of the mod.
pub open spec fn action_for(
    kind: PathKind,
    path: TreePath,
    staging_dir: Seq<char>,
    instance_dir: Seq<char>,
    mods: Seq<ModDeclaration>,
) -> StagingActionView {
    match kind {
        PathKind::Dir => StagingActionView::Mkdir { path: path_under(staging_dir, path) },
        PathKind::File(providers) => StagingActionView::Symlink {
            source_path: path_under(
                mod_dir_path(instance_dir, mods[providers[0].0 as int].name@),
                path,
            ),
            link_path: path_under(staging_dir, path),
        },
    }
}

/// Whether each of `nodes` can be staged for a mod list of `mods_len` mods.
pub fn nodes_fit(tree: &FileTree, nodes: &Vec<nary_tree::NodeId>, mods_len: usize) -> (r: bool)
    requires
        tree.wf(),
        forall|i: int| 0 <= i < nodes@.len() ==> tree.contains(#[trigger] nodes@[i]),
    ensures
        r == forall|i: int|
            0 <= i < nodes@.len() ==> kind_fits(
                tree.node_view(#[trigger] nodes@[i]).kind,
                mods_len as nat,
            ),
{
    let mut i: usize = 0;
    while i < nodes.len()
        invariant
            i <= nodes@.len(),
            tree.wf(),
            forall|j: int| 0 <= j < nodes@.len() ==> tree.contains(#[trigger] nodes@[j]),
            forall|j: int|
                0 <= j < i ==> kind_fits(tree.node_view(#[trigger] nodes@[j]).kind, mods_len as nat),
        decreases nodes@.len() - i,
    {
        let fits = match tree.node(nodes[i]).kind() {
            TreeNodeKind::Dir => true,
            TreeNodeKind::File { providing_mods } => match providing_mods.first() {
                Some(provider) => provider.as_usize() < mods_len,
                None => false,
            },
        };
        if !fits {
            assert(!kind_fits(tree.node_view(nodes@[i as int]).kind, mods_len as nat));
            return false;
        }
        i = i + 1;
    }
    true
}

/// The steps that stage the given nodes of the tree below `staging_dir`, one
/// step for each node, in the order of the nodes.
pub fn plan_for_nodes<I: Instance>(
    tree: &FileTree,
    instance: &I,
    staging_dir: &str,
    nodes: &Vec<nary_tree::NodeId>,
) -> (r: Vec<StagingAction>)
    requires
        tree.wf(),
        instance.is_valid(),
        forall|i: int|
            0 <= i < nodes@.len() ==> tree.contains(#[trigger] nodes@[i]) && kind_fits(
                tree.node_view(nodes@[i]).kind,
                instance.mods_spec().len(),
            ),
    ensures
        r@.len() == nodes@.len(),
        forall|i: int|
            0 <= i < nodes@.len() ==> (#[trigger] r@[i])@ == action_for(
                tree.node_view(nodes@[i]).kind,
                tree.path_of(nodes@[i]),
                staging_dir@,
                instance.dir_spec(),
                instance.mods_spec(),
            ),
{
    let mods = instance.mods();
    let mut actions: Vec<StagingAction> = Vec::new();
    let mut i: usize = 0;
    while i < nodes.len()
        invariant
            i <= nodes@.len(),
            tree.wf(),
            instance.is_valid(),
            mods@ == instance.mods_spec(),
            actions@.len() == i,
            forall|j: int|
                0 <= j < nodes@.len() ==> tree.contains(#[trigger] nodes@[j]) && kind_fits(
                    tree.node_view(nodes@[j]).kind,
                    instance.mods_spec().len(),
                ),
            forall|j: int|
                0 <= j < i ==> (#[trigger] actions@[j])@ == action_for(
                    tree.node_view(nodes@[j]).kind,
                    tree.path_of(nodes@[j]),
                    staging_dir@,
                    instance.dir_spec(),
                    instance.mods_spec(),
                ),
        decreases nodes@.len() - i,
    {
        let id = nodes[i];
        let relative_path = tree.path(id);
        let staging_path = extend_path(staging_dir, &relative_path);
        let action = match tree.node(id).kind() {
            TreeNodeKind::Dir => StagingAction::Mkdir { path: staging_path },
            TreeNodeKind::File { providing_mods } => {
                let winner = match providing_mods.first() {
                    Some(provider) => provider,
                    None => ModIndex(0),
                };
                let provider = &mods[winner.as_usize()];
                let source_dir = mod_dir(instance, provider);
                StagingAction::Symlink {
                    source_path: extend_path(source_dir.as_str(), &relative_path),
                    link_path: staging_path,
                }
            },
        };
        actions.push(action);
        i = i + 1;
    }
    actions
}

/// The steps that build the staging tree of a merged tree below
/// `staging_dir`: one step for each node but the root, in the order of a
/// walk that visits a node before the nodes below it, so that a directory is
/// made before anything is put into it. The walk comes to every node of the
/// tree once. There is no plan where a file of the tree has no provider or a
/// first provider that the instance does not have.
pub fn plan_staging_tree<I: Instance>(tree: &FileTree, instance: &I, staging_dir: &str) -> (r:
    Option<Vec<StagingAction>>)
    requires
        tree.wf(),
        instance.is_valid(),
    ensures
        tree.walk_is_whole(),
        match r {
            Some(actions) => {
                &&& actions@.len() == tree.pre_order().len() - 1
                &&& forall|i: int|
                    1 <= i < tree.pre_order().len() ==> kind_fits(
                        tree.node_view_at(#[trigger] tree.pre_order()[i]).kind,
                        instance.mods_spec().len(),
                    )
                &&& forall|i: int|
                    0 <= i < actions@.len() ==> (#[trigger] actions@[i])@ == action_for(
                        tree.node_view_at(tree.pre_order()[i + 1]).kind,
                        tree.path_at(tree.pre_order()[i + 1]),
                        staging_dir@,
                        instance.dir_spec(),
                        instance.mods_spec(),
                    )
            },
            None => exists|i: int|
                1 <= i < tree.pre_order().len() && !kind_fits(
                    tree.node_view_at(#[trigger] tree.pre_order()[i]).kind,
                    instance.mods_spec().len(),
                ),
        },
{
    let mut nodes = tree.traverse_pre_order();
    let ghost all = nodes@;
    let _ = nodes.remove(0);
    assert forall|i: int| 0 <= i < nodes@.len() implies #[trigger] nodes@[i] == all[i + 1] by {}
    let mods = instance.mods();
    if nodes_fit(tree, &nodes, mods.len()) {
        let actions = plan_for_nodes(tree, instance, staging_dir, &nodes);
        proof {
            assert forall|i: int| 1 <= i < tree.pre_order().len() implies kind_fits(
                tree.node_view_at(#[trigger] tree.pre_order()[i]).kind,
                instance.mods_spec().len(),
            ) by {
                assert(nodes@[i - 1] == all[i]);
                assert(kind_fits(tree.node_view(nodes@[i - 1]).kind, mods@.len()));
            }
            assert forall|i: int| 0 <= i < actions@.len() implies (#[trigger] actions@[i])@
                == action_for(
                tree.node_view_at(tree.pre_order()[i + 1]).kind,
                tree.path_at(tree.pre_order()[i + 1]),
                staging_dir@,
                instance.dir_spec(),
                instance.mods_spec(),
            ) by {
                assert(nodes@[i] == all[i + 1]);
            }
        }
        Some(actions)
    } else {
        proof {
            let j = choose|j: int|
                0 <= j < nodes@.len() && !kind_fits(
                    tree.node_view(#[trigger] nodes@[j]).kind,
                    mods@.len(),
                );
            assert(nodes@[j] == all[j + 1]);
            assert(!kind_fits(
                tree.node_view_at(tree.pre_order()[j + 1]).kind,
                instance.mods_spec().len(),
            ));
        }
        None
    }
}

} // verus!
