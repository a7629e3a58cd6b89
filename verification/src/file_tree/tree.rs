//! The tree itself: an arena of nodes, each of which stands for one path.

use vstd::prelude::*;
use vstd::string::*;
use crate::file_tree::arena::{NodeState, append_child, keys_of, new_tree, node_children};
use crate::file_tree::arena::{node_data, node_key, node_parent, pre_order_ids, swap_node_data};
use crate::file_tree::arena::{comes_after, follows_parent, is_walk_from};
use crate::file_tree::arena::{tree_nodes, tree_pre_order};
use crate::file_tree::providers::ModVec;
use crate::instance::ModIndex;
use crate::text::{names_view, str_equal};

verus! {

/// The type of a node in a [`FileTree`].
#[derive(Debug, PartialEq, Eq)]
pub enum TreeNodeKind {
    /// Node representing a directory.
    Dir,
    /// Node representing a file.
    File {
        /// The mods that provide this file. The mods that appear first have
        /// higher priority.
        providing_mods: ModVec,
    },
}

/// What stands at a path of a [`FileTree`]: a directory, or a file with the
/// mods that provide it.
pub enum PathKind {
    Dir,
    File(Seq<ModIndex>),
}

impl View for TreeNodeKind {
    type V = PathKind;

    open spec fn view(&self) -> PathKind {
        match self {
            TreeNodeKind::Dir => PathKind::Dir,
            TreeNodeKind::File { providing_mods } => PathKind::File(providing_mods@),
        }
    }
}

/// A node of a [`FileTree`].
#[derive(Debug, PartialEq, Eq)]
pub struct TreeNode {
    name: String,
    kind: TreeNodeKind,
}

/// What a [`TreeNode`] says.
pub struct TreeNodeView {
    pub name: Seq<char>,
    pub kind: PathKind,
}

impl View for TreeNode {
    type V = TreeNodeView;

    closed spec fn view(&self) -> TreeNodeView {
        TreeNodeView { name: self.name@, kind: self.kind@ }
    }
}

impl TreeNode {
    /// The name of the file or directory.
    pub fn name(&self) -> (r: &String)
        ensures
            r@ == self@.name,
    {
        &self.name
    }

    /// Whether the node is a directory or a file, and which mods provide the
    /// file.
    pub fn kind(&self) -> (r: &TreeNodeKind)
        ensures
            r@ == self@.kind,
    {
        &self.kind
    }
}

/// A path below the root of a tree: the names of the directories that lead
/// to a node, and the node's own name.
pub type TreePath = Seq<Seq<char>>;

/// A tree representing the combination of files from multiple mods.
///
/// Each node in the tree that represents a file contains the list of mods
/// that provide that file, sorted from higher priority to lower.
pub struct FileTree {
    tree: nary_tree::Tree<TreeNode>,
    root: nary_tree::NodeId,
    paths: Ghost<Map<int, TreePath>>,
}

impl FileTree {
    /// The nodes of the tree.
    pub closed spec fn nodes(&self) -> Map<int, NodeState> {
        tree_nodes(self.tree)
    }

    /// Whether the tree holds the node.
    pub closed spec fn contains(&self, id: nary_tree::NodeId) -> bool {
        self.nodes().dom().contains(node_key(id))
    }

    /// The path that a node of the tree stands for. The root stands for the
    /// empty path.
    pub closed spec fn path_of(&self, id: nary_tree::NodeId) -> TreePath {
        self.paths@[node_key(id)]
    }

    /// What a node of the tree says.
    pub closed spec fn node_view(&self, id: nary_tree::NodeId) -> TreeNodeView {
        self.nodes()[node_key(id)].data@
    }

    /// What the node with the number `key` says.
    pub closed spec fn node_view_at(&self, key: int) -> TreeNodeView {
        self.nodes()[key].data@
    }

    /// The path that the node with the number `key` stands for.
    pub closed spec fn path_at(&self, key: int) -> TreePath {
        self.paths@[key]
    }

    /// The nodes of the tree, by the numbers of their handles, in the order
    /// of a walk that visits a node before the nodes below it, the root
    /// first.
    pub closed spec fn pre_order(&self) -> Seq<int> {
        tree_pre_order(self.tree, node_key(self.root))
    }

    /// Whether `path` is the path of a node.
    pub closed spec fn has_path(&self, path: TreePath) -> bool {
        exists|k: int| self.nodes().dom().contains(k) && #[trigger] self.paths@[k] == path
    }

    /// The node whose path is `path`.
    pub closed spec fn key_at(&self, path: TreePath) -> int {
        choose|k: int| self.nodes().dom().contains(k) && #[trigger] self.paths@[k] == path
    }

    /// Whether the tree is in order: each node stands for one path, that of
    /// the node above it and its own name; no two nodes stand for the same
    /// path; the root is the directory `.`; and a file has no nodes below
    /// it.
    pub closed spec fn wf(&self) -> bool {
        let nodes = self.nodes();
        let paths = self.paths@;
        let root = node_key(self.root);
        &&& nodes.dom().contains(root)
        &&& paths.dom() =~= nodes.dom()
        &&& paths[root] == Seq::<Seq<char>>::empty()
        &&& nodes[root].data@.kind is Dir
        &&& nodes[root].data@.name == "."@
        &&& nodes[root].parent.is_none()
        &&& forall|k: int, i: int|
            nodes.dom().contains(k) && 0 <= i < nodes[k].children.len() ==> {
                let c = #[trigger] nodes[k].children[i];
                &&& nodes.dom().contains(c)
                &&& c != root
                &&& nodes[c].parent == Some(k)
                &&& paths[c] == paths[k].push(nodes[c].data@.name)
            }
        &&& forall|k: int|
            nodes.dom().contains(k) && k != root ==> {
                &&& (#[trigger] nodes[k]).parent matches Some(p)
                &&& nodes.dom().contains(p)
                &&& exists|i: int| 0 <= i < nodes[p].children.len() && nodes[p].children[i] == k
            }
        &&& forall|j: int, k: int|
            nodes.dom().contains(j) && nodes.dom().contains(k) && #[trigger] paths[j]
                == #[trigger] paths[k] ==> j == k
        &&& forall|k: int|
            nodes.dom().contains(k) && (#[trigger] nodes[k]).data@.kind is File
                ==> nodes[k].children.len() == 0
    }

    /// The paths of the tree with what stands at them. The empty path is
    /// that of the root.
    pub closed spec fn view(&self) -> Map<TreePath, PathKind> {
        Map::new(|p: TreePath| self.has_path(p), |p: TreePath| self.nodes()[self.key_at(p)].data@.kind)
    }

    /// A tree with nothing in it but the root.
    pub fn new() -> (r: FileTree)
        ensures
            r.wf(),
            r@ == Map::<TreePath, PathKind>::empty().insert(Seq::empty(), PathKind::Dir),
            r.contains(r.root_id()),
    {
        let root = TreeNode { name: String::from_str("."), kind: TreeNodeKind::Dir };
        let (tree, id) = new_tree(root);
        let r = FileTree {
            tree,
            root: id,
            paths: Ghost(Map::<int, TreePath>::empty().insert(node_key(id), Seq::empty())),
        };
        proof {
            assert(r.nodes().dom().contains(node_key(id)));
            assert(r.wf());
            assert(r.has_path(Seq::empty())) by {
                assert(r.paths@[node_key(id)] == Seq::<Seq<char>>::empty());
            }
            assert(r@ =~= Map::<TreePath, PathKind>::empty().insert(Seq::empty(), PathKind::Dir));
        }
        r
    }

    /// The root of the tree.
    pub closed spec fn root_id(&self) -> nary_tree::NodeId {
        self.root
    }

    /// The root of the tree.
    pub fn root(&self) -> (r: nary_tree::NodeId)
        requires
            self.wf(),
        ensures
            r == self.root_id(),
            self.contains(r),
            self.path_of(r) == Seq::<Seq<char>>::empty(),
            self.node_view(r).kind is Dir,
            self.node_view(r).name == "."@,
    {
        self.root
    }

    /// A node of the tree.
    pub fn node(&self, id: nary_tree::NodeId) -> (r: &TreeNode)
        requires
            self.wf(),
            self.contains(id),
        ensures
            r@ == self.node_view(id),
            self@.dom().contains(self.path_of(id)),
            self@[self.path_of(id)] == r@.kind,
    {
        proof {
            self.lemma_node_at_path(id);
        }
        node_data(&self.tree, id)
    }

    /// A node stands at its path.
    pub proof fn lemma_node_at_path(&self, id: nary_tree::NodeId)
        requires
            self.wf(),
            self.contains(id),
        ensures
            self@.dom().contains(self.path_of(id)),
            self@[self.path_of(id)] == self.node_view(id).kind,
    {
        let k = node_key(id);
        assert(self.nodes().dom().contains(k) && self.paths@[k] == self.path_of(id));
        assert(self.has_path(self.path_of(id)));
        assert(self.key_at(self.path_of(id)) == k);
    }

    /// A node whose path continues that of `parent` by one name stands below
    /// `parent` and has that name.
    proof fn lemma_child_of(&self, parent: int, x: int)
        requires
            self.wf(),
            self.nodes().dom().contains(parent),
            self.nodes().dom().contains(x),
            self.paths@[x].len() > 0,
            self.paths@[x].drop_last() == self.paths@[parent],
        ensures
            exists|i: int|
                0 <= i < self.nodes()[parent].children.len() && self.nodes()[parent].children[i]
                    == x,
            self.nodes()[x].data@.name == self.paths@[x].last(),
    {
        let nodes = self.nodes();
        let paths = self.paths@;
        let root = node_key(self.root);
        assert(x != root);
        assert(nodes[x].parent is Some);
        let p = nodes[x].parent->Some_0;
        let i = choose|i: int| 0 <= i < nodes[p].children.len() && nodes[p].children[i] == x;
        let c = nodes[p].children[i];
        assert(paths[c] == paths[p].push(nodes[c].data@.name));
        assert(paths[x].drop_last() =~= paths[p]);
        assert(p == parent);
    }

    /// The nodes below a node, by the numbers of their handles, from the
    /// first that was added to the last.
    pub closed spec fn child_keys(&self, id: nary_tree::NodeId) -> Seq<int> {
        self.nodes()[node_key(id)].children
    }

    /// The nodes below a node, from the first that was added to the last.
    pub fn children(&self, id: nary_tree::NodeId) -> (r: Vec<nary_tree::NodeId>)
        requires
            self.wf(),
            self.contains(id),
        ensures
            keys_of(r@) == self.child_keys(id),
            forall|i: int|
                0 <= i < r@.len() ==> self.contains(#[trigger] r@[i]) && self.path_of(r@[i])
                    == self.path_of(id).push(self.node_view(r@[i]).name),
            forall|path: TreePath|
                #![trigger self@.dom().contains(path)]
                self@.dom().contains(path) && path.len() > 0 && path.drop_last() == self.path_of(
                    id,
                ) ==> exists|i: int| 0 <= i < r@.len() && self.path_of(#[trigger] r@[i]) == path,
            self.node_view(id).kind is File ==> r@.len() == 0,
    {
        let r = node_children(&self.tree, id);
        proof {
            let k = node_key(id);
            let nodes = self.nodes();
            assert(keys_of(r@) =~= self.child_keys(id));
            assert forall|i: int| 0 <= i < r@.len() implies self.contains(#[trigger] r@[i])
                && self.path_of(r@[i]) == self.path_of(id).push(self.node_view(r@[i]).name) by {
                let c = nodes[k].children[i];
                assert(node_key(r@[i]) == c);
            }
            assert forall|path: TreePath|
                #![trigger self@.dom().contains(path)]
                self@.dom().contains(path) && path.len() > 0 && path.drop_last() == self.path_of(
                    id,
                ) implies exists|i: int|
                0 <= i < r@.len() && self.path_of(#[trigger] r@[i]) == path by {
                assert(self.has_path(path));
                let x = self.key_at(path);
                self.lemma_child_of(k, x);
                let i = choose|i: int| 0 <= i < nodes[k].children.len() && nodes[k].children[i] == x;
                assert(node_key(r@[i]) == x);
                assert(self.path_of(r@[i]) == path);
            }
        }
        r
    }

    /// The node below `parent` that is called `name`.
    pub fn find_child_with_name(&self, parent: nary_tree::NodeId, name: &str) -> (r: Option<
        nary_tree::NodeId,
    >)
        requires
            self.wf(),
            self.contains(parent),
        ensures
            match r {
                Some(c) => self.contains(c) && self.path_of(c) == self.path_of(parent).push(name@),
                None => !self@.dom().contains(self.path_of(parent).push(name@)),
            },
    {
        let children = self.children(parent);
        let ghost path = self.path_of(parent).push(name@);
        let mut i: usize = 0;
        while i < children.len()
            invariant
                i <= children@.len(),
                self.wf(),
                path == self.path_of(parent).push(name@),
                forall|j: int|
                    0 <= j < children@.len() ==> self.contains(#[trigger] children@[j])
                        && self.path_of(children@[j]) == self.path_of(parent).push(
                        self.node_view(children@[j]).name,
                    ),
                forall|j: int| 0 <= j < i ==> self.node_view(#[trigger] children@[j]).name != name@,
            decreases children@.len() - i,
        {
            let child = children[i];
            if str_equal(self.node(child).name().as_str(), name) {
                return Some(child);
            }
            i = i + 1;
        }
        proof {
            if self@.dom().contains(path) {
                assert(path.drop_last() =~= self.path_of(parent));
                let j = choose|j: int|
                    0 <= j < children@.len() && self.path_of(#[trigger] children@[j]) == path;
                assert(self.path_of(children@[j]) == self.path_of(parent).push(
                    self.node_view(children@[j]).name,
                ));
                assert(path.last() == name@);
                assert(self.path_of(children@[j]).last() == self.node_view(children@[j]).name);
            }
        }
        None
    }

    /// Whether `later` is this tree after nodes were added or files got more
    /// providers: every node is still there, at its path and under its name,
    /// and is a directory as before or a file as before.
    pub open spec fn extended_by(&self, later: &FileTree) -> bool {
        &&& later.root_id() == self.root_id()
        &&& forall|id: nary_tree::NodeId|
            #![trigger later.contains(id)]
            #![trigger later.path_of(id)]
            #![trigger later.node_view(id)]
            self.contains(id) ==> {
                &&& later.contains(id)
                &&& later.path_of(id) == self.path_of(id)
                &&& later.node_view(id).name == self.node_view(id).name
                &&& later.node_view(id).kind is Dir == self.node_view(id).kind is Dir
            }
    }

    /// Adds a node called `name` below the directory `parent`, which has no
    /// such node yet.
    fn add_node(&mut self, parent: nary_tree::NodeId, name: &str, kind: TreeNodeKind) -> (r:
        nary_tree::NodeId)
        requires
            old(self).wf(),
            old(self).contains(parent),
            old(self).node_view(parent).kind is Dir,
            !old(self)@.dom().contains(old(self).path_of(parent).push(name@)),
        ensures
            final(self).wf(),
            final(self).contains(r),
            !old(self).contains(r),
            final(self).path_of(r) == old(self).path_of(parent).push(name@),
            final(self).node_view(r) == (TreeNodeView { name: name@, kind: kind@ }),
            final(self)@ == old(self)@.insert(old(self).path_of(parent).push(name@), kind@),
            old(self).extended_by(final(self)),
            forall|id: nary_tree::NodeId|
                old(self).contains(id) ==> final(self).node_view(id) == old(self).node_view(id),
    {
        let ghost before = *self;
        let ghost path = self.path_of(parent).push(name@);
        let ghost pk = node_key(parent);
        let data = TreeNode { name: String::from_str(name), kind };
        let ghost data_view = data@;
        let id = append_child(&mut self.tree, parent, data);
        let ghost ck = node_key(id);
        proof {
            self.paths = Ghost(self.paths@.insert(ck, path));
        }
        proof {
            let old_nodes = before.nodes();
            let old_paths = before.paths@;
            let nodes = self.nodes();
            let paths = self.paths@;
            let root = node_key(self.root);
            assert(ck != pk);
            assert(ck != root);
            assert(nodes.dom() =~= old_nodes.dom().insert(ck));
            assert(paths.dom() =~= nodes.dom());
            assert forall|k: int| old_nodes.dom().contains(k) implies #[trigger] nodes[k].data
                == old_nodes[k].data && nodes[k].parent == old_nodes[k].parent && paths[k]
                == old_paths[k] by {}
            assert forall|k: int| old_nodes.dom().contains(k) implies old_paths[k] != path by {
                if old_paths[k] == path {
                    assert(before.has_path(path));
                }
            }
            assert forall|k: int, i: int|
                nodes.dom().contains(k) && 0 <= i < nodes[k].children.len() implies {
                let c = #[trigger] nodes[k].children[i];
                &&& nodes.dom().contains(c)
                &&& c != root
                &&& nodes[c].parent == Some(k)
                &&& paths[c] == paths[k].push(nodes[c].data@.name)
            } by {
                if k == pk {
                    if i < old_nodes[pk].children.len() {
                        let c = old_nodes[pk].children[i];
                        assert(nodes[k].children[i] == c);
                        assert(old_nodes.dom().contains(c));
                    } else {
                        assert(nodes[k].children[i] == ck);
                    }
                } else if k == ck {
                } else {
                    let c = old_nodes[k].children[i];
                    assert(nodes[k].children[i] == c);
                    assert(old_nodes.dom().contains(c));
                }
            }
            assert forall|k: int| nodes.dom().contains(k) && k != root implies {
                &&& (#[trigger] nodes[k]).parent matches Some(p)
                &&& nodes.dom().contains(p)
                &&& exists|i: int| 0 <= i < nodes[p].children.len() && nodes[p].children[i] == k
            } by {
                if k == ck {
                    let i = old_nodes[pk].children.len() as int;
                    assert(nodes[pk].children[i] == ck);
                } else {
                    assert(old_nodes[k].parent is Some);
                    let p = old_nodes[k].parent->Some_0;
                    let i = choose|i: int|
                        0 <= i < old_nodes[p].children.len() && old_nodes[p].children[i] == k;
                    assert(nodes[p].children[i] == k);
                }
            }
            assert forall|k: int|
                nodes.dom().contains(k) && (#[trigger] nodes[k]).data@.kind is File
                    implies nodes[k].children.len() == 0 by {
                if k == pk {
                    assert(old_nodes[pk].data@.kind is Dir);
                } else if k != ck {
                    assert(old_nodes[k].data@.kind is File);
                }
            }
            assert(self.wf());
            assert forall|p: TreePath| self.has_path(p) <==> (before.has_path(p) || p == path) by {
                if before.has_path(p) {
                    let k = before.key_at(p);
                    assert(nodes.dom().contains(k) && paths[k] == p);
                }
                if p == path {
                    assert(nodes.dom().contains(ck) && paths[ck] == p);
                }
                if self.has_path(p) {
                    let k = self.key_at(p);
                    if k != ck {
                        assert(old_nodes.dom().contains(k) && old_paths[k] == p);
                    }
                }
            }
            assert forall|p: TreePath| self.has_path(p) implies #[trigger] self@[p]
                == before@.insert(path, kind@)[p] by {
                let k = self.key_at(p);
                if p == path {
                    assert(nodes.dom().contains(ck) && paths[ck] == p);
                    assert(k == ck);
                } else {
                    assert(old_nodes.dom().contains(k) && old_paths[k] == p);
                    assert(before.key_at(p) == k);
                }
            }
            assert(self@ =~= before@.insert(path, kind@));
        }
        id
    }

    /// Adds `mod_index` as the last provider of the file `id`.
    fn add_provider(&mut self, id: nary_tree::NodeId, mod_index: ModIndex)
        requires
            old(self).wf(),
            old(self).contains(id),
            old(self).node_view(id).kind is File,
        ensures
            final(self).wf(),
            final(self)@ == old(self)@.insert(
                old(self).path_of(id),
                PathKind::File(old(self).node_view(id).kind->File_0.push(mod_index)),
            ),
            old(self).extended_by(final(self)),
            forall|other: nary_tree::NodeId|
                old(self).contains(other) && node_key(other) != node_key(id)
                    ==> final(self).node_view(other) == old(self).node_view(other),
            final(self).node_view(id) == (TreeNodeView {
                name: old(self).node_view(id).name,
                kind: PathKind::File(old(self).node_view(id).kind->File_0.push(mod_index)),
            }),
    {
        let ghost before = *self;
        let ghost k = node_key(id);
        let ghost path = self.path_of(id);
        let mut data = TreeNode { name: String::new(), kind: TreeNodeKind::Dir };
        swap_node_data(&mut self.tree, id, &mut data);
        let TreeNode { name, kind } = data;
        let kind = match kind {
            TreeNodeKind::File { providing_mods } => {
                let mut providing_mods = providing_mods;
                providing_mods.push(mod_index);
                TreeNodeKind::File { providing_mods }
            },
            TreeNodeKind::Dir => TreeNodeKind::Dir,
        };
        let mut data = TreeNode { name, kind };
        let ghost new_view = data@;
        swap_node_data(&mut self.tree, id, &mut data);
        proof {
            let old_nodes = before.nodes();
            let nodes = self.nodes();
            let paths = self.paths@;
            let root = node_key(self.root);
            assert(k != root);
            assert(nodes.dom() =~= old_nodes.dom());
            assert(nodes[k].data@ == new_view);
            assert(nodes[k].children == old_nodes[k].children);
            assert(nodes[k].parent == old_nodes[k].parent);
            assert forall|j: int| old_nodes.dom().contains(j) && j != k implies #[trigger] nodes[j]
                == old_nodes[j] by {}
            assert forall|j: int, i: int|
                nodes.dom().contains(j) && 0 <= i < nodes[j].children.len() implies {
                let c = #[trigger] nodes[j].children[i];
                &&& nodes.dom().contains(c)
                &&& c != root
                &&& nodes[c].parent == Some(j)
                &&& paths[c] == paths[j].push(nodes[c].data@.name)
            } by {
                let c = old_nodes[j].children[i];
                assert(nodes[j].children[i] == c);
                assert(old_nodes.dom().contains(c));
                assert(nodes[c].data@.name == old_nodes[c].data@.name);
            }
            assert forall|j: int| nodes.dom().contains(j) && j != root implies {
                &&& (#[trigger] nodes[j]).parent matches Some(p)
                &&& nodes.dom().contains(p)
                &&& exists|i: int| 0 <= i < nodes[p].children.len() && nodes[p].children[i] == j
            } by {
                assert(old_nodes[j].parent is Some);
                let p = old_nodes[j].parent->Some_0;
                let i = choose|i: int|
                    0 <= i < old_nodes[p].children.len() && old_nodes[p].children[i] == j;
                assert(nodes[p].children[i] == j);
            }
            assert forall|j: int|
                nodes.dom().contains(j) && (#[trigger] nodes[j]).data@.kind is File
                    implies nodes[j].children.len() == 0 by {
                if j != k {
                    assert(old_nodes[j].data@.kind is File);
                }
            }
            assert(self.wf());
            assert forall|p: TreePath| self.has_path(p) <==> before.has_path(p) by {
                if before.has_path(p) {
                    let j = before.key_at(p);
                    assert(nodes.dom().contains(j) && paths[j] == p);
                }
                if self.has_path(p) {
                    let j = self.key_at(p);
                    assert(old_nodes.dom().contains(j) && paths[j] == p);
                }
            }
            assert(before.has_path(path)) by {
                assert(old_nodes.dom().contains(k) && paths[k] == path);
            }
            assert forall|p: TreePath| self.has_path(p) implies #[trigger] self@[p]
                == before@.insert(path, new_view.kind)[p] by {
                let j = self.key_at(p);
                assert(old_nodes.dom().contains(j) && paths[j] == p);
                assert(before.key_at(p) == j);
            }
            assert(self@ =~= before@.insert(path, new_view.kind));
        }
    }

    /// Enters into the tree that the mod `mod_index` has an entry called
    /// `name` in the directory `parent`: a file where `is_dir` is false, else
    /// a directory.
    ///
    /// Where no node stands for the entry, one is added; a file is provided
    /// by the mod. Where a file stands for it and the entry is a file, the
    /// mod becomes its last provider. Where a directory stands for it and the
    /// entry is a directory, nothing changes. Where one is a file and the
    /// other a directory, the tree stays as it is and the node that stands in
    /// the way is the error.
    pub fn merge_entry(
        &mut self,
        parent: nary_tree::NodeId,
        mod_index: ModIndex,
        name: &str,
        is_dir: bool,
    ) -> (r: Result<nary_tree::NodeId, nary_tree::NodeId>)
        requires
            old(self).wf(),
            old(self).contains(parent),
            old(self).node_view(parent).kind is Dir,
        ensures
            final(self).wf(),
            old(self).extended_by(final(self)),
            match merged_entry(
                old(self)@,
                old(self).path_of(parent).push(name@),
                is_dir,
                mod_index,
            ) {
                Some(view) => final(self)@ == view && r.is_ok() && final(self).contains(r.unwrap())
                    && final(self).path_of(r.unwrap()) == old(self).path_of(parent).push(name@)
                    && final(self).node_view(r.unwrap()).kind is Dir == is_dir,
                None => final(self)@ == old(self)@ && r.is_err() && old(self).contains(
                    r.unwrap_err(),
                ) && old(self).path_of(r.unwrap_err()) == old(self).path_of(parent).push(name@),
            },
    {
        let ghost path = self.path_of(parent).push(name@);
        match self.find_child_with_name(parent, name) {
            Some(child) => {
                proof {
                    self.lemma_node_at_path(child);
                }
                let existing_is_dir = match self.node(child).kind() {
                    TreeNodeKind::Dir => true,
                    TreeNodeKind::File { .. } => false,
                };
                if existing_is_dir != is_dir {
                    Err(child)
                } else {
                    if !is_dir {
                        self.add_provider(child, mod_index);
                    }
                    Ok(child)
                }
            },
            None => {
                let kind = if is_dir {
                    TreeNodeKind::Dir
                } else {
                    TreeNodeKind::File { providing_mods: ModVec::one(mod_index) }
                };
                let id = self.add_node(parent, name, kind);
                Ok(id)
            },
        }
    }
}

/// The paths of a tree after one entry of a mod was entered at `path`, or
/// nothing where the entry and what stands at the path are a file and a
/// directory.
pub open spec fn merged_entry(
    view: Map<TreePath, PathKind>,
    path: TreePath,
    is_dir: bool,
    mod_index: ModIndex,
) -> Option<Map<TreePath, PathKind>> {
    if !view.dom().contains(path) {
        if is_dir {
            Some(view.insert(path, PathKind::Dir))
        } else {
            Some(view.insert(path, PathKind::File(seq![mod_index])))
        }
    } else {
        match view[path] {
            PathKind::Dir => if is_dir {
                Some(view)
            } else {
                None
            },
            PathKind::File(providers) => if is_dir {
                None
            } else {
                Some(view.insert(path, PathKind::File(providers.push(mod_index))))
            },
        }
    }
}

/// What was added to a tree twice over was added to it.
pub proof fn lemma_extended_twice(a: &FileTree, b: &FileTree, c: &FileTree)
    requires
        a.extended_by(b),
        b.extended_by(c),
    ensures
        a.extended_by(c),
{
    assert forall|id: nary_tree::NodeId| a.contains(id) implies {
        &&& c.contains(id)
        &&& c.path_of(id) == a.path_of(id)
        &&& c.node_view(id).name == a.node_view(id).name
        &&& c.node_view(id).kind is Dir == a.node_view(id).kind is Dir
    } by {
        assert(b.contains(id));
    }
}

impl FileTree {
    /// The names that lead from the root to a node, the node's own name
    /// last.
    pub fn path(&self, id: nary_tree::NodeId) -> (r: Vec<String>)
        requires
            self.wf(),
            self.contains(id),
        ensures
            names_view(r@) == self.path_of(id),
    {
        let mut path: Vec<String> = Vec::new();
        let mut current = id;
        assert(self.path_of(current) + names_view(path@) =~= self.path_of(id));
        loop
            invariant
                self.wf(),
                self.contains(current),
                self.path_of(current) + names_view(path@) == self.path_of(id),
            ensures
                names_view(path@) == self.path_of(id),
            decreases self.path_of(current).len(),
        {
            let ghost k = node_key(current);
            let ghost before = names_view(path@);
            match node_parent(&self.tree, current) {
                Some(parent) => {
                    proof {
                        let nodes = self.nodes();
                        let p = node_key(parent);
                        assert(nodes[k].parent == Some(p));
                        assert(k != node_key(self.root));
                        let i = choose|i: int|
                            0 <= i < nodes[p].children.len() && nodes[p].children[i] == k;
                        let c = nodes[p].children[i];
                        assert(self.paths@[c] == self.paths@[p].push(nodes[c].data@.name));
                    }
                    let name = node_data(&self.tree, current).name().clone();
                    path.insert(0, name);
                    proof {
                        assert(names_view(path@) =~= seq![name@] + before);
                        assert(self.path_of(parent) + names_view(path@) =~= self.path_of(current)
                            + before);
                    }
                    current = parent;
                },
                None => {
                    proof {
                        assert(k == node_key(self.root));
                        assert(self.path_of(current) + names_view(path@) =~= names_view(path@));
                    }
                    break ;
                },
            }
        }
        path
    }

    /// Whether the walk through the tree leaves nothing out and is in
    /// order: every path of the tree is the path of a node of the walk; no
    /// two nodes of the walk have one path; and each node but the first
    /// comes behind the node of the directory that holds it.
    pub open spec fn walk_is_whole(&self) -> bool {
        let walk = self.pre_order();
        &&& forall|p: TreePath| #[trigger]
            self@.dom().contains(p) ==> exists|i: int|
                0 <= i < walk.len() && self.path_at(#[trigger] walk[i]) == p
        &&& forall|i: int, j: int|
            0 <= i < j < walk.len() ==> self.path_at(#[trigger] walk[i]) != self.path_at(
                #[trigger] walk[j],
            )
        &&& forall|i: int|
            1 <= i < walk.len() ==> self.path_at(#[trigger] walk[i]).len() > 0 && exists|j: int|
                0 <= j < i && self.path_at(#[trigger] walk[j]) == self.path_at(walk[i]).drop_last()
    }

    /// A walk from the root downwards comes to every node.
    proof fn lemma_walk_visits(&self, walk: Seq<int>, k: int)
        requires
            self.wf(),
            is_walk_from(self.nodes(), node_key(self.root), walk),
            self.nodes().dom().contains(k),
        ensures
            exists|i: int| 0 <= i < walk.len() && #[trigger] walk[i] == k,
        decreases self.paths@[k].len(),
    {
        let nodes = self.nodes();
        let paths = self.paths@;
        let root = node_key(self.root);
        if k == root {
            assert(walk[0] == k);
        } else {
            let p = nodes[k].parent->Some_0;
            let c = choose|c: int| 0 <= c < nodes[p].children.len() && nodes[p].children[c] == k;
            assert(nodes[p].children[c] == k);
            assert(paths[k] == paths[p].push(nodes[k].data@.name));
            self.lemma_walk_visits(walk, p);
            let i = choose|i: int| 0 <= i < walk.len() && #[trigger] walk[i] == p;
            assert(comes_after(walk, i, nodes[walk[i]].children[c]));
        }
    }

    /// A walk from the root downwards leaves nothing out and is in order.
    proof fn lemma_walk_is_whole(&self)
        requires
            self.wf(),
            is_walk_from(self.nodes(), node_key(self.root), self.pre_order()),
        ensures
            self.walk_is_whole(),
    {
        let nodes = self.nodes();
        let paths = self.paths@;
        let walk = self.pre_order();
        assert forall|p: TreePath| #[trigger] self@.dom().contains(p) implies exists|i: int|
            0 <= i < walk.len() && self.path_at(#[trigger] walk[i]) == p by {
            assert(self.has_path(p));
            let k = self.key_at(p);
            self.lemma_walk_visits(walk, k);
            let i = choose|i: int| 0 <= i < walk.len() && #[trigger] walk[i] == k;
            assert(self.path_at(walk[i]) == p);
        }
        assert forall|i: int, j: int| 0 <= i < j < walk.len() implies self.path_at(
            #[trigger] walk[i],
        ) != self.path_at(#[trigger] walk[j]) by {
            assert(nodes.dom().contains(walk[i]) && nodes.dom().contains(walk[j]));
            assert(walk[i] != walk[j]);
        }
        assert forall|i: int| 1 <= i < walk.len() implies self.path_at(#[trigger] walk[i]).len()
            > 0 && exists|j: int|
            0 <= j < i && self.path_at(#[trigger] walk[j]) == self.path_at(walk[i]).drop_last() by {
            assert(follows_parent(nodes, walk, i));
            let j = choose|j: int| 0 <= j < i && (#[trigger] nodes[walk[j]]).children.contains(walk[i]);
            let k = walk[j];
            assert(nodes.dom().contains(k));
            let c = choose|c: int| 0 <= c < nodes[k].children.len() && nodes[k].children[c] == walk[i];
            assert(nodes[k].children[c] == walk[i]);
            assert(paths[walk[i]] == paths[k].push(nodes[walk[i]].data@.name));
            assert(paths[walk[i]].drop_last() =~= paths[k]);
            assert(self.path_at(walk[j]) == self.path_at(walk[i]).drop_last());
        }
    }

    /// The nodes of the tree in the order of a walk that visits a node
    /// before the nodes below it, the root first. The walk comes to every
    /// node once.
    pub fn traverse_pre_order(&self) -> (r: Vec<nary_tree::NodeId>)
        requires
            self.wf(),
        ensures
            r@.len() == self.pre_order().len(),
            r@.len() >= 1,
            node_key(r@[0]) == node_key(self.root_id()),
            forall|i: int|
                0 <= i < r@.len() ==> node_key(#[trigger] r@[i]) == self.pre_order()[i]
                    && self.contains(r@[i]) && self.node_view(r@[i]) == self.node_view_at(
                    self.pre_order()[i],
                ) && self.path_of(r@[i]) == self.path_at(self.pre_order()[i]),
            self.walk_is_whole(),
    {
        let r = pre_order_ids(&self.tree, self.root);
        proof {
            assert(keys_of(r@) =~= self.pre_order());
            self.lemma_walk_is_whole();
        }
        r
    }
}

/// Specifies what files are displayed when a tree is shown.
#[derive(Copy, Clone, Debug, PartialEq, Eq, Structural)]
pub enum FileTreeDisplayKind {
    /// Show all files.
    All,
    /// Only show files provided by multiple mods.
    Conflicts,
}

/// Whether a node is a file that more than one mod provides.
pub open spec fn is_contested(node: TreeNodeView) -> bool {
    node.kind matches PathKind::File(providers) && providers.len() > 1
}

impl FileTree {
    /// The nodes from the node with the number `key` on, by the numbers of
    /// their handles, in the order of a walk that visits a node before the
    /// nodes below it.
    pub closed spec fn subtree(&self, key: int) -> Seq<int> {
        tree_pre_order(self.tree, key)
    }

    /// Whether a file that more than one mod provides is met on the walk
    /// from the node with the number `key` on.
    pub open spec fn has_conflict(&self, key: int) -> bool {
        exists|i: int|
            0 <= i < self.subtree(key).len() && is_contested(
                self.node_view_at(#[trigger] self.subtree(key)[i]),
            )
    }

    /// Those of the nodes `keys` that are shown, in their order: all of them,
    /// or those of them from which on a file is met that more than one mod
    /// provides.
    pub open spec fn shown(&self, keys: Seq<int>, kind: FileTreeDisplayKind) -> Seq<int>
        decreases keys.len(),
    {
        if keys.len() == 0 {
            Seq::empty()
        } else {
            let before = self.shown(keys.drop_last(), kind);
            if kind == FileTreeDisplayKind::All || self.has_conflict(keys.last()) {
                before.push(keys.last())
            } else {
                before
            }
        }
    }

    /// Whether a file that more than one mod provides is met on the walk
    /// from `id` on: the node itself, where it is a file.
    pub fn has_conflicts(&self, id: nary_tree::NodeId) -> (r: bool)
        requires
            self.wf(),
            self.contains(id),
        ensures
            r == self.has_conflict(node_key(id)),
    {
        let ghost key = node_key(id);
        let nodes = pre_order_ids(&self.tree, id);
        let mut i: usize = 0;
        while i < nodes.len()
            invariant
                i <= nodes@.len(),
                self.wf(),
                key == node_key(id),
                nodes@.len() == self.subtree(key).len(),
                forall|j: int|
                    0 <= j < nodes@.len() ==> node_key(#[trigger] nodes@[j]) == self.subtree(
                        key,
                    )[j] && self.contains(nodes@[j]),
                forall|j: int|
                    0 <= j < i ==> !is_contested(
                        self.node_view_at(#[trigger] self.subtree(key)[j]),
                    ),
            decreases nodes@.len() - i,
        {
            let contested = match node_data(&self.tree, nodes[i]).kind() {
                TreeNodeKind::Dir => false,
                TreeNodeKind::File { providing_mods } => providing_mods.len() > 1,
            };
            if contested {
                assert(is_contested(self.node_view_at(self.subtree(key)[i as int])));
                return true;
            }
            i = i + 1;
        }
        false
    }

    /// The nodes below `id` that are shown, in their order: all of them, or
    /// those of them from which on a file is met that more than one mod
    /// provides.
    pub fn visible_children(&self, id: nary_tree::NodeId, kind: FileTreeDisplayKind) -> (r: Vec<
        nary_tree::NodeId,
    >)
        requires
            self.wf(),
            self.contains(id),
        ensures
            keys_of(r@) == self.shown(self.child_keys(id), kind),
            forall|i: int|
                0 <= i < r@.len() ==> self.contains(#[trigger] r@[i]) && self.path_of(r@[i])
                    == self.path_of(id).push(self.node_view(r@[i]).name),
    {
        let children = self.children(id);
        let ghost keys = self.child_keys(id);
        let mut r: Vec<nary_tree::NodeId> = Vec::new();
        let mut i: usize = 0;
        assert(keys.take(0) =~= Seq::<int>::empty());
        assert(keys_of(r@) =~= self.shown(keys.take(0), kind));
        while i < children.len()
            invariant
                i <= children@.len(),
                self.wf(),
                keys == keys_of(children@),
                forall|j: int|
                    0 <= j < children@.len() ==> self.contains(#[trigger] children@[j])
                        && self.path_of(children@[j]) == self.path_of(id).push(
                        self.node_view(children@[j]).name,
                    ),
                keys_of(r@) == self.shown(keys.take(i as int), kind),
                forall|j: int|
                    0 <= j < r@.len() ==> self.contains(#[trigger] r@[j]) && self.path_of(r@[j])
                        == self.path_of(id).push(self.node_view(r@[j]).name),
            decreases children@.len() - i,
        {
            let child = children[i];
            let ghost before = keys_of(r@);
            proof {
                assert(keys.take(i + 1).drop_last() =~= keys.take(i as int));
                assert(keys.take(i + 1).last() == node_key(child));
            }
            let is_shown = match kind {
                FileTreeDisplayKind::All => true,
                FileTreeDisplayKind::Conflicts => self.has_conflicts(child),
            };
            if is_shown {
                r.push(child);
                assert(keys_of(r@) =~= before.push(node_key(child)));
            }
            i = i + 1;
        }
        assert(keys.take(i as int) =~= keys);
        r
    }
}

} // verus!
