//! The arena that holds the nodes of a tree, and what is taken for granted
//! of it.

use vstd::prelude::*;
use crate::file_tree::tree::TreeNode;

verus! {

/// `nary_tree::Tree`, the arena that holds the nodes.
#[verifier::external_type_specification]
#[verifier::external_body]
#[verifier::reject_recursive_types(Payload)]
pub struct ExTree<Payload>(nary_tree::Tree<Payload>);

/// `nary_tree::NodeId`, the handle of a node in a tree.
#[verifier::external_type_specification]
#[verifier::external_body]
pub struct ExNodeId(nary_tree::NodeId);

/// A node as the arena holds it: what the node carries, the node above it,
/// and the nodes below it from the first that was added to the last.
pub struct NodeState {
    pub data: TreeNode,
    pub parent: Option<int>,
    pub children: Seq<int>,
}

/// The number that stands for a handle. Handles of different nodes, of one
/// tree or of two, have different numbers.
pub uninterp spec fn node_key(id: nary_tree::NodeId) -> int;

/// The nodes that a tree holds, by the numbers of their handles.
pub uninterp spec fn tree_nodes(tree: nary_tree::Tree<TreeNode>) -> Map<int, NodeState>;

/// `TreeBuilder::new().with_root(..).build()` makes a tree that holds one
/// node, the root, which has no node above or below it; `Tree::root_id`
/// gives its handle.
#[verifier::external_body]
pub(crate) fn new_tree(root: TreeNode) -> (r: (nary_tree::Tree<TreeNode>, nary_tree::NodeId))
    ensures
        tree_nodes(r.0) == Map::<int, NodeState>::empty().insert(
            node_key(r.1),
            NodeState { data: root, parent: None, children: Seq::empty() },
        ),
{
    let tree = nary_tree::TreeBuilder::new().with_root(root).build();
    let id = tree.root_id().expect("has root node");
    (tree, id)
}

/// `Tree::get` followed by `NodeRef::data` gives what the node carries. The
/// tree holds the node, so `get` finds it.
#[verifier::external_body]
pub(crate) fn node_data(tree: &nary_tree::Tree<TreeNode>, id: nary_tree::NodeId) -> (r: &TreeNode)
    requires
        tree_nodes(*tree).dom().contains(node_key(id)),
    ensures
        *r == tree_nodes(*tree)[node_key(id)].data,
{
    tree.get(id).expect("node exists").data()
}

/// `NodeRef::children` goes through the nodes below a node from the first
/// that was added to the last; their handles are collected.
#[verifier::external_body]
pub(crate) fn node_children(tree: &nary_tree::Tree<TreeNode>, id: nary_tree::NodeId) -> (r: Vec<
    nary_tree::NodeId,
>)
    requires
        tree_nodes(*tree).dom().contains(node_key(id)),
    ensures
        r@.len() == tree_nodes(*tree)[node_key(id)].children.len(),
        forall|i: int|
            0 <= i < r@.len() ==> node_key(#[trigger] r@[i]) == tree_nodes(*tree)[node_key(
                id,
            )].children[i],
{
    tree.get(id).expect("node exists").children().map(|child| child.node_id()).collect()
}

/// `NodeRef::parent` gives the node above a node, if there is one.
#[verifier::external_body]
pub(crate) fn node_parent(tree: &nary_tree::Tree<TreeNode>, id: nary_tree::NodeId) -> (r: Option<
    nary_tree::NodeId,
>)
    requires
        tree_nodes(*tree).dom().contains(node_key(id)),
    ensures
        match r {
            Some(p) => tree_nodes(*tree)[node_key(id)].parent == Some(node_key(p)),
            None => tree_nodes(*tree)[node_key(id)].parent.is_none(),
        },
{
    tree.get(id).expect("node exists").parent().map(|parent| parent.node_id())
}

/// `NodeMut::append` adds a new node as the last of the nodes below
/// `parent`. The new node has a handle that the tree did not hold before and
/// no nodes below it; no other node changes.
#[verifier::external_body]
pub(crate) fn append_child(tree: &mut nary_tree::Tree<TreeNode>, parent: nary_tree::NodeId, data: TreeNode) -> (r:
    nary_tree::NodeId)
    requires
        tree_nodes(*old(tree)).dom().contains(node_key(parent)),
    ensures
        !tree_nodes(*old(tree)).dom().contains(node_key(r)),
        tree_nodes(*final(tree)) == tree_nodes(*old(tree)).insert(
            node_key(parent),
            NodeState {
                data: tree_nodes(*old(tree))[node_key(parent)].data,
                parent: tree_nodes(*old(tree))[node_key(parent)].parent,
                children: tree_nodes(*old(tree))[node_key(parent)].children.push(node_key(r)),
            },
        ).insert(
            node_key(r),
            NodeState { data, parent: Some(node_key(parent)), children: Seq::empty() },
        ),
{
    tree.get_mut(parent).expect("node exists").append(data).node_id()
}

/// `NodeMut::data` hands out what a node carries for writing; it is
/// exchanged with `data`. The node keeps its place, and no other node
/// changes.
#[verifier::external_body]
pub(crate) fn swap_node_data(tree: &mut nary_tree::Tree<TreeNode>, id: nary_tree::NodeId, data: &mut TreeNode)
    requires
        tree_nodes(*old(tree)).dom().contains(node_key(id)),
    ensures
        *final(data) == tree_nodes(*old(tree))[node_key(id)].data,
        tree_nodes(*final(tree)) == tree_nodes(*old(tree)).insert(
            node_key(id),
            NodeState {
                data: *old(data),
                parent: tree_nodes(*old(tree))[node_key(id)].parent,
                children: tree_nodes(*old(tree))[node_key(id)].children,
            },
        ),
{
    std::mem::swap(tree.get_mut(id).expect("node exists").data(), data)
}

/// The nodes of a tree from `start` on in the order in which
/// `NodeRef::traverse_pre_order` visits them: a node before the nodes below
/// it.
pub uninterp spec fn tree_pre_order(tree: nary_tree::Tree<TreeNode>, start: int) -> Seq<int>;

/// Whether `key` stands in `walk` behind the place `i`.
pub open spec fn comes_after(walk: Seq<int>, i: int, key: int) -> bool {
    exists|j: int| i < j < walk.len() && #[trigger] walk[j] == key
}

/// Whether the node at the place `j` of `walk` stands below a node at an
/// earlier place.
pub open spec fn follows_parent(nodes: Map<int, NodeState>, walk: Seq<int>, j: int) -> bool {
    exists|i: int| 0 <= i < j && (#[trigger] nodes[walk[i]]).children.contains(walk[j])
}

/// Whether `walk` goes through the nodes from `start` downwards, a node
/// before the nodes below it: it begins with `start` and holds nodes of
/// `nodes`, none of them twice; the nodes below a node of the walk come
/// behind that node; and each node but the first stands below a node that
/// comes before it.
pub open spec fn is_walk_from(nodes: Map<int, NodeState>, start: int, walk: Seq<int>) -> bool {
    &&& walk.len() >= 1
    &&& walk[0] == start
    &&& forall|i: int| 0 <= i < walk.len() ==> nodes.dom().contains(#[trigger] walk[i])
    &&& forall|i: int, j: int| 0 <= i < j < walk.len() ==> #[trigger] walk[i] != #[trigger] walk[j]
    &&& forall|i: int, c: int|
        0 <= i < walk.len() && 0 <= c < nodes[walk[i]].children.len() ==> #[trigger] comes_after(
            walk,
            i,
            nodes[walk[i]].children[c],
        )
    &&& forall|j: int| 1 <= j < walk.len() ==> #[trigger] follows_parent(nodes, walk, j)
}

/// `NodeRef::traverse_pre_order` visits `start` first. After a node it goes
/// on to the first of the nodes below it, and from the last node of a row to
/// the next node in the row above: so each node that it visits but `start`
/// stands below a node that it visited before, the nodes below a visited
/// node are all visited after it, and no node is visited twice. The handles
/// are collected in the order of the visit, which depends on nothing but the
/// tree and the node to start from.
#[verifier::external_body]
pub(crate) fn pre_order_ids(tree: &nary_tree::Tree<TreeNode>, start: nary_tree::NodeId) -> (r: Vec<
    nary_tree::NodeId,
>)
    requires
        tree_nodes(*tree).dom().contains(node_key(start)),
    ensures
        r@.len() == tree_pre_order(*tree, node_key(start)).len(),
        r@.len() >= 1,
        node_key(r@[0]) == node_key(start),
        forall|i: int|
            0 <= i < r@.len() ==> node_key(#[trigger] r@[i]) == tree_pre_order(
                *tree,
                node_key(start),
            )[i] && tree_nodes(*tree).dom().contains(node_key(r@[i])),
        is_walk_from(tree_nodes(*tree), node_key(start), keys_of(r@)),
{
    tree.get(start).expect("node exists").traverse_pre_order().map(|node| node.node_id()).collect()
}

/// The numbers of handles.
pub open spec fn keys_of(ids: Seq<nary_tree::NodeId>) -> Seq<int> {
    Seq::new(ids.len(), |i: int| node_key(ids[i]))
}

} // verus!
