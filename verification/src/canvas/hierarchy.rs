//! The document's node tree. Nodes are kept in one list, bottom to top: the
//! order in which they are drawn, which is the post-order walk of the tree
//! (a group's children, in sibling order, before the group itself). A
//! node's siblings are the nodes with the same parent, in list order.

use vstd::prelude::*;
use vstd::string::StringExecFns;

use crate::canvas::document::{uuid_text, LayerId, NodeKind, MAX_HIERARCHY_DEPTH, MAX_NODES};
use crate::canvas::error::CoreError;
use crate::text::{chars_of, lemma_encode_utf8_concat, push_chars, text_of_encoding};

verus! {

/// What the tree needs to know of a node: its identifier, its parent, and
/// its kind (only groups take children).
#[derive(Clone, Copy, Debug, PartialEq, Eq)]
pub struct TreeNode {
    pub id: LayerId,
    pub parent: Option<LayerId>,
    pub kind: NodeKind,
}

/// Index of the first node with identifier `id`.
pub open spec fn find_node(nodes: Seq<TreeNode>, id: LayerId) -> Option<int>
    decreases nodes.len(),
{
    if nodes.len() == 0 {
        None
    } else {
        match find_node(nodes.drop_last(), id) {
            Some(i) => Some(i),
            None => if nodes.last().id == id {
                Some(nodes.len() - 1)
            } else {
                None
            },
        }
    }
}

/// The identifiers of the nodes whose parent is `parent`, in list order.
pub open spec fn sibling_ids(nodes: Seq<TreeNode>, parent: Option<LayerId>) -> Seq<LayerId>
    decreases nodes.len(),
{
    if nodes.len() == 0 {
        seq![]
    } else if nodes.last().parent == parent {
        sibling_ids(nodes.drop_last(), parent).push(nodes.last().id)
    } else {
        sibling_ids(nodes.drop_last(), parent)
    }
}

/// The nodes, found by identifier, that a walk lists.
pub open spec fn nodes_for(nodes: Seq<TreeNode>, ids: Seq<LayerId>) -> Seq<TreeNode> {
    ids.map_values(|id: LayerId| nodes[find_node(nodes, id).unwrap_or(0)])
}

/// The post-order walk of the trees rooted at `roots`, in order, with
/// `fuel` levels left before the depth limit; the first node found too deep
/// or missing decides the error.
pub open spec fn forest_walk(nodes: Seq<TreeNode>, roots: Seq<LayerId>, fuel: nat) -> Result<
    Seq<LayerId>,
    CoreError,
>
    decreases fuel, roots.len(),
{
    if roots.len() == 0 {
        Ok(seq![])
    } else {
        match forest_walk(nodes, roots.drop_last(), fuel) {
            Err(e) => Err(e),
            Ok(before) => match tree_walk(nodes, roots.last(), fuel) {
                Err(e) => Err(e),
                Ok(tree) => Ok(before + tree),
            },
        }
    }
}

/// The post-order walk of the tree rooted at `id`.
pub open spec fn tree_walk(nodes: Seq<TreeNode>, id: LayerId, fuel: nat) -> Result<
    Seq<LayerId>,
    CoreError,
>
    decreases fuel, 0nat,
{
    if fuel == 0 {
        Err(CoreError::DocumentLimitExceeded("hierarchy depth"))
    } else {
        match forest_walk(nodes, sibling_ids(nodes, Some(id)), (fuel - 1) as nat) {
            Err(e) => Err(e),
            Ok(children) => if find_node(nodes, id) is None {
                Err(CoreError::InvalidHierarchyOrder)
            } else {
                Ok(children.push(id))
            },
        }
    }
}

/// The nodes in canonical order: the post-order walk from the roots, which
/// must reach every node exactly as often as the list holds nodes.
pub open spec fn reorder_spec(nodes: Seq<TreeNode>) -> Result<Seq<TreeNode>, CoreError> {
    match forest_walk(nodes, sibling_ids(nodes, None), (MAX_HIERARCHY_DEPTH + 1) as nat) {
        Err(e) => Err(e),
        Ok(walk) => if walk.len() != nodes.len() {
            Err(CoreError::InvalidHierarchyOrder)
        } else {
            Ok(nodes_for(nodes, walk))
        },
    }
}

fn same_id(a: LayerId, b: LayerId) -> (r: bool)
    ensures
        r == (a == b),
{
    a.0 == b.0
}

fn same_parent(a: Option<LayerId>, b: Option<LayerId>) -> (r: bool)
    ensures
        r == (a == b),
{
    match (a, b) {
        (None, None) => true,
        (Some(x), Some(y)) => same_id(x, y),
        _ => false,
    }
}

/// Index of the node with identifier `id`.
pub fn find_index(nodes: &[TreeNode], id: LayerId) -> (r: Option<usize>)
    ensures
        match find_node(nodes@, id) {
            Some(i) => r == Some(i as usize),
            None => r is None,
        },
        r matches Some(i) ==> i < nodes@.len() && nodes@[i as int].id == id,
{
    proof {
        lemma_find_node_found(nodes@, id);
    }
    let mut i: usize = 0;
    while i < nodes.len()
        invariant
            i <= nodes@.len(),
            find_node(nodes@.take(i as int), id) is None,
        decreases nodes@.len() - i,
    {
        proof {
            lemma_find_prefix(nodes@, id, i as int);
        }
        if same_id(nodes[i].id, id) {
            proof {
                assert(nodes@.take(i + 1).drop_last() =~= nodes@.take(i as int));
                lemma_find_extends(nodes@, id, i + 1);
            }
            return Some(i);
        }
        proof {
            assert(nodes@.take(i + 1).drop_last() =~= nodes@.take(i as int));
        }
        i = i + 1;
    }
    proof {
        assert(nodes@.take(nodes@.len() as int) =~= nodes@);
    }
    None
}

/// A found index is in range and holds the identifier.
pub proof fn lemma_find_node_found(nodes: Seq<TreeNode>, id: LayerId)
    ensures
        find_node(nodes, id) matches Some(i) ==> 0 <= i < nodes.len() && nodes[i].id == id,
        find_node(nodes, id) is None ==> forall|k: int| 0 <= k < nodes.len() ==> nodes[k].id != id,
        find_node(nodes, id) matches Some(i) ==> forall|k: int| 0 <= k < i ==> nodes[k].id != id,
    decreases nodes.len(),
{
    if nodes.len() > 0 {
        let prefix = nodes.drop_last();
        lemma_find_node_found(prefix, id);
        assert forall|k: int| 0 <= k < prefix.len() implies prefix[k] == nodes[k] by {}
    }
}

/// Finding in a prefix that holds no match says nothing is found before it.
proof fn lemma_find_prefix(nodes: Seq<TreeNode>, id: LayerId, i: int)
    requires
        0 <= i < nodes.len(),
        find_node(nodes.take(i), id) is None,
    ensures
        nodes.take(i + 1).drop_last() == nodes.take(i),
        find_node(nodes.take(i + 1), id) == if nodes[i].id == id {
            Some(i)
        } else {
            None::<int>
        },
{
    assert(nodes.take(i + 1).drop_last() =~= nodes.take(i));
}

/// A match found in a prefix is the match of the whole list.
proof fn lemma_find_extends(nodes: Seq<TreeNode>, id: LayerId, n: int)
    requires
        0 <= n <= nodes.len(),
        find_node(nodes.take(n), id) is Some,
    ensures
        find_node(nodes, id) == find_node(nodes.take(n), id),
    decreases nodes.len() - n,
{
    if n < nodes.len() {
        assert(nodes.take(n + 1).drop_last() =~= nodes.take(n));
        lemma_find_extends(nodes, id, n + 1);
    } else {
        assert(nodes.take(n) =~= nodes);
    }
}

/// The identifiers of the children of `parent` (the roots for `None`),
/// bottom to top.
pub fn child_ids(nodes: &[TreeNode], parent: Option<LayerId>) -> (ids: Vec<LayerId>)
    ensures
        ids@ == sibling_ids(nodes@, parent),
{
    let mut ids: Vec<LayerId> = Vec::new();
    let mut i: usize = 0;
    while i < nodes.len()
        invariant
            i <= nodes@.len(),
            ids@ == sibling_ids(nodes@.take(i as int), parent),
        decreases nodes@.len() - i,
    {
        proof {
            assert(nodes@.take(i + 1).drop_last() =~= nodes@.take(i as int));
        }
        if same_parent(nodes[i].parent, parent) {
            ids.push(nodes[i].id);
        }
        i = i + 1;
    }
    proof {
        assert(nodes@.take(nodes@.len() as int) =~= nodes@);
    }
    ids
}

/// Appends the post-order walk of the tree rooted at `id`, found at depth
/// `depth`.
fn append_postorder(nodes: &[TreeNode], id: LayerId, ordered: &mut Vec<TreeNode>, depth: usize) -> (r: Result<
    (),
    CoreError,
>)
    requires
        depth <= MAX_HIERARCHY_DEPTH + 1,
    ensures
        match tree_walk(nodes@, id, (MAX_HIERARCHY_DEPTH + 1 - depth) as nat) {
            Ok(walk) => r is Ok && final(ordered)@ == old(ordered)@ + nodes_for(nodes@, walk),
            Err(e) => r == Err::<(), CoreError>(e),
        },
    decreases MAX_HIERARCHY_DEPTH + 1 - depth,
{
    if depth > MAX_HIERARCHY_DEPTH {
        return Err(CoreError::DocumentLimitExceeded("hierarchy depth"));
    }
    let ghost fuel = (MAX_HIERARCHY_DEPTH - depth) as nat;
    let children = child_ids(nodes, Some(id));
    let ghost start = ordered@;
    let mut k: usize = 0;
    while k < children.len()
        invariant
            depth <= MAX_HIERARCHY_DEPTH,
            fuel == MAX_HIERARCHY_DEPTH - depth,
            children@ == sibling_ids(nodes@, Some(id)),
            k <= children@.len(),
            forest_walk(nodes@, children@.take(k as int), fuel) matches Ok(walk) && ordered@ == start
                + nodes_for(nodes@, walk),
        decreases children@.len() - k,
    {
        let ghost before = ordered@;
        let ghost done = forest_walk(nodes@, children@.take(k as int), fuel)->Ok_0;
        proof {
            assert(children@.take(k + 1).drop_last() =~= children@.take(k as int));
            assert(children@.take(k + 1).last() == children@[k as int]);
        }
        match append_postorder(nodes, children[k], ordered, depth + 1) {
            Ok(()) => {},
            Err(e) => {
                proof {
                    assert(forest_walk(nodes@, children@.take(k + 1), fuel) == Err::<Seq<LayerId>, CoreError>(e));
                    lemma_forest_error_sticks(nodes@, children@, k + 1, fuel);
                    assert(children@.take(children@.len() as int) =~= children@);
                }
                return Err(e);
            },
        }
        proof {
            let tree = tree_walk(nodes@, children@[k as int], fuel)->Ok_0;
            assert(forest_walk(nodes@, children@.take(k + 1), fuel) == Ok::<Seq<LayerId>, CoreError>(done + tree));
            assert(nodes_for(nodes@, done + tree) =~= nodes_for(nodes@, done) + nodes_for(nodes@, tree));
        }
        k = k + 1;
    }
    proof {
        assert(children@.take(children@.len() as int) =~= children@);
    }
    match find_index(nodes, id) {
        Some(i) => {
            let ghost walk = forest_walk(nodes@, children@, fuel)->Ok_0;
            ordered.push(nodes[i]);
            proof {
                lemma_find_node_found(nodes@, id);
                assert(find_node(nodes@, id) == Some(i as int));
                let whole = nodes_for(nodes@, walk.push(id));
                assert(whole[walk.len() as int] == nodes@[i as int]);
                assert(forall|j: int| 0 <= j < walk.len() ==> whole[j] == nodes_for(nodes@, walk)[j]);
                assert(whole =~= nodes_for(nodes@, walk).push(nodes@[i as int]));
            }
            Ok(())
        },
        None => Err(CoreError::InvalidHierarchyOrder),
    }
}

/// Once a prefix of the roots fails, every longer prefix fails the same way.
proof fn lemma_forest_error_sticks(nodes: Seq<TreeNode>, roots: Seq<LayerId>, k: int, fuel: nat)
    requires
        0 <= k <= roots.len(),
        forest_walk(nodes, roots.take(k), fuel) is Err,
    ensures
        forest_walk(nodes, roots, fuel) == forest_walk(nodes, roots.take(k), fuel),
    decreases roots.len() - k,
{
    if k < roots.len() {
        assert(roots.take(k + 1).drop_last() =~= roots.take(k));
        lemma_forest_error_sticks(nodes, roots, k + 1, fuel);
    } else {
        assert(roots.take(k) =~= roots);
    }
}

/// The nodes in canonical order: children before their group, siblings in
/// their order. Refused when a node is nested too deep, or when the walk
/// from the roots does not reach every node once.
pub fn reorder_nodes(nodes: &[TreeNode]) -> (r: Result<Vec<TreeNode>, CoreError>)
    ensures
        match reorder_spec(nodes@) {
            Ok(ordered) => r matches Ok(v) && v@ == ordered,
            Err(e) => r == Err::<Vec<TreeNode>, CoreError>(e),
        },
{
    let roots = child_ids(nodes, None);
    let ghost fuel = (MAX_HIERARCHY_DEPTH + 1) as nat;
    let mut ordered: Vec<TreeNode> = Vec::new();
    let mut k: usize = 0;
    while k < roots.len()
        invariant
            fuel == MAX_HIERARCHY_DEPTH + 1,
            roots@ == sibling_ids(nodes@, None),
            k <= roots@.len(),
            forest_walk(nodes@, roots@.take(k as int), fuel) matches Ok(walk) && ordered@ == nodes_for(
                nodes@,
                walk,
            ),
        decreases roots@.len() - k,
    {
        let ghost done = forest_walk(nodes@, roots@.take(k as int), fuel)->Ok_0;
        proof {
            assert(roots@.take(k + 1).drop_last() =~= roots@.take(k as int));
            assert(roots@.take(k + 1).last() == roots@[k as int]);
        }
        match append_postorder(nodes, roots[k], &mut ordered, 0) {
            Ok(()) => {},
            Err(e) => {
                proof {
                    lemma_forest_error_sticks(nodes@, roots@, k + 1, fuel);
                    assert(roots@.take(roots@.len() as int) =~= roots@);
                }
                return Err(e);
            },
        }
        proof {
            let tree = tree_walk(nodes@, roots@[k as int], fuel)->Ok_0;
            assert(nodes_for(nodes@, done + tree) =~= nodes_for(nodes@, done) + nodes_for(nodes@, tree));
        }
        k = k + 1;
    }
    proof {
        assert(roots@.take(roots@.len() as int) =~= roots@);
    }
    if ordered.len() != nodes.len() {
        return Err(CoreError::InvalidHierarchyOrder);
    }
    Ok(ordered)
}

/// The depth reached walking up from `current`, `depth` levels below the
/// starting node: `None` when the walk passes the depth limit or meets a
/// missing node.
pub open spec fn depth_walk(nodes: Seq<TreeNode>, current: Option<LayerId>, depth: nat) -> Option<nat>
    decreases MAX_HIERARCHY_DEPTH + 1 - depth,
{
    match current {
        None => Some(depth),
        Some(parent) => if depth + 1 > MAX_HIERARCHY_DEPTH {
            None
        } else {
            match find_node(nodes, parent) {
                None => None,
                Some(k) => depth_walk(nodes, nodes[k].parent, depth + 1),
            }
        },
    }
}

/// The depth of node `id` (roots are at depth zero), or `None` when it is
/// missing, nested past the limit, or below a missing parent.
pub open spec fn node_depth_spec(nodes: Seq<TreeNode>, id: LayerId) -> Option<nat> {
    match find_node(nodes, id) {
        None => None,
        Some(k) => depth_walk(nodes, nodes[k].parent, 0),
    }
}

/// Every node's parents exist, up to a root within the depth limit.
pub open spec fn hierarchy_bounded(nodes: Seq<TreeNode>) -> bool {
    forall|i: int| 0 <= i < nodes.len() ==> (#[trigger] depth_walk(nodes, nodes[i].parent, 0)) is Some
}

/// Whether walking up from `current`, within `fuel` steps, meets `id`.
pub open spec fn walk_meets(nodes: Seq<TreeNode>, current: Option<LayerId>, id: LayerId, fuel: nat) -> bool
    decreases fuel,
{
    match current {
        None => false,
        Some(ancestor) => ancestor == id || (fuel > 0 && match find_node(nodes, ancestor) {
            None => false,
            Some(k) => walk_meets(nodes, nodes[k].parent, id, (fuel - 1) as nat),
        }),
    }
}

/// Whether walking up from `current` ends within `fuel` steps.
pub open spec fn walk_ends(nodes: Seq<TreeNode>, current: Option<LayerId>, fuel: nat) -> bool
    decreases fuel,
{
    match current {
        None => true,
        Some(ancestor) => fuel > 0 && match find_node(nodes, ancestor) {
            None => true,
            Some(k) => walk_ends(nodes, nodes[k].parent, (fuel - 1) as nat),
        },
    }
}

/// A bounded depth walk ends within the remaining levels.
proof fn lemma_depth_walk_ends(nodes: Seq<TreeNode>, current: Option<LayerId>, depth: nat)
    requires
        depth <= MAX_HIERARCHY_DEPTH,
        depth_walk(nodes, current, depth) is Some,
    ensures
        walk_ends(nodes, current, (MAX_HIERARCHY_DEPTH + 1 - depth) as nat),
    decreases MAX_HIERARCHY_DEPTH + 1 - depth,
{
    if let Some(parent) = current {
        if let Some(k) = find_node(nodes, parent) {
            lemma_depth_walk_ends(nodes, nodes[k].parent, depth + 1);
        }
    }
}

/// The depth of node `id`; roots are at depth zero.
pub fn node_depth(nodes: &[TreeNode], id: LayerId) -> (r: Option<usize>)
    ensures
        match node_depth_spec(nodes@, id) {
            Some(d) => r == Some(d as usize),
            None => r is None,
        },
{
    let start = match find_index(nodes, id) {
        Some(k) => k,
        None => return None,
    };
    proof {
        lemma_find_node_found(nodes@, id);
    }
    let mut current = nodes[start].parent;
    let mut depth: usize = 0;
    while current.is_some()
        invariant
            depth <= MAX_HIERARCHY_DEPTH,
            depth_walk(nodes@, current, depth as nat) == node_depth_spec(nodes@, id),
        decreases MAX_HIERARCHY_DEPTH + 1 - depth,
    {
        let parent = match current {
            Some(parent) => parent,
            None => return None,
        };
        depth = depth + 1;
        if depth > MAX_HIERARCHY_DEPTH {
            return None;
        }
        match find_index(nodes, parent) {
            Some(k) => {
                proof {
                    lemma_find_node_found(nodes@, parent);
                }
                current = nodes[k].parent;
            },
            None => return None,
        }
    }
    Some(depth)
}

/// A parent must be an existing group; `None` means the root level.
pub fn validate_parent(nodes: &[TreeNode], parent: Option<LayerId>) -> (r: Result<(), CoreError>)
    ensures
        r == parent_check(nodes@, parent),
{
    let id = match parent {
        None => return Ok(()),
        Some(id) => id,
    };
    proof {
        lemma_find_node_found(nodes@, id);
    }
    match find_index(nodes, id) {
        None => Err(CoreError::LayerNotFound(id)),
        Some(k) => match nodes[k].kind {
            NodeKind::Group => Ok(()),
            _ => Err(CoreError::ParentIsNotGroup(id)),
        },
    }
}

/// What `validate_parent` decides.
pub open spec fn parent_check(nodes: Seq<TreeNode>, parent: Option<LayerId>) -> Result<(), CoreError> {
    match parent {
        None => Ok(()),
        Some(id) => match find_node(nodes, id) {
            None => Err(CoreError::LayerNotFound(id)),
            Some(k) => if nodes[k].kind == NodeKind::Group {
                Ok(())
            } else {
                Err(CoreError::ParentIsNotGroup(id))
            },
        },
    }
}

/// The list index of sibling `index` of `parent` within a prefix.
pub open spec fn sibling_slot(nodes: Seq<TreeNode>, parent: Option<LayerId>, index: int) -> Option<int>
    decreases nodes.len(),
{
    if nodes.len() == 0 {
        None
    } else {
        match sibling_slot(nodes.drop_last(), parent, index) {
            Some(j) => Some(j),
            None => if nodes.last().parent == parent && sibling_ids(nodes.drop_last(), parent).len()
                == index {
                Some(nodes.len() - 1)
            } else {
                None
            },
        }
    }
}

/// Where a node goes in the list to become sibling `index` of `parent`:
/// just below the sibling now at that index, or at the top of the list when
/// it comes last.
pub open spec fn sibling_position(nodes: Seq<TreeNode>, parent: Option<LayerId>, index: int) -> int {
    match sibling_slot(nodes, parent, index) {
        Some(j) => j,
        None => nodes.len() as int,
    }
}

/// The list with `node` placed as sibling `index` of `parent`.
pub open spec fn placed_nodes(nodes: Seq<TreeNode>, node: TreeNode, parent: Option<LayerId>, index: int) -> Seq<
    TreeNode,
> {
    nodes.insert(sibling_position(nodes, parent, index), TreeNode { parent, ..node })
}

proof fn lemma_sibling_slot(nodes: Seq<TreeNode>, parent: Option<LayerId>, index: int)
    ensures
        sibling_slot(nodes, parent, index) matches Some(j) ==> 0 <= j < nodes.len() && nodes[j].parent
            == parent && sibling_ids(nodes.take(j), parent).len() == index,
        sibling_slot(nodes, parent, index) is None ==> (index < 0 || sibling_ids(nodes, parent).len()
            <= index),
    decreases nodes.len(),
{
    if nodes.len() > 0 {
        let prefix = nodes.drop_last();
        lemma_sibling_slot(prefix, parent, index);
        if let Some(j) = sibling_slot(prefix, parent, index) {
            assert(nodes.take(j) =~= prefix.take(j));
        } else {
            assert(nodes.take(nodes.len() - 1) =~= prefix);
        }
    }
}

/// Siblings of a concatenation are the siblings of each part in turn.
proof fn lemma_sibling_ids_concat(a: Seq<TreeNode>, b: Seq<TreeNode>, parent: Option<LayerId>)
    ensures
        sibling_ids(a + b, parent) == sibling_ids(a, parent) + sibling_ids(b, parent),
    decreases b.len(),
{
    if b.len() == 0 {
        assert(a + b =~= a);
        assert(sibling_ids(b, parent) =~= seq![]);
        assert(sibling_ids(a, parent) + seq![] =~= sibling_ids(a, parent));
    } else {
        lemma_sibling_ids_concat(a, b.drop_last(), parent);
        assert((a + b).drop_last() =~= a + b.drop_last());
        assert((a + b).last() == b.last());
        if b.last().parent == parent {
            assert(sibling_ids(a, parent) + sibling_ids(b.drop_last(), parent).push(b.last().id)
                =~= (sibling_ids(a, parent) + sibling_ids(b.drop_last(), parent)).push(b.last().id));
        }
    }
}

/// A one-node list contributes its node to the siblings of its parent only.
proof fn lemma_sibling_ids_single(node: TreeNode, parent: Option<LayerId>)
    ensures
        sibling_ids(seq![node], parent) == if node.parent == parent {
            seq![node.id]
        } else {
            Seq::<LayerId>::empty()
        },
{
    assert(seq![node].drop_last() =~= Seq::<TreeNode>::empty());
    assert(seq![node].last() == node);
    assert(sibling_ids(Seq::<TreeNode>::empty(), parent) =~= Seq::<LayerId>::empty());
    if node.parent == parent {
        assert(Seq::<LayerId>::empty().push(node.id) =~= seq![node.id]);
    }
}

/// Placing a node as sibling `index` of `parent` inserts it at that index of
/// the parent's children and leaves every other sibling list as it was.
pub proof fn law_placing_inserts_one_sibling(
    nodes: Seq<TreeNode>,
    node: TreeNode,
    parent: Option<LayerId>,
    index: int,
    other: Option<LayerId>,
)
    requires
        0 <= index <= sibling_ids(nodes, parent).len(),
    ensures
        sibling_ids(placed_nodes(nodes, node, parent, index), parent) == sibling_ids(nodes, parent).insert(
            index,
            node.id,
        ),
        other != parent ==> sibling_ids(placed_nodes(nodes, node, parent, index), other) == sibling_ids(
            nodes,
            other,
        ),
{
    lemma_sibling_slot(nodes, parent, index);
    let pos = sibling_position(nodes, parent, index);
    let placed = TreeNode { parent, ..node };
    let front = nodes.take(pos);
    let back = nodes.skip(pos);
    assert(nodes =~= front + back);
    assert(placed_nodes(nodes, node, parent, index) =~= front + seq![placed] + back);
    lemma_sibling_ids_concat(front, back, parent);
    lemma_sibling_ids_concat(front, seq![placed], parent);
    lemma_sibling_ids_concat(front + seq![placed], back, parent);
    lemma_sibling_ids_single(placed, parent);
    lemma_sibling_ids_concat(front, back, other);
    lemma_sibling_ids_concat(front, seq![placed], other);
    lemma_sibling_ids_concat(front + seq![placed], back, other);
    lemma_sibling_ids_single(placed, other);
    if sibling_slot(nodes, parent, index) is None {
        assert(back =~= Seq::<TreeNode>::empty());
        assert(sibling_ids(back, parent) =~= Seq::<LayerId>::empty());
        assert(front =~= nodes);
    }
    assert(sibling_ids(front, parent).len() == index);
    assert(sibling_ids(front, parent) + seq![node.id] + sibling_ids(back, parent) =~= (sibling_ids(
        front,
        parent,
    ) + sibling_ids(back, parent)).insert(index, node.id));
    assert(sibling_ids(front, other) + Seq::<LayerId>::empty() =~= sibling_ids(front, other));
}

fn copy_nodes(nodes: &[TreeNode]) -> (copy: Vec<TreeNode>)
    ensures
        copy@ == nodes@,
{
    let mut copy: Vec<TreeNode> = Vec::new();
    let mut i: usize = 0;
    while i < nodes.len()
        invariant
            i <= nodes@.len(),
            copy@ == nodes@.take(i as int),
        decreases nodes@.len() - i,
    {
        copy.push(nodes[i]);
        proof {
            assert(nodes@.take(i + 1) =~= nodes@.take(i as int).push(nodes@[i as int]));
        }
        i = i + 1;
    }
    proof {
        assert(nodes@.take(nodes@.len() as int) =~= nodes@);
    }
    copy
}

/// The list index at which a node becomes sibling `index` of `parent`.
fn sibling_position_of(nodes: &[TreeNode], parent: Option<LayerId>, index: usize) -> (r: usize)
    ensures
        r == sibling_position(nodes@, parent, index as int),
{
    let mut count: usize = 0;
    let mut j: usize = 0;
    while j < nodes.len()
        invariant
            j <= nodes@.len(),
            count <= j,
            count == sibling_ids(nodes@.take(j as int), parent).len(),
            sibling_slot(nodes@.take(j as int), parent, index as int) is None,
        decreases nodes@.len() - j,
    {
        proof {
            assert(nodes@.take(j + 1).drop_last() =~= nodes@.take(j as int));
            assert(nodes@.take(j + 1).last() == nodes@[j as int]);
        }
        if same_parent(nodes[j].parent, parent) {
            if count == index {
                proof {
                    lemma_slot_extends(nodes@, parent, index as int, j + 1);
                }
                return j;
            }
            count = count + 1;
        }
        j = j + 1;
    }
    proof {
        assert(nodes@.take(nodes@.len() as int) =~= nodes@);
    }
    nodes.len()
}

/// A slot found in a prefix is the slot of the whole list.
proof fn lemma_slot_extends(nodes: Seq<TreeNode>, parent: Option<LayerId>, index: int, n: int)
    requires
        0 <= n <= nodes.len(),
        sibling_slot(nodes.take(n), parent, index) is Some,
    ensures
        sibling_slot(nodes, parent, index) == sibling_slot(nodes.take(n), parent, index),
    decreases nodes.len() - n,
{
    if n < nodes.len() {
        assert(nodes.take(n + 1).drop_last() =~= nodes.take(n));
        lemma_slot_extends(nodes, parent, index, n + 1);
    } else {
        assert(nodes.take(n) =~= nodes);
    }
}

/// What inserting a node decides: refused when the tree is full, when the
/// identifier is taken, when the parent is not an existing group, or when
/// the index is past the parent's children; otherwise the canonical order
/// of the list with the node placed as sibling `index` of `parent`.
pub open spec fn insert_spec(nodes: Seq<TreeNode>, node: TreeNode, parent: Option<LayerId>, index: int) -> Result<
    Seq<TreeNode>,
    CoreError,
> {
    if nodes.len() >= MAX_NODES {
        Err(CoreError::DocumentLimitExceeded("node count"))
    } else if find_node(nodes, node.id) is Some {
        Err(CoreError::DuplicateNodeId(node.id))
    } else if parent_check(nodes, parent) is Err {
        Err(parent_check(nodes, parent)->Err_0)
    } else if index > sibling_ids(nodes, parent).len() {
        Err(
            CoreError::SiblingIndexOutOfBounds {
                index: index as usize,
                len: sibling_ids(nodes, parent).len() as usize,
            },
        )
    } else {
        reorder_spec(placed_nodes(nodes, node, parent, index))
    }
}

/// Inserts `node` as sibling `index` of `parent` (children are counted
/// bottom to top) and returns the list in canonical order.
pub fn insert_node(nodes: &[TreeNode], node: TreeNode, parent: Option<LayerId>, index: usize) -> (r: Result<
    Vec<TreeNode>,
    CoreError,
>)
    ensures
        match insert_spec(nodes@, node, parent, index as int) {
            Ok(v) => r matches Ok(list) && list@ == v,
            Err(e) => r == Err::<Vec<TreeNode>, CoreError>(e),
        },
{
    if nodes.len() >= MAX_NODES {
        return Err(CoreError::DocumentLimitExceeded("node count"));
    }
    if find_index(nodes, node.id).is_some() {
        return Err(CoreError::DuplicateNodeId(node.id));
    }
    match validate_parent(nodes, parent) {
        Ok(()) => {},
        Err(e) => return Err(e),
    }
    let siblings = child_ids(nodes, parent);
    if index > siblings.len() {
        return Err(CoreError::SiblingIndexOutOfBounds { index, len: siblings.len() });
    }
    let position = sibling_position_of(nodes, parent, index);
    proof {
        lemma_sibling_slot(nodes@, parent, index as int);
    }
    let mut staged = copy_nodes(nodes);
    staged.insert(position, TreeNode { parent, ..node });
    proof {
        assert(staged@ =~= placed_nodes(nodes@, node, parent, index as int));
    }
    reorder_nodes(&staged)
}

/// What moving node `id` decides: refused when it is missing, when the new
/// parent is not an existing group or lies inside the node itself, or when
/// the index is past the new parent's other children; otherwise the
/// canonical order of the list with the node taken out and placed as
/// sibling `index` of `parent`.
pub open spec fn move_spec(nodes: Seq<TreeNode>, id: LayerId, parent: Option<LayerId>, index: int) -> Result<
    Seq<TreeNode>,
    CoreError,
> {
    match find_node(nodes, id) {
        None => Err(CoreError::LayerNotFound(id)),
        Some(k) => if parent_check(nodes, parent) is Err {
            Err(parent_check(nodes, parent)->Err_0)
        } else if parent is Some && walk_meets(nodes, parent, id, (MAX_HIERARCHY_DEPTH + 2) as nat) {
            Err(CoreError::HierarchyCycle { node: id, parent: parent->Some_0 })
        } else {
            let rest = nodes.remove(k);
            if index > sibling_ids(rest, parent).len() {
                Err(
                    CoreError::SiblingIndexOutOfBounds {
                        index: index as usize,
                        len: sibling_ids(rest, parent).len() as usize,
                    },
                )
            } else {
                reorder_spec(placed_nodes(rest, nodes[k], parent, index))
            }
        },
    }
}

/// Moves node `id`, with its subtree, to become sibling `index` of
/// `parent`, and returns the list in canonical order.
pub fn move_node(nodes: &[TreeNode], id: LayerId, parent: Option<LayerId>, index: usize) -> (r: Result<
    Vec<TreeNode>,
    CoreError,
>)
    requires
        hierarchy_bounded(nodes@),
    ensures
        match move_spec(nodes@, id, parent, index as int) {
            Ok(v) => r matches Ok(list) && list@ == v,
            Err(e) => r == Err::<Vec<TreeNode>, CoreError>(e),
        },
{
    proof {
        lemma_find_node_found(nodes@, id);
    }
    let k = match find_index(nodes, id) {
        Some(k) => k,
        None => return Err(CoreError::LayerNotFound(id)),
    };
    match validate_parent(nodes, parent) {
        Ok(()) => {},
        Err(e) => return Err(e),
    }
    if let Some(parent_id) = parent {
        if walk_reaches(nodes, parent_id, id) {
            return Err(CoreError::HierarchyCycle { node: id, parent: parent_id });
        }
    }
    let mut staged = copy_nodes(nodes);
    let node = staged.remove(k);
    let siblings = child_ids(&staged, parent);
    if index > siblings.len() {
        return Err(CoreError::SiblingIndexOutOfBounds { index, len: siblings.len() });
    }
    let position = sibling_position_of(&staged, parent, index);
    proof {
        lemma_sibling_slot(staged@, parent, index as int);
    }
    staged.insert(position, TreeNode { parent, ..node });
    proof {
        assert(staged@ =~= placed_nodes(nodes@.remove(k as int), nodes@[k as int], parent, index as int));
    }
    reorder_nodes(&staged)
}

/// Whether walking up from `start` meets `id`.
fn walk_reaches(nodes: &[TreeNode], start: LayerId, id: LayerId) -> (r: bool)
    requires
        hierarchy_bounded(nodes@),
    ensures
        r == walk_meets(nodes@, Some(start), id, (MAX_HIERARCHY_DEPTH + 2) as nat),
{
    proof {
        lemma_find_node_found(nodes@, start);
        if let Some(k) = find_node(nodes@, start) {
            assert(depth_walk(nodes@, nodes@[k].parent, 0) is Some);
            lemma_depth_walk_ends(nodes@, nodes@[k].parent, 0);
        }
    }
    let mut current: Option<LayerId> = Some(start);
    let ghost mut fuel: nat = (MAX_HIERARCHY_DEPTH + 2) as nat;
    loop
        invariant
            walk_ends(nodes@, current, fuel),
            walk_meets(nodes@, Some(start), id, (MAX_HIERARCHY_DEPTH + 2) as nat) == walk_meets(
                nodes@,
                current,
                id,
                fuel,
            ),
        decreases fuel,
    {
        let ancestor = match current {
            None => return false,
            Some(ancestor) => ancestor,
        };
        if same_id(ancestor, id) {
            return true;
        }
        proof {
            lemma_find_node_found(nodes@, ancestor);
        }
        current = match find_index(nodes, ancestor) {
            Some(k) => nodes[k].parent,
            None => None,
        };
        proof {
            fuel = (fuel - 1) as nat;
        }
    }
}

/// What removing node `id` decides: the last node and a group with
/// children cannot go; otherwise the list without it, and the node that
/// takes the removed one's place in the list (the one above it, or the new
/// top when it was the top).
pub open spec fn remove_spec(nodes: Seq<TreeNode>, id: LayerId) -> Result<
    (Seq<TreeNode>, LayerId),
    CoreError,
> {
    if nodes.len() == 1 {
        Err(CoreError::LastLayer)
    } else {
        match find_node(nodes, id) {
            None => Err(CoreError::LayerNotFound(id)),
            Some(k) => if sibling_ids(nodes, Some(id)).len() > 0 {
                Err(CoreError::NonEmptyGroup(id))
            } else {
                let rest = nodes.remove(k);
                Ok(
                    (
                        rest,
                        rest[if k < rest.len() {
                            k
                        } else {
                            rest.len() - 1
                        }].id,
                    ),
                )
            },
        }
    }
}

/// Removes node `id`, which must not have children.
pub fn remove_node(nodes: &[TreeNode], id: LayerId) -> (r: Result<(Vec<TreeNode>, LayerId), CoreError>)
    ensures
        match remove_spec(nodes@, id) {
            Ok((list, next)) => r matches Ok((v, n)) && v@ == list && n == next,
            Err(e) => r == Err::<(Vec<TreeNode>, LayerId), CoreError>(e),
        },
{
    if nodes.len() == 1 {
        return Err(CoreError::LastLayer);
    }
    proof {
        lemma_find_node_found(nodes@, id);
    }
    let k = match find_index(nodes, id) {
        Some(k) => k,
        None => return Err(CoreError::LayerNotFound(id)),
    };
    let children = child_ids(nodes, Some(id));
    if children.len() > 0 {
        return Err(CoreError::NonEmptyGroup(id));
    }
    let mut rest = copy_nodes(nodes);
    rest.remove(k);
    let next = if k < rest.len() {
        rest[k].id
    } else {
        rest[rest.len() - 1].id
    };
    Ok((rest, next))
}

/// What moving a root node to another root index decides.
pub open spec fn reorder_root_spec(nodes: Seq<TreeNode>, id: LayerId, index: int) -> Result<
    Seq<TreeNode>,
    CoreError,
> {
    match find_node(nodes, id) {
        None => Err(CoreError::LayerNotFound(id)),
        Some(k) => if nodes[k].parent is Some {
            Err(CoreError::InvalidHierarchyOrder)
        } else if index >= sibling_ids(nodes, None).len() {
            Err(
                CoreError::LayerIndexOutOfBounds {
                    index: index as usize,
                    len: sibling_ids(nodes, None).len() as usize,
                },
            )
        } else {
            move_spec(nodes, id, None, index)
        },
    }
}

/// Moves a root node to root index `index`; nodes inside groups move with
/// `move_node`.
pub fn reorder_root(nodes: &[TreeNode], id: LayerId, index: usize) -> (r: Result<Vec<TreeNode>, CoreError>)
    requires
        hierarchy_bounded(nodes@),
    ensures
        match reorder_root_spec(nodes@, id, index as int) {
            Ok(v) => r matches Ok(list) && list@ == v,
            Err(e) => r == Err::<Vec<TreeNode>, CoreError>(e),
        },
{
    proof {
        lemma_find_node_found(nodes@, id);
    }
    let k = match find_index(nodes, id) {
        Some(k) => k,
        None => return Err(CoreError::LayerNotFound(id)),
    };
    if nodes[k].parent.is_some() {
        return Err(CoreError::InvalidHierarchyOrder);
    }
    let roots = child_ids(nodes, None);
    if index >= roots.len() {
        return Err(CoreError::LayerIndexOutOfBounds { index, len: roots.len() });
    }
    move_node(nodes, id, None, index)
}

/// Node identifiers are distinct.
pub open spec fn unique_node_ids(nodes: Seq<TreeNode>) -> bool {
    forall|i: int, j: int| 0 <= i < j < nodes.len() ==> (#[trigger] nodes[i]).id != (#[trigger] nodes[j]).id
}

/// What is wrong with a node tree, in the order it is checked.
pub enum TreeFault {
    DuplicateId(LayerId),
    MissingParent { node: LayerId, parent: LayerId },
    ParentNotGroup(LayerId),
    Cycle,
    TooDeep,
}

/// Whether node `i` repeats the identifier of an earlier node.
pub open spec fn repeats_id(nodes: Seq<TreeNode>, i: int) -> bool {
    exists|j: int| 0 <= j < i && (#[trigger] nodes[j]).id == nodes[i].id
}

/// The fault of node `i`'s parent link, if it has one.
pub open spec fn parent_fault(nodes: Seq<TreeNode>, i: int) -> Option<TreeFault> {
    match nodes[i].parent {
        None => None,
        Some(p) => match find_node(nodes, p) {
            None => Some(TreeFault::MissingParent { node: nodes[i].id, parent: p }),
            Some(k) => if nodes[k].kind == NodeKind::Group {
                None
            } else {
                Some(TreeFault::ParentNotGroup(p))
            },
        },
    }
}

/// The node `k` steps up from `start` (`start` itself for zero).
pub open spec fn ancestor(nodes: Seq<TreeNode>, start: LayerId, k: nat) -> Option<LayerId>
    decreases k,
{
    if k == 0 {
        Some(start)
    } else {
        match ancestor(nodes, start, (k - 1) as nat) {
            None => None,
            Some(a) => match find_node(nodes, a) {
                None => None,
                Some(j) => nodes[j].parent,
            },
        }
    }
}

/// Whether the walk up from `start` meets, at step `k`, a node it met before.
pub open spec fn revisits(nodes: Seq<TreeNode>, start: LayerId, k: nat) -> bool {
    ancestor(nodes, start, k) is Some && exists|j: nat|
        j < k && #[trigger] ancestor(nodes, start, j) == ancestor(nodes, start, k)
}

/// The fault of the walk up from `start`: a node met twice within the
/// depth limit, or a node past it.
pub open spec fn walk_fault(nodes: Seq<TreeNode>, start: LayerId) -> Option<TreeFault> {
    if exists|k: nat| k <= MAX_HIERARCHY_DEPTH && #[trigger] revisits(nodes, start, k) {
        Some(TreeFault::Cycle)
    } else if ancestor(nodes, start, (MAX_HIERARCHY_DEPTH + 1) as nat) is Some {
        Some(TreeFault::TooDeep)
    } else {
        None
    }
}

/// The first fault among the first `n` nodes under one of the checks:
/// 0 for repeated identifiers, 1 for parent links, 2 for walks up.
pub open spec fn first_fault(nodes: Seq<TreeNode>, check: int, n: int) -> Option<TreeFault>
    decreases n,
{
    if n <= 0 {
        None
    } else {
        match first_fault(nodes, check, n - 1) {
            Some(f) => Some(f),
            None => if check == 0 {
                if repeats_id(nodes, n - 1) {
                    Some(TreeFault::DuplicateId(nodes[n - 1].id))
                } else {
                    None
                }
            } else if check == 1 {
                parent_fault(nodes, n - 1)
            } else {
                walk_fault(nodes, nodes[n - 1].id)
            },
        }
    }
}

/// The first fault of the tree: repeated identifiers first, then parent
/// links, then walks up, each in list order.
pub open spec fn tree_fault(nodes: Seq<TreeNode>) -> Option<TreeFault> {
    match first_fault(nodes, 0, nodes.len() as int) {
        Some(f) => Some(f),
        None => match first_fault(nodes, 1, nodes.len() as int) {
            Some(f) => Some(f),
            None => first_fault(nodes, 2, nodes.len() as int),
        },
    }
}

/// The message reporting a missing parent.
pub open spec fn missing_parent_message(node: LayerId, parent: LayerId) -> Seq<char> {
    "parent "@ + uuid_text(parent.0) + " of node "@ + uuid_text(node.0) + " does not exist"@
}

/// The message reporting a parent that is not a group.
pub open spec fn parent_not_group_message(parent: LayerId) -> Seq<char> {
    "parent "@ + uuid_text(parent.0) + " is not a group"@
}

/// The error a tree fault is reported as.
pub open spec fn tree_error_matches(fault: TreeFault, e: CoreError) -> bool {
    match fault {
        TreeFault::DuplicateId(id) => e == CoreError::DuplicateNodeId(id),
        TreeFault::MissingParent { node, parent } => e matches CoreError::MalformedProject(m) && m@
            == missing_parent_message(node, parent),
        TreeFault::ParentNotGroup(parent) => e matches CoreError::MalformedProject(m) && m@
            == parent_not_group_message(parent),
        TreeFault::Cycle => e matches CoreError::MalformedProject(m) && m@
            == "node hierarchy contains a cycle"@,
        TreeFault::TooDeep => e == CoreError::DocumentLimitExceeded("hierarchy depth"),
    }
}

proof fn lemma_first_fault_sticks(nodes: Seq<TreeNode>, check: int, m: int, n: int)
    requires
        0 <= m <= n,
        first_fault(nodes, check, m) is Some,
    ensures
        first_fault(nodes, check, n) == first_fault(nodes, check, m),
    decreases n - m,
{
    if m < n {
        lemma_first_fault_sticks(nodes, check, m, n - 1);
    }
}

proof fn lemma_first_fault_none(nodes: Seq<TreeNode>, check: int, n: int, i: int)
    requires
        0 <= i < n,
        first_fault(nodes, check, n) is None,
    ensures
        first_fault(nodes, check, i + 1) is None,
    decreases n - i,
{
    if i + 1 < n {
        lemma_first_fault_none(nodes, check, n, i + 1);
    }
}

fn contains_id(ids: &Vec<LayerId>, id: LayerId) -> (r: bool)
    ensures
        r == ids@.contains(id),
{
    let mut i: usize = 0;
    while i < ids.len()
        invariant
            i <= ids@.len(),
            forall|j: int| 0 <= j < i ==> ids@[j] != id,
        decreases ids@.len() - i,
    {
        if same_id(ids[i], id) {
            return true;
        }
        i = i + 1;
    }
    false
}

/// The parent of the node with identifier `id`, `None` when it is a root or
/// missing.
fn parent_of(nodes: &[TreeNode], id: LayerId) -> (r: Option<LayerId>)
    ensures
        r == match find_node(nodes@, id) {
            None => None,
            Some(j) => nodes@[j].parent,
        },
{
    proof {
        lemma_find_node_found(nodes@, id);
    }
    match find_index(nodes, id) {
        Some(j) => nodes[j].parent,
        None => None,
    }
}

/// Walks up from `start`, remembering the nodes met.
fn check_walk(nodes: &[TreeNode], start: LayerId) -> (r: Option<TreeFault>)
    ensures
        r == walk_fault(nodes@, start),
{
    let mut visited: Vec<LayerId> = Vec::new();
    let mut current: Option<LayerId> = Some(start);
    let mut depth: usize = 0;
    loop
        invariant
            depth <= MAX_HIERARCHY_DEPTH,
            current == ancestor(nodes@, start, depth as nat),
            visited@.len() == depth,
            forall|j: int| 0 <= j < depth ==> visited@[j] == ancestor(nodes@, start, j as nat)->Some_0
                && ancestor(nodes@, start, j as nat) is Some,
            forall|k: nat| k < depth ==> !#[trigger] revisits(nodes@, start, k),
        decreases MAX_HIERARCHY_DEPTH + 1 - depth,
    {
        let node = match current {
            None => {
                proof {
                    lemma_ancestor_none_stays(nodes@, start, depth as nat);
                    assert forall|k: nat| k <= MAX_HIERARCHY_DEPTH implies !#[trigger] revisits(nodes@, start, k) by {
                        if k >= depth {
                            assert(ancestor(nodes@, start, k) is None);
                        }
                    }
                }
                return None;
            },
            Some(node) => node,
        };
        if contains_id(&visited, node) {
            proof {
                let j = choose|j: int| 0 <= j < visited@.len() && visited@[j] == node;
                assert(ancestor(nodes@, start, j as nat) == ancestor(nodes@, start, depth as nat));
                assert(revisits(nodes@, start, depth as nat));
            }
            return Some(TreeFault::Cycle);
        }
        proof {
            if revisits(nodes@, start, depth as nat) {
                let j = choose|j: nat| j < depth && #[trigger] ancestor(nodes@, start, j) == ancestor(nodes@, start, depth as nat);
                assert(visited@[j as int] == node);
                assert(visited@.contains(node));
            }
        }
        visited.push(node);
        current = parent_of(nodes, node);
        if current.is_some() {
            if depth + 1 > MAX_HIERARCHY_DEPTH {
                proof {
                    assert forall|k: nat| k <= MAX_HIERARCHY_DEPTH implies !#[trigger] revisits(nodes@, start, k) by {}
                }
                return Some(TreeFault::TooDeep);
            }
        } else {
            proof {
                lemma_ancestor_none_stays(nodes@, start, (depth + 1) as nat);
                assert forall|k: nat| k <= MAX_HIERARCHY_DEPTH implies !#[trigger] revisits(nodes@, start, k) by {
                    if k > depth {
                        assert(ancestor(nodes@, start, k) is None);
                    }
                }
            }
            return None;
        }
        depth = depth + 1;
    }
}

/// Once the walk up ends it stays ended.
proof fn lemma_ancestor_none_stays(nodes: Seq<TreeNode>, start: LayerId, k: nat)
    requires
        ancestor(nodes, start, k) is None,
    ensures
        forall|m: nat| m >= k ==> #[trigger] ancestor(nodes, start, m) is None,
{
    assert forall|m: nat| m >= k implies #[trigger] ancestor(nodes, start, m) is None by {
        lemma_ancestor_none_from(nodes, start, k, m);
    }
}

proof fn lemma_ancestor_none_from(nodes: Seq<TreeNode>, start: LayerId, k: nat, m: nat)
    requires
        ancestor(nodes, start, k) is None,
        m >= k,
    ensures
        ancestor(nodes, start, m) is None,
    decreases m - k,
{
    if m > k {
        lemma_ancestor_none_from(nodes, start, k, (m - 1) as nat);
    }
}

fn missing_parent_text(node: LayerId, parent: LayerId) -> (message: String)
    ensures
        message@ == missing_parent_message(node, parent),
{
    let parent_text = parent.to_string();
    let node_text = node.to_string();
    let mut out: Vec<u8> = Vec::new();
    push_chars(&mut out, chars_of("parent ").as_slice());
    push_chars(&mut out, chars_of(parent_text.as_str()).as_slice());
    push_chars(&mut out, chars_of(" of node ").as_slice());
    push_chars(&mut out, chars_of(node_text.as_str()).as_slice());
    push_chars(&mut out, chars_of(" does not exist").as_slice());
    proof {
        let a = "parent "@;
        let b = uuid_text(parent.0);
        let c = " of node "@;
        let d = uuid_text(node.0);
        let e = " does not exist"@;
        lemma_encode_utf8_concat(a, b);
        lemma_encode_utf8_concat(a + b, c);
        lemma_encode_utf8_concat(a + b + c, d);
        lemma_encode_utf8_concat(a + b + c + d, e);
    }
    text_of_encoding(out, Ghost(missing_parent_message(node, parent)))
}

fn parent_not_group_text(parent: LayerId) -> (message: String)
    ensures
        message@ == parent_not_group_message(parent),
{
    let parent_text = parent.to_string();
    let mut out: Vec<u8> = Vec::new();
    push_chars(&mut out, chars_of("parent ").as_slice());
    push_chars(&mut out, chars_of(parent_text.as_str()).as_slice());
    push_chars(&mut out, chars_of(" is not a group").as_slice());
    proof {
        let a = "parent "@;
        let b = uuid_text(parent.0);
        let c = " is not a group"@;
        lemma_encode_utf8_concat(a, b);
        lemma_encode_utf8_concat(a + b, c);
    }
    text_of_encoding(out, Ghost(parent_not_group_message(parent)))
}

/// Checks a node tree: identifiers are distinct, every parent is an
/// existing group, and every walk up reaches a root without meeting a node
/// twice or passing the depth limit. Faults are reported in that order,
/// each for the first node in list order.
pub fn validate_hierarchy(nodes: &[TreeNode]) -> (r: Result<(), CoreError>)
    ensures
        match tree_fault(nodes@) {
            None => r is Ok,
            Some(fault) => r matches Err(e) && tree_error_matches(fault, e),
        },
{
    let n = nodes.len();
    let mut i: usize = 0;
    while i < n
        invariant
            n == nodes@.len(),
            i <= n,
            first_fault(nodes@, 0, i as int) is None,
        decreases n - i,
    {
        let mut j: usize = 0;
        while j < i
            invariant
                i < n,
                n == nodes@.len(),
                j <= i,
                first_fault(nodes@, 0, i as int) is None,
                forall|k: int| 0 <= k < j ==> (#[trigger] nodes@[k]).id != nodes@[i as int].id,
            decreases i - j,
        {
            if same_id(nodes[j].id, nodes[i].id) {
                proof {
                    assert(nodes@[j as int].id == nodes@[i as int].id);
                    assert(repeats_id(nodes@, i as int));
                    assert(first_fault(nodes@, 0, i + 1) == Some(TreeFault::DuplicateId(nodes@[i as int].id)));
                    lemma_first_fault_sticks(nodes@, 0, i + 1, n as int);
                }
                return Err(CoreError::DuplicateNodeId(nodes[i].id));
            }
            j = j + 1;
        }
        i = i + 1;
    }
    let mut i: usize = 0;
    while i < n
        invariant
            n == nodes@.len(),
            i <= n,
            first_fault(nodes@, 0, n as int) is None,
            first_fault(nodes@, 1, i as int) is None,
        decreases n - i,
    {
        if let Some(p) = nodes[i].parent {
            proof {
                lemma_find_node_found(nodes@, p);
            }
            match find_index(nodes, p) {
                None => {
                    proof {
                        lemma_first_fault_sticks(nodes@, 1, i + 1, n as int);
                    }
                    return Err(CoreError::MalformedProject(missing_parent_text(nodes[i].id, p)));
                },
                Some(k) => match nodes[k].kind {
                    NodeKind::Group => {},
                    _ => {
                        proof {
                            lemma_first_fault_sticks(nodes@, 1, i + 1, n as int);
                        }
                        return Err(CoreError::MalformedProject(parent_not_group_text(p)));
                    },
                },
            }
        }
        i = i + 1;
    }
    let mut i: usize = 0;
    while i < n
        invariant
            n == nodes@.len(),
            i <= n,
            first_fault(nodes@, 0, n as int) is None,
            first_fault(nodes@, 1, n as int) is None,
            first_fault(nodes@, 2, i as int) is None,
        decreases n - i,
    {
        match check_walk(nodes, nodes[i].id) {
            None => {},
            Some(fault) => {
                proof {
                    lemma_first_fault_sticks(nodes@, 2, i + 1, n as int);
                }
                return match fault {
                    TreeFault::Cycle => Err(
                        CoreError::MalformedProject(String::from_str("node hierarchy contains a cycle")),
                    ),
                    _ => Err(CoreError::DocumentLimitExceeded("hierarchy depth")),
                };
            },
        }
        i = i + 1;
    }
    Ok(())
}

proof fn lemma_depth_from(nodes: Seq<TreeNode>, s: LayerId, d: nat)
    requires
        d <= MAX_HIERARCHY_DEPTH,
        forall|j: int| 0 <= j < nodes.len() ==> (#[trigger] parent_fault(nodes, j)) is None,
        ancestor(nodes, s, (MAX_HIERARCHY_DEPTH + 1) as nat) is None,
        ancestor(nodes, s, d) is Some,
        find_node(nodes, ancestor(nodes, s, d)->Some_0) is Some,
    ensures
        depth_walk(nodes, ancestor(nodes, s, d + 1), d) is Some,
    decreases MAX_HIERARCHY_DEPTH - d,
{
    let a = ancestor(nodes, s, d)->Some_0;
    lemma_find_node_found(nodes, a);
    let j = find_node(nodes, a)->Some_0;
    assert(ancestor(nodes, s, d + 1) == nodes[j].parent);
    if let Some(p) = nodes[j].parent {
        if d == MAX_HIERARCHY_DEPTH {
            assert(false);
        }
        assert(parent_fault(nodes, j) is None);
        lemma_find_node_found(nodes, p);
        let k = find_node(nodes, p)->Some_0;
        assert(ancestor(nodes, s, (d + 2) as nat) == nodes[k].parent);
        lemma_depth_from(nodes, s, d + 1);
    }
}

/// A tree that passes `validate_hierarchy` has distinct identifiers and
/// every node within the depth limit below an existing root, which is what
/// moving nodes asks for.
pub proof fn law_validated_tree_is_bounded(nodes: Seq<TreeNode>)
    requires
        tree_fault(nodes) is None,
    ensures
        unique_node_ids(nodes),
        hierarchy_bounded(nodes),
{
    let n = nodes.len() as int;
    assert forall|i: int, j: int| 0 <= i < j < nodes.len() implies (#[trigger] nodes[i]).id != (
    #[trigger] nodes[j]).id by {
        lemma_first_fault_none(nodes, 0, n, j);
        if nodes[i].id == nodes[j].id {
            assert(repeats_id(nodes, j));
        }
    }
    assert forall|j: int| 0 <= j < nodes.len() implies (#[trigger] parent_fault(nodes, j)) is None by {
        lemma_first_fault_none(nodes, 1, n, j);
    }
    assert forall|i: int| 0 <= i < nodes.len() implies (#[trigger] depth_walk(
        nodes,
        nodes[i].parent,
        0,
    )) is Some by {
        lemma_first_fault_none(nodes, 2, n, i);
        let s = nodes[i].id;
        assert(walk_fault(nodes, s) is None);
        lemma_find_node_found(nodes, s);
        let f = find_node(nodes, s)->Some_0;
        if f != i {
            if f < i {
                assert(nodes[f].id != nodes[i].id);
            } else {
                assert(nodes[i].id != nodes[f].id);
            }
        }
        assert(f == i);
        assert(ancestor(nodes, s, 0) == Some(s));
        assert(ancestor(nodes, s, 1) == nodes[i].parent);
        lemma_depth_from(nodes, s, 0);
    }
}

/// Every node a successful move lists is a node the list held before.
pub proof fn lemma_moved_nodes_were_there(nodes: Seq<TreeNode>, id: LayerId, parent: Option<LayerId>, index: int)
    requires
        move_spec(nodes, id, parent, index) is Ok,
    ensures
        forall|i: int|
            0 <= i < move_spec(nodes, id, parent, index)->Ok_0.len() ==> find_node(
                nodes,
                (#[trigger] move_spec(nodes, id, parent, index)->Ok_0[i]).id,
            ) is Some,
{
    lemma_find_node_found(nodes, id);
    let k = find_node(nodes, id)->0;
    let rest = nodes.remove(k);
    lemma_sibling_slot(rest, parent, index);
    let pos = sibling_position(rest, parent, index);
    let moved = TreeNode { parent, ..nodes[k] };
    let placed = placed_nodes(rest, nodes[k], parent, index);
    assert(placed == rest.insert(pos, moved));
    let walk = forest_walk(placed, sibling_ids(placed, None), (MAX_HIERARCHY_DEPTH + 1) as nat)->Ok_0;
    let v = move_spec(nodes, id, parent, index)->Ok_0;
    assert(v == nodes_for(placed, walk));
    assert forall|i: int| 0 <= i < v.len() implies find_node(nodes, (#[trigger] v[i]).id) is Some by {
        lemma_find_node_found(placed, walk[i]);
        let j = match find_node(placed, walk[i]) {
            Some(j) => j,
            None => 0,
        };
        assert(v[i] == placed[j]);
        let m: int = if j < pos {
            if j < k {
                j
            } else {
                j + 1
            }
        } else if j == pos {
            k
        } else if j - 1 < k {
            j - 1
        } else {
            j
        };
        assert(0 <= m < nodes.len());
        assert(nodes[m].id == v[i].id);
        lemma_find_node_found(nodes, v[i].id);
    }
}

/// Every node a successful root reorder lists is a node the list held
/// before.
pub proof fn lemma_reordered_nodes_were_there(nodes: Seq<TreeNode>, id: LayerId, index: int)
    requires
        reorder_root_spec(nodes, id, index) is Ok,
    ensures
        forall|i: int|
            0 <= i < reorder_root_spec(nodes, id, index)->Ok_0.len() ==> find_node(
                nodes,
                (#[trigger] reorder_root_spec(nodes, id, index)->Ok_0[i]).id,
            ) is Some,
{
    lemma_moved_nodes_were_there(nodes, id, None, index);
}

} // verus!
