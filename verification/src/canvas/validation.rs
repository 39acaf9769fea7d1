//! Whole-document checks on the node list: what a loaded or edited
//! document must satisfy before it is accepted.

use vstd::prelude::*;
use vstd::string::StringExecFns;

use crate::canvas::document::{
    pixel_count, Frame, valid_dimensions, LayerId, NodeKind, RasterCel, MAX_NODES, MAX_NODE_NAME_BYTES,
    MAX_STORED_RASTER_BYTES,
};
use crate::canvas::error::CoreError;
use crate::canvas::hierarchy::{
    reorder_nodes, reorder_spec, tree_error_matches, tree_fault, validate_hierarchy, TreeNode,
};
use crate::canvas::timeline::{cel_error_matches, first_cel_fault, CelFault, Timeline};
use crate::text::{byte_len, chars_of, trim, trim_range, utf8_len};

verus! {

/// What document validation reads of one node. A node's opacity is a
/// float; `opacity_valid` records whether it is finite and within `0..=1`.
/// `mask_len` is the length of the node's mask, if it has one, and `cels`
/// are the node's raster cels (read only for raster nodes).
pub struct NodeRecord {
    pub id: LayerId,
    pub parent: Option<LayerId>,
    pub kind: NodeKind,
    pub name: String,
    pub opacity_valid: bool,
    pub mask_len: Option<usize>,
    pub cels: Vec<RasterCel>,
}

/// What is wrong with a node, in the order the checks run.
pub enum NodeFault {
    /// An earlier node has the same identifier.
    DuplicateId(LayerId),
    /// The name is blank.
    EmptyName,
    /// The name is longer than the name limit in bytes.
    LongName,
    /// The opacity is not a finite value within `0..=1`.
    Opacity,
    /// Only raster and group nodes take masks.
    MaskOnKind(NodeKind),
    /// The mask does not cover the canvas; holds the mask's length.
    MaskLength(usize),
    /// A raster node has no cel, or more cels than there are frames.
    CelCount,
    /// A raster cel is faulty.
    Cel(CelFault),
    /// The stored raster bytes pass the budget with this node.
    StoredBytes,
}

/// Sum of the byte lengths of the cels.
pub open spec fn cel_bytes(cels: Seq<RasterCel>) -> int
    decreases cels.len(),
{
    if cels.len() == 0 {
        0
    } else {
        cel_bytes(cels.drop_last()) + cels.last().pixels@.len()
    }
}

/// Raster bytes a node stores: its mask and, for a raster node, its cels.
pub open spec fn node_bytes(node: NodeRecord) -> int {
    (match node.mask_len {
        Some(m) => m as int,
        None => 0,
    }) + if node.kind is Raster {
        cel_bytes(node.cels@)
    } else {
        0
    }
}

/// Stored raster bytes after the first `k` nodes, starting from `start`.
pub open spec fn stored_upto(nodes: Seq<NodeRecord>, start: int, k: int) -> int
    decreases k,
{
    if k <= 0 {
        start
    } else {
        stored_upto(nodes, start, k - 1) + node_bytes(nodes[k - 1])
    }
}

/// The fault of node `i`, given the stored bytes before it, on a canvas of
/// `count` pixels with the timeline's `frames`.
pub open spec fn node_fault(
    nodes: Seq<NodeRecord>,
    frames: Seq<Frame>,
    count: usize,
    i: int,
    stored_before: int,
) -> Option<NodeFault> {
    let node = nodes[i];
    if exists|j: int| 0 <= j < i && (#[trigger] nodes[j]).id == node.id {
        Some(NodeFault::DuplicateId(node.id))
    } else if trim(node.name@).len() == 0 {
        Some(NodeFault::EmptyName)
    } else if utf8_len(node.name@) > MAX_NODE_NAME_BYTES {
        Some(NodeFault::LongName)
    } else if !node.opacity_valid {
        Some(NodeFault::Opacity)
    } else if node.mask_len is Some && !(node.kind is Raster || node.kind is Group) {
        Some(NodeFault::MaskOnKind(node.kind))
    } else if node.mask_len matches Some(m) && m != count {
        Some(NodeFault::MaskLength(node.mask_len->0))
    } else if node.kind is Raster && (node.cels@.len() == 0 || node.cels@.len() > frames.len()) {
        Some(NodeFault::CelCount)
    } else if node.kind is Raster && first_cel_fault(
        node.cels@,
        frames,
        (count * 4) as usize,
        node.cels@.len() as int,
    ) is Some {
        Some(
            NodeFault::Cel(
                first_cel_fault(node.cels@, frames, (count * 4) as usize, node.cels@.len() as int)->0,
            ),
        )
    } else if stored_before + node_bytes(node) > MAX_STORED_RASTER_BYTES {
        Some(NodeFault::StoredBytes)
    } else {
        None
    }
}

/// The fault of the first faulty node among the first `n`.
pub open spec fn first_node_fault(
    nodes: Seq<NodeRecord>,
    frames: Seq<Frame>,
    count: usize,
    start: int,
    n: int,
) -> Option<NodeFault>
    decreases n,
{
    if n <= 0 {
        None
    } else {
        match first_node_fault(nodes, frames, count, start, n - 1) {
            Some(f) => Some(f),
            None => node_fault(nodes, frames, count, n - 1, stored_upto(nodes, start, n - 1)),
        }
    }
}

/// The error a node fault is reported as.
pub open spec fn node_error_matches(fault: NodeFault, count: usize, e: CoreError) -> bool {
    match fault {
        NodeFault::DuplicateId(id) => e == CoreError::DuplicateNodeId(id),
        NodeFault::EmptyName => e == CoreError::EmptyLayerName,
        NodeFault::LongName => e == CoreError::DocumentLimitExceeded("node name bytes"),
        NodeFault::Opacity => e == CoreError::InvalidOpacity,
        NodeFault::MaskOnKind(kind) => e == CoreError::UnsupportedNodeContent(kind),
        NodeFault::MaskLength(actual) => e == CoreError::InvalidBufferLength { expected: count, actual },
        NodeFault::CelCount => e == CoreError::DocumentLimitExceeded("raster cel count"),
        NodeFault::Cel(f) => cel_error_matches(f, (count * 4) as usize, e),
        NodeFault::StoredBytes => e == CoreError::DocumentLimitExceeded("stored raster bytes"),
    }
}

/// The tree part of each node.
pub open spec fn tree_of(nodes: Seq<NodeRecord>) -> Seq<TreeNode> {
    nodes.map_values(|n: NodeRecord| TreeNode { id: n.id, parent: n.parent, kind: n.kind })
}

/// The identifiers of the nodes, in order.
pub open spec fn ids_of(nodes: Seq<TreeNode>) -> Seq<LayerId> {
    nodes.map_values(|n: TreeNode| n.id)
}

/// Once a prefix has a faulty node, every longer prefix reports that fault.
proof fn lemma_first_node_fault_sticks(
    nodes: Seq<NodeRecord>,
    frames: Seq<Frame>,
    count: usize,
    start: int,
    m: int,
    n: int,
)
    requires
        0 <= m <= n,
        first_node_fault(nodes, frames, count, start, m) is Some,
    ensures
        first_node_fault(nodes, frames, count, start, n) == first_node_fault(nodes, frames, count, start, m),
    decreases n - m,
{
    if m < n {
        lemma_first_node_fault_sticks(nodes, frames, count, start, m, n - 1);
    }
}

/// Byte lengths of a raster node's cels, summed and held at `u64::MAX`.
fn sum_cel_bytes(cels: &[RasterCel], start: u64) -> (r: u64)
    ensures
        r == if start + cel_bytes(cels@) > u64::MAX {
            u64::MAX as int
        } else {
            start + cel_bytes(cels@)
        },
{
    let mut acc = start;
    let mut k: usize = 0;
    while k < cels.len()
        invariant
            k <= cels@.len(),
            acc == if start + cel_bytes(cels@.take(k as int)) > u64::MAX {
                u64::MAX as int
            } else {
                start + cel_bytes(cels@.take(k as int))
            },
        decreases cels@.len() - k,
    {
        proof {
            assert(cels@.take(k + 1).drop_last() =~= cels@.take(k as int));
            assert(cels@.take(k + 1).last() == cels@[k as int]);
            lemma_cel_bytes_nonneg(cels@.take(k as int));
        }
        let len = cels[k].pixels().len() as u64;
        acc = acc.saturating_add(len);
        k = k + 1;
    }
    proof {
        assert(cels@.take(cels@.len() as int) =~= cels@);
    }
    acc
}

proof fn lemma_cel_bytes_nonneg(cels: Seq<RasterCel>)
    ensures
        cel_bytes(cels) >= 0,
    decreases cels.len(),
{
    if cels.len() > 0 {
        lemma_cel_bytes_nonneg(cels.drop_last());
    }
}

/// Checks a document's nodes, in the order a document is checked: the
/// canvas dimensions, that there is a node and not too many, then each node
/// in list order (distinct identifier, a name that is not blank and not too
/// long, a valid opacity, a mask only on raster and group nodes and covering
/// the canvas, valid raster cels, and the stored raster bytes, starting from
/// the selection mask's `selection_bytes`, within the budget), then that the
/// active node exists, that the tree is sound, and that the nodes are in
/// canonical order.
#[verifier::loop_isolation(false)]
pub fn validate_nodes(
    width: u32,
    height: u32,
    timeline: &Timeline,
    nodes: &[NodeRecord],
    active: LayerId,
    selection_bytes: usize,
) -> (r: Result<(), CoreError>)
    requires
        timeline.valid(),
    ensures
        !valid_dimensions(width, height) ==> (r matches Err(CoreError::InvalidDimensions { width: w, height: h })
            && w == width && h == height),
        valid_dimensions(width, height) && nodes@.len() == 0 ==> r == Err::<(), CoreError>(
            CoreError::LastLayer,
        ),
        valid_dimensions(width, height) && nodes@.len() > MAX_NODES ==> r == Err::<(), CoreError>(
            CoreError::DocumentLimitExceeded("node count"),
        ),
        valid_dimensions(width, height) && 0 < nodes@.len() <= MAX_NODES ==> ({
            let count = (width * height) as usize;
            let tree = tree_of(nodes@);
            match first_node_fault(nodes@, timeline@.frames, count, selection_bytes as int, nodes@.len() as int) {
                Some(fault) => r matches Err(e) && node_error_matches(fault, count, e),
                None => if !(exists|j: int| 0 <= j < nodes@.len() && (#[trigger] nodes@[j]).id == active) {
                    r matches Err(CoreError::MalformedProject(m)) && m@ == "active node does not exist"@
                } else {
                    match tree_fault(tree) {
                        Some(tf) => r matches Err(e) && tree_error_matches(tf, e),
                        None => match reorder_spec(tree) {
                            Err(e) => r == Err::<(), CoreError>(e),
                            Ok(canonical) => if ids_of(canonical) == ids_of(tree) {
                                r is Ok
                            } else {
                                r == Err::<(), CoreError>(CoreError::InvalidHierarchyOrder)
                            },
                        },
                    }
                },
            }
        }),
{
    let count = match pixel_count(width, height) {
        Ok(c) => c,
        Err(e) => return Err(e),
    };
    let expected = count * 4;
    if nodes.len() == 0 {
        return Err(CoreError::LastLayer);
    }
    if nodes.len() > MAX_NODES {
        return Err(CoreError::DocumentLimitExceeded("node count"));
    }
    let ghost frames = timeline@.frames;
    let ghost start = selection_bytes as int;
    let n = nodes.len();
    let mut stored: u64 = selection_bytes as u64;
    let mut tree: Vec<TreeNode> = Vec::new();
    let mut i: usize = 0;
    while i < n
        invariant
            n == nodes@.len(),
            0 < n <= MAX_NODES,
            i <= n,
            timeline.valid(),
            frames == timeline@.frames,
            count == (width * height) as usize,
            count <= 64 * 1024 * 1024,
            expected == count * 4,
            first_node_fault(nodes@, frames, count, start, i as int) is None,
            stored == stored_upto(nodes@, start, i as int),
            tree@ == tree_of(nodes@.take(i as int)),
        decreases n - i,
    {
        let node = &nodes[i];
        let ghost before = stored_upto(nodes@, start, i as int);
        let mut j: usize = 0;
        while j < i
            invariant
                j <= i < n,
                n == nodes@.len(),
                node == nodes@[i as int],
                forall|k: int| 0 <= k < j ==> (#[trigger] nodes@[k]).id != node.id,
            decreases i - j,
        {
            if nodes[j].id.0 == node.id.0 {
                proof {
                    assert(nodes@[j as int].id == node.id);
                    assert(node_fault(nodes@, frames, count, i as int, before) == Some(NodeFault::DuplicateId(node.id)));
                    lemma_first_node_fault_sticks(nodes@, frames, count, start, i + 1, n as int);
                }
                return Err(CoreError::DuplicateNodeId(node.id));
            }
            j = j + 1;
        }
        assert(!exists|k: int| 0 <= k < i && (#[trigger] nodes@[k]).id == node.id);
        let chars = chars_of(node.name.as_str());
        let (s, e) = trim_range(&chars);
        if s == e {
            proof {
                lemma_first_node_fault_sticks(nodes@, frames, count, start, i + 1, n as int);
            }
            return Err(CoreError::EmptyLayerName);
        }
        if byte_len(&node.name) > MAX_NODE_NAME_BYTES {
            proof {
                lemma_first_node_fault_sticks(nodes@, frames, count, start, i + 1, n as int);
            }
            return Err(CoreError::DocumentLimitExceeded("node name bytes"));
        }
        if !node.opacity_valid {
            proof {
                lemma_first_node_fault_sticks(nodes@, frames, count, start, i + 1, n as int);
            }
            return Err(CoreError::InvalidOpacity);
        }
        let is_raster = match node.kind {
            NodeKind::Raster => true,
            _ => false,
        };
        let mut bytes: u64 = 0;
        match node.mask_len {
            Some(m) => {
                match node.kind {
                    NodeKind::Raster | NodeKind::Group => {},
                    kind => {
                        proof {
                            lemma_first_node_fault_sticks(nodes@, frames, count, start, i + 1, n as int);
                        }
                        return Err(CoreError::UnsupportedNodeContent(kind));
                    },
                }
                if m != count {
                    proof {
                        lemma_first_node_fault_sticks(nodes@, frames, count, start, i + 1, n as int);
                    }
                    return Err(CoreError::InvalidBufferLength { expected: count, actual: m });
                }
                bytes = m as u64;
            },
            None => {},
        }
        if is_raster {
            match timeline.validate_raster_cels(node.cels.as_slice(), expected) {
                Ok(()) => {},
                Err(e) => {
                    proof {
                        lemma_first_node_fault_sticks(nodes@, frames, count, start, i + 1, n as int);
                    }
                    return Err(e);
                },
            }
            bytes = sum_cel_bytes(node.cels.as_slice(), bytes);
        }
        proof {
            lemma_cel_bytes_nonneg(node.cels@);
        }
        let next = stored.saturating_add(bytes);
        if next > MAX_STORED_RASTER_BYTES {
            proof {
                lemma_first_node_fault_sticks(nodes@, frames, count, start, i + 1, n as int);
            }
            return Err(CoreError::DocumentLimitExceeded("stored raster bytes"));
        }
        stored = next;
        tree.push(TreeNode { id: node.id, parent: node.parent, kind: node.kind });
        proof {
            assert(tree@ =~= tree_of(nodes@.take(i + 1)));
        }
        i = i + 1;
    }
    proof {
        assert(nodes@.take(n as int) =~= nodes@);
    }
    let mut found = false;
    let mut j: usize = 0;
    while j < n
        invariant
            j <= n,
            n == nodes@.len(),
            found <==> exists|k: int| 0 <= k < j && (#[trigger] nodes@[k]).id == active,
        decreases n - j,
    {
        if nodes[j].id.0 == active.0 {
            found = true;
        }
        j = j + 1;
    }
    if !found {
        return Err(CoreError::MalformedProject(String::from_str("active node does not exist")));
    }
    match validate_hierarchy(tree.as_slice()) {
        Ok(()) => {},
        Err(e) => return Err(e),
    }
    let canonical = match reorder_nodes(tree.as_slice()) {
        Ok(c) => c,
        Err(e) => return Err(e),
    };
    if canonical.len() != tree.len() {
        return Err(CoreError::InvalidHierarchyOrder);
    }
    let mut k: usize = 0;
    while k < tree.len()
        invariant
            k <= tree@.len(),
            canonical@.len() == tree@.len(),
            forall|m: int| 0 <= m < k ==> (#[trigger] canonical@[m]).id == tree@[m].id,
        decreases tree@.len() - k,
    {
        if canonical[k].id.0 != tree[k].id.0 {
            proof {
                assert(ids_of(canonical@)[k as int] != ids_of(tree@)[k as int]);
            }
            return Err(CoreError::InvalidHierarchyOrder);
        }
        k = k + 1;
    }
    proof {
        assert(ids_of(canonical@) =~= ids_of(tree@));
    }
    Ok(())
}

/// What a node stores per canvas pixel: whether it has a mask, and how
/// many RGBA cels it holds.
#[derive(Clone, Copy, Debug, PartialEq, Eq)]
pub struct RasterFootprint {
    pub has_mask: bool,
    pub cels: usize,
}

/// Cels and masks over the first `n` nodes.
pub open spec fn footprint_totals(layers: Seq<RasterFootprint>, n: int) -> (int, int)
    decreases n,
{
    if n <= 0 {
        (0, 0)
    } else {
        let (cels, masks) = footprint_totals(layers, n - 1);
        (cels + layers[n - 1].cels, masks + if layers[n - 1].has_mask {
            1int
        } else {
            0int
        })
    }
}

/// Bytes stored per canvas pixel: four per cel, one per mask and one for
/// the selection mask.
pub open spec fn bytes_per_pixel(layers: Seq<RasterFootprint>) -> int {
    let (cels, masks) = footprint_totals(layers, layers.len() as int);
    4 * cels + masks + 1
}

proof fn lemma_footprint_grows(layers: Seq<RasterFootprint>, m: int, n: int)
    requires
        0 <= m <= n <= layers.len(),
    ensures
        0 <= footprint_totals(layers, m).0 <= footprint_totals(layers, n).0,
        0 <= footprint_totals(layers, m).1 <= footprint_totals(layers, n).1,
    decreases n - m,
{
    if m < n {
        lemma_footprint_grows(layers, m, n - 1);
    } else {
        lemma_footprint_nonneg(layers, m);
    }
}

proof fn lemma_footprint_nonneg(layers: Seq<RasterFootprint>, n: int)
    ensures
        footprint_totals(layers, n).0 >= 0,
        footprint_totals(layers, n).1 >= 0,
    decreases n,
{
    if n > 0 {
        lemma_footprint_nonneg(layers, n - 1);
    }
}

/// Refuses a canvas of `target_pixels` pixels when the cels, masks and
/// selection mask of the nodes would store more than the raster budget at
/// that size, or when counting them overflows.
pub fn preflight_canvas_raster_bytes(layers: &[RasterFootprint], target_pixels: usize) -> (r: Result<(), CoreError>)
    ensures
        r is Err <==> bytes_per_pixel(layers@) > u64::MAX || target_pixels * bytes_per_pixel(layers@)
            > MAX_STORED_RASTER_BYTES,
        r is Err ==> r == Err::<(), CoreError>(CoreError::DocumentLimitExceeded("stored raster bytes")),
{
    let n = layers.len();
    let mut cels: u64 = 0;
    let mut masks: u64 = 1;
    let mut i: usize = 0;
    while i < n
        invariant
            n == layers@.len(),
            i <= n,
            cels == footprint_totals(layers@, i as int).0,
            masks == footprint_totals(layers@, i as int).1 + 1,
        decreases n - i,
    {
        proof {
            lemma_footprint_grows(layers@, i + 1, n as int);
        }
        if layers[i].has_mask {
            masks = match masks.checked_add(1) {
                Some(v) => v,
                None => return Err(CoreError::DocumentLimitExceeded("stored raster bytes")),
            };
        }
        cels = match cels.checked_add(layers[i].cels as u64) {
            Some(v) => v,
            None => return Err(CoreError::DocumentLimitExceeded("stored raster bytes")),
        };
        i = i + 1;
    }
    let per_pixel = match cels.checked_mul(4) {
        Some(v) => match v.checked_add(masks) {
            Some(w) => w,
            None => return Err(CoreError::DocumentLimitExceeded("stored raster bytes")),
        },
        None => {
            proof {
                lemma_footprint_nonneg(layers@, n as int);
            }
            return Err(CoreError::DocumentLimitExceeded("stored raster bytes"));
        },
    };
    let target = match (target_pixels as u64).checked_mul(per_pixel) {
        Some(v) => v,
        None => return Err(CoreError::DocumentLimitExceeded("stored raster bytes")),
    };
    if target > MAX_STORED_RASTER_BYTES {
        return Err(CoreError::DocumentLimitExceeded("stored raster bytes"));
    }
    Ok(())
}

} // verus!
