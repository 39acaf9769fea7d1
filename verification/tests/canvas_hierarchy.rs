use redrob::canvas::document::{LayerId, NodeKind, MAX_HIERARCHY_DEPTH};
use redrob::canvas::error::CoreError;
use redrob::canvas::hierarchy::{
    child_ids, find_index, insert_node, move_node, node_depth, remove_node, reorder_nodes,
    reorder_root, validate_hierarchy, validate_parent, TreeNode,
};

fn raster(id: u128, parent: Option<u128>) -> TreeNode {
    TreeNode { id: LayerId(id), parent: parent.map(LayerId), kind: NodeKind::Raster }
}

fn group(id: u128, parent: Option<u128>) -> TreeNode {
    TreeNode { id: LayerId(id), parent: parent.map(LayerId), kind: NodeKind::Group }
}

fn ids(nodes: &[TreeNode]) -> Vec<u128> {
    nodes.iter().map(|node| node.id.0).collect()
}

/// Root raster 1, then group 10 holding rasters 2 and 3, bottom to top.
fn sample() -> Vec<TreeNode> {
    vec![raster(1, None), raster(2, Some(10)), raster(3, Some(10)), group(10, None)]
}

#[test]
fn children_and_depths_follow_the_parent_links() {
    let nodes = sample();
    assert_eq!(child_ids(&nodes, None), vec![LayerId(1), LayerId(10)]);
    assert_eq!(child_ids(&nodes, Some(LayerId(10))), vec![LayerId(2), LayerId(3)]);
    assert_eq!(child_ids(&nodes, Some(LayerId(1))), Vec::<LayerId>::new());
    assert_eq!(node_depth(&nodes, LayerId(1)), Some(0));
    assert_eq!(node_depth(&nodes, LayerId(3)), Some(1));
    assert_eq!(node_depth(&nodes, LayerId(99)), None);
    assert_eq!(find_index(&nodes, LayerId(10)), Some(3));
}

#[test]
fn canonical_order_puts_children_before_their_group() {
    let scrambled = vec![group(10, None), raster(2, Some(10)), raster(1, None), raster(3, Some(10))];
    let ordered = reorder_nodes(&scrambled).unwrap();
    assert_eq!(ids(&ordered), vec![2, 3, 10, 1]);
    assert_eq!(ids(&reorder_nodes(&sample()).unwrap()), ids(&sample()));
}

#[test]
fn unreachable_nodes_are_an_invalid_order() {
    let orphaned = vec![raster(1, None), raster(2, Some(77))];
    assert!(matches!(reorder_nodes(&orphaned), Err(CoreError::InvalidHierarchyOrder)));
}

#[test]
fn nesting_past_the_depth_limit_is_refused() {
    let deepest = MAX_HIERARCHY_DEPTH as u128 + 2;
    let mut chain = Vec::new();
    for id in (1..=deepest).rev() {
        chain.push(group(id, if id == 1 { None } else { Some(id - 1) }));
    }
    assert_eq!(node_depth(&chain, LayerId(deepest)), None);
    assert_eq!(node_depth(&chain, LayerId(deepest - 1)), Some(MAX_HIERARCHY_DEPTH));
    assert!(matches!(
        reorder_nodes(&chain),
        Err(CoreError::DocumentLimitExceeded("hierarchy depth"))
    ));
    chain.remove(0);
    assert_eq!(reorder_nodes(&chain).unwrap().len(), MAX_HIERARCHY_DEPTH + 1);
}

#[test]
fn inserting_places_the_node_among_its_siblings() {
    let nodes = sample();
    let inside = insert_node(&nodes, raster(4, None), Some(LayerId(10)), 1).unwrap();
    assert_eq!(ids(&inside), vec![1, 2, 4, 3, 10]);
    assert_eq!(inside[2].parent, Some(LayerId(10)));
    let on_top = insert_node(&nodes, raster(5, None), None, 2).unwrap();
    assert_eq!(ids(&on_top), vec![1, 2, 3, 10, 5]);
    let at_bottom = insert_node(&nodes, raster(6, None), None, 0).unwrap();
    assert_eq!(ids(&at_bottom), vec![6, 1, 2, 3, 10]);
}

#[test]
fn inserting_refuses_bad_requests() {
    let nodes = sample();
    assert!(matches!(
        insert_node(&nodes, raster(2, None), None, 0),
        Err(CoreError::DuplicateNodeId(LayerId(2)))
    ));
    assert!(matches!(
        insert_node(&nodes, raster(4, None), Some(LayerId(99)), 0),
        Err(CoreError::LayerNotFound(LayerId(99)))
    ));
    assert!(matches!(
        insert_node(&nodes, raster(4, None), Some(LayerId(1)), 0),
        Err(CoreError::ParentIsNotGroup(LayerId(1)))
    ));
    assert!(matches!(
        insert_node(&nodes, raster(4, None), Some(LayerId(10)), 3),
        Err(CoreError::SiblingIndexOutOfBounds { index: 3, len: 2 })
    ));
    assert!(validate_parent(&nodes, None).is_ok());
    assert!(validate_parent(&nodes, Some(LayerId(10))).is_ok());
}

#[test]
fn moving_carries_the_subtree_and_refuses_cycles() {
    let nodes = vec![
        raster(1, None),
        raster(2, Some(10)),
        group(11, Some(10)),
        group(10, None),
    ];
    let moved = move_node(&nodes, LayerId(10), None, 0).unwrap();
    assert_eq!(ids(&moved), vec![2, 11, 10, 1]);
    let into_group = move_node(&nodes, LayerId(1), Some(LayerId(11)), 0).unwrap();
    assert_eq!(ids(&into_group), vec![2, 1, 11, 10]);
    assert_eq!(into_group[1].parent, Some(LayerId(11)));
    assert!(matches!(
        move_node(&nodes, LayerId(10), Some(LayerId(11)), 0),
        Err(CoreError::HierarchyCycle { node: LayerId(10), parent: LayerId(11) })
    ));
    assert!(matches!(
        move_node(&nodes, LayerId(10), Some(LayerId(10)), 0),
        Err(CoreError::HierarchyCycle { node: LayerId(10), parent: LayerId(10) })
    ));
    assert!(matches!(
        move_node(&nodes, LayerId(2), Some(LayerId(11)), 1),
        Err(CoreError::SiblingIndexOutOfBounds { index: 1, len: 0 })
    ));
    assert!(matches!(
        move_node(&nodes, LayerId(7), None, 0),
        Err(CoreError::LayerNotFound(LayerId(7)))
    ));
}

#[test]
fn root_reordering_is_for_root_nodes_only() {
    let nodes = sample();
    assert_eq!(ids(&reorder_root(&nodes, LayerId(1), 1).unwrap()), vec![2, 3, 10, 1]);
    assert!(matches!(reorder_root(&nodes, LayerId(2), 0), Err(CoreError::InvalidHierarchyOrder)));
    assert!(matches!(
        reorder_root(&nodes, LayerId(1), 2),
        Err(CoreError::LayerIndexOutOfBounds { index: 2, len: 2 })
    ));
}

#[test]
fn removing_needs_an_empty_node_and_another_left() {
    let nodes = sample();
    assert!(matches!(remove_node(&nodes, LayerId(10)), Err(CoreError::NonEmptyGroup(LayerId(10)))));
    let (rest, next) = remove_node(&nodes, LayerId(2)).unwrap();
    assert_eq!(ids(&rest), vec![1, 3, 10]);
    assert_eq!(next, LayerId(3));
    let (rest, next) = remove_node(&rest, LayerId(3)).unwrap();
    assert_eq!(next, LayerId(10));
    let (rest, next) = remove_node(&rest, LayerId(10)).unwrap();
    assert_eq!(next, LayerId(1));
    assert!(matches!(remove_node(&rest, LayerId(1)), Err(CoreError::LastLayer)));
}

#[test]
fn identifiers_print_as_uuids() {
    let bits = 0x67e5_5044_10b1_426f_9247_bb68_0e5f_e0c8_u128;
    assert_eq!(LayerId(bits).to_string(), "67e55044-10b1-426f-9247-bb680e5fe0c8");
    assert_eq!(LayerId(0).to_string(), "00000000-0000-0000-0000-000000000000");
    for bits in [1_u128, u128::MAX, 0xdead_beef_u128 << 64, 12_345_678_901_234_567_890] {
        assert_eq!(LayerId(bits).to_string(), uuid::Uuid::from_u128(bits).to_string());
    }
}

#[test]
fn validation_reports_the_first_tree_fault() {
    assert!(validate_hierarchy(&sample()).is_ok());
    let duplicated = vec![raster(1, None), raster(1, None)];
    assert!(matches!(validate_hierarchy(&duplicated), Err(CoreError::DuplicateNodeId(LayerId(1)))));
    match validate_hierarchy(&[raster(1, Some(2))]) {
        Err(CoreError::MalformedProject(message)) => assert_eq!(
            message,
            "parent 00000000-0000-0000-0000-000000000002 of node 00000000-0000-0000-0000-000000000001 does not exist"
        ),
        other => panic!("unexpected {other:?}"),
    }
    match validate_hierarchy(&[raster(1, Some(2)), raster(2, None)]) {
        Err(CoreError::MalformedProject(message)) => {
            assert_eq!(message, "parent 00000000-0000-0000-0000-000000000002 is not a group")
        }
        other => panic!("unexpected {other:?}"),
    }
    match validate_hierarchy(&[group(1, Some(2)), group(2, Some(1))]) {
        Err(CoreError::MalformedProject(message)) => {
            assert_eq!(message, "node hierarchy contains a cycle")
        }
        other => panic!("unexpected {other:?}"),
    }
    let deepest = MAX_HIERARCHY_DEPTH as u128 + 2;
    let mut chain = Vec::new();
    for id in (1..=deepest).rev() {
        chain.push(group(id, if id == 1 { None } else { Some(id - 1) }));
    }
    assert!(matches!(
        validate_hierarchy(&chain),
        Err(CoreError::DocumentLimitExceeded("hierarchy depth"))
    ));
    chain.remove(0);
    assert!(validate_hierarchy(&chain).is_ok());
}
