use redrob::canvas::document::{FrameId, LayerId, NodeKind, RasterCel};
use redrob::canvas::error::CoreError;
use redrob::canvas::timeline::Timeline;
use redrob::canvas::validation::{
    preflight_canvas_raster_bytes, validate_nodes, NodeRecord, RasterFootprint,
};

fn raster(id: u128, parent: Option<u128>, bytes: usize) -> NodeRecord {
    NodeRecord {
        id: LayerId(id),
        parent: parent.map(LayerId),
        kind: NodeKind::Raster,
        name: format!("Layer {id}"),
        opacity_valid: true,
        mask_len: None,
        cels: vec![RasterCel::new(FrameId::new(0), vec![0; bytes])],
    }
}

fn group(id: u128) -> NodeRecord {
    NodeRecord {
        id: LayerId(id),
        parent: None,
        kind: NodeKind::Group,
        name: "Group".to_string(),
        opacity_valid: true,
        mask_len: None,
        cels: Vec::new(),
    }
}

fn check(nodes: &[NodeRecord], active: u128) -> Result<(), CoreError> {
    validate_nodes(2, 2, &Timeline::default(), nodes, LayerId(active), 0)
}

#[test]
fn well_formed_nodes_pass_validation() {
    let nodes = vec![raster(1, None, 16), raster(2, Some(3), 16), group(3)];
    assert!(check(&nodes, 2).is_ok());
}

#[test]
fn validation_rejects_bad_dimensions_and_empty_documents() {
    let nodes = vec![raster(1, None, 16)];
    assert!(matches!(
        validate_nodes(0, 2, &Timeline::default(), &nodes, LayerId(1), 0),
        Err(CoreError::InvalidDimensions { width: 0, height: 2 })
    ));
    assert!(matches!(check(&[], 1), Err(CoreError::LastLayer)));
}

#[test]
fn validation_reports_the_first_faulty_node() {
    let nodes = vec![raster(1, None, 16), raster(1, None, 16)];
    assert!(matches!(check(&nodes, 1), Err(CoreError::DuplicateNodeId(LayerId(1)))));

    let mut blank = raster(1, None, 16);
    blank.name = "  \t".to_string();
    assert!(matches!(check(&[blank], 1), Err(CoreError::EmptyLayerName)));

    let mut long = raster(1, None, 16);
    long.name = "x".repeat(4_097);
    assert!(matches!(
        check(&[long], 1),
        Err(CoreError::DocumentLimitExceeded("node name bytes"))
    ));

    let mut faded = raster(1, None, 16);
    faded.opacity_valid = false;
    assert!(matches!(check(&[faded], 1), Err(CoreError::InvalidOpacity)));
}

#[test]
fn validation_checks_masks_and_cels() {
    let mut text = group(1);
    text.kind = NodeKind::Text;
    text.mask_len = Some(4);
    assert!(matches!(
        check(&[text], 1),
        Err(CoreError::UnsupportedNodeContent(NodeKind::Text))
    ));

    let mut short_mask = raster(1, None, 16);
    short_mask.mask_len = Some(3);
    assert!(matches!(
        check(&[short_mask], 1),
        Err(CoreError::InvalidBufferLength { expected: 4, actual: 3 })
    ));

    assert!(matches!(
        check(&[raster(1, None, 15)], 1),
        Err(CoreError::InvalidBufferLength { expected: 16, actual: 15 })
    ));

    let mut no_cels = raster(1, None, 16);
    no_cels.cels.clear();
    assert!(matches!(
        check(&[no_cels], 1),
        Err(CoreError::DocumentLimitExceeded("raster cel count"))
    ));
}

#[test]
fn validation_enforces_the_stored_raster_budget() {
    let nodes = vec![raster(1, None, 16)];
    assert!(validate_nodes(2, 2, &Timeline::default(), &nodes, LayerId(1), (1 << 30) - 16).is_ok());
    assert!(matches!(
        validate_nodes(2, 2, &Timeline::default(), &nodes, LayerId(1), (1 << 30) - 15),
        Err(CoreError::DocumentLimitExceeded("stored raster bytes"))
    ));
}

#[test]
fn validation_checks_active_node_tree_and_order() {
    let nodes = vec![raster(1, None, 16)];
    match check(&nodes, 9) {
        Err(CoreError::MalformedProject(message)) => assert_eq!(message, "active node does not exist"),
        other => panic!("unexpected {other:?}"),
    }

    let orphan = vec![raster(1, Some(7), 16)];
    assert!(check(&orphan, 1).is_err());

    let out_of_order = vec![group(3), raster(2, Some(3), 16)];
    assert!(matches!(check(&out_of_order, 2), Err(CoreError::InvalidHierarchyOrder)));
}

#[test]
fn canvas_budget_counts_cels_masks_and_the_selection() {
    let layers = [RasterFootprint { has_mask: true, cels: 2 }, RasterFootprint { has_mask: false, cels: 0 }];
    assert!(preflight_canvas_raster_bytes(&layers, 4).is_ok());
    assert!(preflight_canvas_raster_bytes(&layers, 107_374_182).is_ok());
    assert!(matches!(
        preflight_canvas_raster_bytes(&layers, 107_374_183),
        Err(CoreError::DocumentLimitExceeded("stored raster bytes"))
    ));
    let huge = [RasterFootprint { has_mask: false, cels: usize::MAX }, RasterFootprint { has_mask: false, cels: usize::MAX }];
    assert!(preflight_canvas_raster_bytes(&huge, 1).is_err());
    assert!(preflight_canvas_raster_bytes(&[], 1 << 30).is_ok());
    assert!(preflight_canvas_raster_bytes(&[], (1 << 30) + 1).is_err());
}
