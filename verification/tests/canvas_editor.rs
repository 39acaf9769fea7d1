use redrob::canvas::document::{BlendMode, FrameId, LayerId, NodeKind, Rect};
use redrob::canvas::editor::{Command, CommandBus, Document, Editor, NodeAttributes};
use redrob::canvas::history::HistoryConfig;
use redrob::canvas::error::CoreError;
use redrob::canvas::hierarchy::{node_depth, TreeNode};
use redrob::canvas::selection::{Selection, SelectionMode};
use redrob::canvas::timeline::{Navigation, Timeline};

fn document() -> Document {
    Document {
        timeline: Timeline::default(),
        nodes: vec![
            TreeNode { id: LayerId(1), parent: None, kind: NodeKind::Raster },
            TreeNode { id: LayerId(2), parent: None, kind: NodeKind::Raster },
        ],
        attributes: vec![
            NodeAttributes { name: "Background".to_string(), visible: true, blend: BlendMode::Normal },
            NodeAttributes { name: "Ink".to_string(), visible: true, blend: BlendMode::Normal },
        ],
        active: LayerId(1),
        selection: Selection::new(4, 4).unwrap(),
    }
}

fn frame_ids(document: &Document) -> Vec<u32> {
    document.timeline.frames().iter().map(|frame| frame.id.get()).collect()
}

#[test]
fn property_commands_change_one_node_and_report_it() {
    let mut doc = document();
    let changes = CommandBus::apply(&mut doc, &Command::RenameLayer { id: LayerId(2), name: "Lines".to_string() })
        .unwrap();
    assert_eq!(doc.attributes[1].name, "Lines");
    assert_eq!(doc.attributes[0].name, "Background");
    assert_eq!(changes.changed_layers, vec![LayerId(2)]);
    assert!(changes.document_changed && !changes.structure_changed && !changes.timeline_changed);

    CommandBus::apply(&mut doc, &Command::SetLayerVisibility { id: LayerId(1), visible: false }).unwrap();
    assert!(!doc.attributes[0].visible);
    CommandBus::apply(&mut doc, &Command::SetLayerBlendMode { id: LayerId(2), mode: BlendMode::Screen }).unwrap();
    assert_eq!(doc.attributes[1].blend, BlendMode::Screen);
    let changes = CommandBus::apply(&mut doc, &Command::SetActiveLayer { id: LayerId(2) }).unwrap();
    assert_eq!(doc.active, LayerId(2));
    assert!(changes.changed_layers.is_empty());
}

#[test]
fn refused_commands_leave_the_document_unchanged() {
    let mut doc = document();
    assert!(matches!(
        CommandBus::apply(&mut doc, &Command::RenameLayer { id: LayerId(2), name: "  ".to_string() }),
        Err(CoreError::EmptyLayerName)
    ));
    assert!(matches!(
        CommandBus::apply(&mut doc, &Command::RenameLayer { id: LayerId(9), name: "x".to_string() }),
        Err(CoreError::LayerNotFound(LayerId(9)))
    ));
    assert!(matches!(
        CommandBus::apply(&mut doc, &Command::SetActiveLayer { id: LayerId(9) }),
        Err(CoreError::LayerNotFound(LayerId(9)))
    ));
    assert!(matches!(
        CommandBus::apply(&mut doc, &Command::AddFrame { id: FrameId::new(0), index: 0 }),
        Err(CoreError::DuplicateFrameId(id)) if id == FrameId::new(0)
    ));
    assert!(matches!(
        CommandBus::apply(&mut doc, &Command::GrowSelection { radius: 5_000 }),
        Err(CoreError::InvalidSelectionRadius(5_000))
    ));
    assert_eq!(doc.attributes[1].name, "Ink");
    assert_eq!(doc.active, LayerId(1));
    assert_eq!(frame_ids(&doc), vec![0]);
    assert!(!doc.selection.is_active());
}

#[test]
fn timeline_and_selection_commands_report_their_part() {
    let mut doc = document();
    let changes = CommandBus::apply(&mut doc, &Command::AddFrame { id: FrameId::new(1), index: 1 }).unwrap();
    assert!(changes.timeline_changed && !changes.selection_changed);
    assert_eq!(frame_ids(&doc), vec![0, 1]);
    assert!(matches!(
        CommandBus::apply(&mut doc, &Command::SetPlaybackRange { start: FrameId::new(1), end: FrameId::new(0) }),
        Err(CoreError::InvalidPlaybackRange)
    ));
    CommandBus::apply(&mut doc, &Command::SetPlaybackRange { start: FrameId::new(0), end: FrameId::new(1) })
        .unwrap();
    CommandBus::apply(&mut doc, &Command::MoveFrame { id: FrameId::new(1), new_index: 0 }).unwrap_err();

    let changes = CommandBus::apply(
        &mut doc,
        &Command::SelectRectangle { rect: Rect::new(0, 0, 2, 2), mode: SelectionMode::Replace },
    )
    .unwrap();
    assert!(changes.selection_changed && !changes.timeline_changed);
    assert!(doc.selection.is_active());
    assert_eq!(doc.selection.coverage(1, 1), 255);
    assert_eq!(doc.selection.coverage(2, 2), 0);
    CommandBus::apply(&mut doc, &Command::InvertSelection).unwrap();
    assert_eq!(doc.selection.coverage(2, 2), 255);
    CommandBus::apply(&mut doc, &Command::ClearSelection).unwrap();
    assert!(!doc.selection.is_active());
}

fn names(document: &Document) -> Vec<String> {
    document.attributes.iter().map(|a| a.name.clone()).collect()
}

fn node_ids(document: &Document) -> Vec<u128> {
    document.nodes.iter().map(|n| n.id.0).collect()
}

#[test]
fn structure_commands_keep_properties_with_their_nodes() {
    let mut doc = document();
    let changes = CommandBus::apply(
        &mut doc,
        &Command::AddGroup { id: LayerId(3), name: "Group".to_string(), parent: None, sibling_index: 2 },
    )
    .unwrap();
    assert!(changes.structure_changed);
    assert_eq!(changes.changed_layers, vec![LayerId(3)]);
    assert_eq!(node_ids(&doc), vec![1, 2, 3]);
    assert_eq!(names(&doc), vec!["Background", "Ink", "Group"]);
    assert_eq!(doc.active, LayerId(3));

    let changes = CommandBus::apply(
        &mut doc,
        &Command::MoveNode { id: LayerId(2), parent: Some(LayerId(3)), sibling_index: 0 },
    )
    .unwrap();
    assert_eq!(changes.changed_layers, vec![LayerId(2), LayerId(3)]);
    assert_eq!(doc.nodes[1].parent, Some(LayerId(3)));
    assert_eq!(node_ids(&doc), vec![1, 2, 3]);
    assert_eq!(names(&doc), vec!["Background", "Ink", "Group"]);

    assert!(matches!(
        CommandBus::apply(&mut doc, &Command::RemoveLayer { id: LayerId(3) }),
        Err(CoreError::NonEmptyGroup(LayerId(3)))
    ));
    assert!(matches!(
        CommandBus::apply(
            &mut doc,
            &Command::AddGroup { id: LayerId(4), name: " ".to_string(), parent: None, sibling_index: 0 },
        ),
        Err(CoreError::EmptyLayerName)
    ));
    assert_eq!(node_ids(&doc), vec![1, 2, 3]);

    let changes = CommandBus::apply(&mut doc, &Command::RemoveLayer { id: LayerId(1) }).unwrap();
    assert_eq!(changes.changed_layers, vec![LayerId(1)]);
    assert_eq!(doc.active, LayerId(3));
    CommandBus::apply(&mut doc, &Command::SetActiveLayer { id: LayerId(2) }).unwrap();
    let changes = CommandBus::apply(&mut doc, &Command::RemoveLayer { id: LayerId(2) }).unwrap();
    assert_eq!(changes.changed_layers, vec![LayerId(2), LayerId(3), LayerId(3)]);
    assert_eq!(doc.active, LayerId(3));
    assert_eq!(node_ids(&doc), vec![3]);
    assert_eq!(names(&doc), vec!["Group"]);
}

#[test]
fn reordering_a_root_layer_moves_its_properties() {
    let mut doc = document();
    CommandBus::apply(&mut doc, &Command::ReorderLayer { id: LayerId(1), new_index: 1 }).unwrap();
    assert_eq!(node_ids(&doc), vec![2, 1]);
    assert_eq!(names(&doc), vec!["Ink", "Background"]);
    assert!(matches!(
        CommandBus::apply(&mut doc, &Command::ReorderLayer { id: LayerId(1), new_index: 2 }),
        Err(CoreError::LayerIndexOutOfBounds { index: 2, len: 2 })
    ));
}

#[test]
fn editor_undoes_and_redoes_commands() {
    let mut editor = Editor::new(document(), HistoryConfig::default());
    assert!(matches!(editor.undo(), Err(CoreError::NothingToUndo)));
    assert!(matches!(editor.redo(), Err(CoreError::NothingToRedo)));

    let changes = editor
        .execute(&Command::RenameLayer { id: LayerId(1), name: "Paper".to_string() })
        .unwrap();
    assert_eq!(changes.generation, 1);
    assert_eq!(editor.generation(), 1);
    assert_eq!(editor.document().attributes[0].name, "Paper");

    editor.execute(&Command::AddFrame { id: FrameId::new(1), index: 1 }).unwrap();
    assert_eq!(frame_ids(editor.document()), vec![0, 1]);

    assert!(editor.execute(&Command::SetActiveLayer { id: LayerId(9) }).is_err());
    assert_eq!(editor.generation(), 2);

    editor.undo().unwrap();
    assert_eq!(frame_ids(editor.document()), vec![0]);
    assert_eq!(editor.document().attributes[0].name, "Paper");
    editor.undo().unwrap();
    assert_eq!(editor.document().attributes[0].name, "Background");
    assert!(matches!(editor.undo(), Err(CoreError::NothingToUndo)));

    editor.redo().unwrap();
    assert_eq!(editor.document().attributes[0].name, "Paper");
    editor.redo().unwrap();
    assert_eq!(frame_ids(editor.document()), vec![0, 1]);
    assert_eq!(editor.generation(), 6);
}

#[test]
fn navigation_is_no_edit() {
    let mut editor = Editor::new(document(), HistoryConfig::default());
    editor.execute(&Command::AddFrame { id: FrameId::new(1), index: 1 }).unwrap();
    let changes = editor.navigate(Navigation::SetCurrentFrame { id: FrameId::new(1) }).unwrap();
    assert!(changes.canvas_changed && changes.navigation_changed && changes.timeline_changed);
    assert_eq!(editor.document().timeline.current_frame(), FrameId::new(1));
    assert!(matches!(
        editor.navigate(Navigation::SetCurrentFrame { id: FrameId::new(5) }),
        Err(CoreError::FrameNotFound(id)) if id == FrameId::new(5)
    ));
    editor.undo().unwrap();
    assert_eq!(frame_ids(editor.document()), vec![0]);
    assert_eq!(editor.document().timeline.current_frame(), FrameId::new(0));
    assert!(matches!(editor.undo(), Err(CoreError::NothingToUndo)));
}

#[test]
fn grouped_edits_undo_and_redo_as_one() {
    let mut editor = Editor::new(document(), HistoryConfig::default());
    editor.begin_group("rename both".to_string()).unwrap();
    assert!(matches!(editor.begin_group("again".to_string()), Err(CoreError::GroupAlreadyActive)));
    editor.execute(&Command::RenameLayer { id: LayerId(1), name: "A".to_string() }).unwrap();
    editor.execute(&Command::RenameLayer { id: LayerId(2), name: "B".to_string() }).unwrap();
    assert!(matches!(editor.undo(), Err(CoreError::GroupInProgress)));
    assert!(matches!(
        editor.navigate(Navigation::AdvancePlayback),
        Err(CoreError::GroupInProgress)
    ));
    editor.end_group().unwrap();
    assert!(matches!(editor.end_group(), Err(CoreError::NoActiveGroup)));

    editor.undo().unwrap();
    assert_eq!(editor.document().attributes[0].name, "Background");
    assert_eq!(editor.document().attributes[1].name, "Ink");
    assert!(matches!(editor.undo(), Err(CoreError::NothingToUndo)));
    editor.redo().unwrap();
    assert_eq!(editor.document().attributes[0].name, "A");
    assert_eq!(editor.document().attributes[1].name, "B");
}

#[test]
fn cancelling_a_group_restores_its_start() {
    let mut editor = Editor::new(document(), HistoryConfig::default());
    assert!(matches!(editor.cancel_group(), Err(CoreError::NoActiveGroup)));
    editor.begin_group("try".to_string()).unwrap();
    editor.execute(&Command::SetLayerVisibility { id: LayerId(2), visible: false }).unwrap();
    let changes = editor.cancel_group().unwrap();
    assert!(changes.structure_changed && changes.canvas_changed);
    assert_eq!(changes.changed_layers, vec![LayerId(1), LayerId(2)]);
    assert!(editor.document().attributes[1].visible);
    assert!(matches!(editor.undo(), Err(CoreError::NothingToUndo)));
}

fn one_raster(id: u128) -> Document {
    Document {
        timeline: Timeline::default(),
        nodes: vec![TreeNode { id: LayerId(id), parent: None, kind: NodeKind::Raster }],
        attributes: vec![NodeAttributes { name: "Layer".to_string(), visible: true, blend: BlendMode::Normal }],
        active: LayerId(id),
        selection: Selection::new(2, 1).unwrap(),
    }
}

fn tree(document: &Document) -> Vec<(u128, Option<u128>)> {
    document.nodes.iter().map(|n| (n.id.0, n.parent.map(|p| p.0))).collect()
}

#[test]
fn hierarchy_moves_cycles_deletion_and_active_fallback_are_transactional() {
    let raster = LayerId(10);
    let outer = LayerId(20);
    let inner = LayerId(30);
    let mut editor = Editor::new(one_raster(10), HistoryConfig::default());
    editor
        .execute(&Command::AddGroup { id: outer, name: "Outer".into(), parent: None, sibling_index: 1 })
        .unwrap();
    editor
        .execute(&Command::AddGroup { id: inner, name: "Inner".into(), parent: Some(outer), sibling_index: 0 })
        .unwrap();
    editor
        .execute(&Command::MoveNode { id: raster, parent: Some(inner), sibling_index: 0 })
        .unwrap();
    assert_eq!(node_depth(&editor.document().nodes, raster), Some(2));
    assert_eq!(editor.document().nodes.last().unwrap().id, outer);

    let before = tree(editor.document());
    let before_names = names(editor.document());
    let generation = editor.generation();
    assert!(matches!(
        editor.execute(&Command::MoveNode { id: outer, parent: Some(inner), sibling_index: 0 }),
        Err(CoreError::HierarchyCycle { .. })
    ));
    assert_eq!(editor.generation(), generation);
    assert_eq!(tree(editor.document()), before);
    assert_eq!(names(editor.document()), before_names);
    assert!(matches!(
        editor.execute(&Command::RemoveLayer { id: outer }),
        Err(CoreError::NonEmptyGroup(id)) if id == outer
    ));

    editor
        .execute(&Command::MoveNode { id: raster, parent: None, sibling_index: 0 })
        .unwrap();
    editor.execute(&Command::RemoveLayer { id: inner }).unwrap();
    assert_eq!(editor.document().active, outer);
    editor.execute(&Command::RemoveLayer { id: outer }).unwrap();
    assert_eq!(editor.document().active, raster);
}
