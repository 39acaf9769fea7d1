//! Typed commands on a document's timeline, node properties and selection,
//! applied as transactions: a refused command leaves the document exactly
//! as it was, and an accepted one reports what it changed.

use vstd::prelude::*;

use crate::canvas::document::{
    BlendMode, FrameId, LayerId, NodeKind, PlaybackMetadata, Rect, MAX_FRAMES, MAX_NODE_NAME_BYTES,
};
use crate::canvas::error::CoreError;
use crate::canvas::hierarchy::{
    find_index, find_node, insert_node, insert_spec, law_validated_tree_is_bounded, lemma_find_node_found,
    lemma_moved_nodes_were_there, lemma_reordered_nodes_were_there,
    move_node, move_spec, remove_node, remove_spec, reorder_root, reorder_root_spec, tree_error_matches,
    tree_fault, validate_hierarchy, TreeNode,
};
use crate::canvas::history::{ChangeSet, History, HistoryConfig, HistoryEntry};
use crate::canvas::selection::{
    all_selected, cleared, feathered, grown, inverted, rect_shape, shrunk, with_shape, Selection,
    SelectionMode, SelectionView, MAX_SELECTION_RADIUS,
};
use crate::canvas::timeline::{
    advanced, has_frame, moved_frames, playing_set, rank, stopped, timeline_valid, with_frame, Navigation,
    Timeline, TimelineView,
};
use crate::text::{byte_len, chars_of, trim, trim_range, utf8_len};

verus! {

/// The properties of a node that commands edit by identifier.
pub struct NodeAttributes {
    pub name: String,
    pub visible: bool,
    pub blend: BlendMode,
}

/// A document as commands see it: its timeline, its nodes in list order
/// with their properties (`attributes[i]` belongs to `nodes[i]`), the
/// active node and the selection. Pixel content stays with its owner.
pub struct Document {
    pub timeline: Timeline,
    pub nodes: Vec<TreeNode>,
    pub attributes: Vec<NodeAttributes>,
    pub active: LayerId,
    pub selection: Selection,
}

/// A document as values.
pub struct DocumentView {
    pub timeline: TimelineView,
    pub nodes: Seq<TreeNode>,
    pub attributes: Seq<(Seq<char>, bool, BlendMode)>,
    pub active: LayerId,
    pub selection: SelectionView,
}

impl View for Document {
    type V = DocumentView;

    open spec fn view(&self) -> DocumentView {
        DocumentView {
            timeline: self.timeline@,
            nodes: self.nodes@,
            attributes: self.attributes@.map_values(|a: NodeAttributes| (a.name@, a.visible, a.blend)),
            active: self.active,
            selection: self.selection@,
        }
    }
}

impl Document {
    /// A valid timeline and selection, and one set of properties per node.
    pub open spec fn valid(&self) -> bool {
        &&& self.timeline.valid()
        &&& self.selection.well_formed()
        &&& self.nodes@.len() == self.attributes@.len()
    }
}

/// The commands on a document's timeline, node properties and selection.
pub enum Command {
    AddFrame { id: FrameId, index: usize },
    MoveFrame { id: FrameId, new_index: usize },
    SetPlaybackRange { start: FrameId, end: FrameId },
    SetLooping { looping: bool },
    AddGroup { id: LayerId, name: String, parent: Option<LayerId>, sibling_index: usize },
    MoveNode { id: LayerId, parent: Option<LayerId>, sibling_index: usize },
    ReorderLayer { id: LayerId, new_index: usize },
    RemoveLayer { id: LayerId },
    SetActiveLayer { id: LayerId },
    RenameLayer { id: LayerId, name: String },
    SetLayerVisibility { id: LayerId, visible: bool },
    SetLayerBlendMode { id: LayerId, mode: BlendMode },
    SelectRectangle { rect: Rect, mode: SelectionMode },
    SelectAll,
    InvertSelection,
    ClearSelection,
    FeatherSelection { radius: u32 },
    GrowSelection { radius: u32 },
    ShrinkSelection { radius: u32 },
}

/// What a node name must be: not blank, and at most the name limit in bytes.
pub open spec fn name_check(name: Seq<char>) -> Result<(), CoreError> {
    if trim(name).len() == 0 {
        Err(CoreError::EmptyLayerName)
    } else if utf8_len(name) > MAX_NODE_NAME_BYTES {
        Err(CoreError::DocumentLimitExceeded("node name bytes"))
    } else {
        Ok(())
    }
}

/// Checks a node name.
pub fn validate_name(name: &String) -> (r: Result<(), CoreError>)
    ensures
        r == name_check(name@),
{
    let chars = chars_of(name.as_str());
    let (start, end) = trim_range(&chars);
    if start == end {
        return Err(CoreError::EmptyLayerName);
    }
    if byte_len(name) > MAX_NODE_NAME_BYTES {
        return Err(CoreError::DocumentLimitExceeded("node name bytes"));
    }
    Ok(())
}

/// Whether the document holds node `id`.
pub open spec fn has_node(d: DocumentView, id: LayerId) -> bool {
    find_node(d.nodes, id) is Some
}

/// Whether the document accepts the command.
pub open spec fn command_accepts(d: DocumentView, c: Command) -> bool {
    let frames = d.timeline.frames;
    match c {
        Command::AddFrame { id, index } => !has_frame(frames, id) && frames.len() < MAX_FRAMES && index
            <= frames.len(),
        Command::MoveFrame { id, new_index } => has_frame(frames, id) && new_index < frames.len() && rank(
            moved_frames(frames, id, new_index as int),
            d.timeline.playback.range_start,
        ) <= rank(moved_frames(frames, id, new_index as int), d.timeline.playback.range_end),
        Command::SetPlaybackRange { start, end } => has_frame(frames, start) && has_frame(frames, end)
            && rank(frames, start) <= rank(frames, end),
        Command::SetLooping { .. } => true,
        Command::AddGroup { id, name, parent, sibling_index } => name_check(name@) is Ok && insert_spec(
            d.nodes,
            new_group(id, parent),
            parent,
            sibling_index as int,
        ) is Ok,
        Command::MoveNode { id, parent, sibling_index } => tree_fault(d.nodes) is None && move_spec(
            d.nodes,
            id,
            parent,
            sibling_index as int,
        ) is Ok,
        Command::ReorderLayer { id, new_index } => tree_fault(d.nodes) is None && reorder_root_spec(
            d.nodes,
            id,
            new_index as int,
        ) is Ok,
        Command::RemoveLayer { id } => remove_spec(d.nodes, id) is Ok,
        Command::SetActiveLayer { id } => has_node(d, id),
        Command::RenameLayer { id, name } => name_check(name@) is Ok && has_node(d, id),
        Command::SetLayerVisibility { id, .. } => has_node(d, id),
        Command::SetLayerBlendMode { id, .. } => has_node(d, id),
        Command::SelectRectangle { .. } => true,
        Command::SelectAll => true,
        Command::InvertSelection => true,
        Command::ClearSelection => true,
        Command::FeatherSelection { radius } => radius <= MAX_SELECTION_RADIUS,
        Command::GrowSelection { radius } => radius <= MAX_SELECTION_RADIUS,
        Command::ShrinkSelection { radius } => radius <= MAX_SELECTION_RADIUS,
    }
}

/// The error a refused command is reported with.
pub open spec fn command_error(d: DocumentView, c: Command, e: CoreError) -> bool {
    let frames = d.timeline.frames;
    match c {
        Command::AddFrame { id, index } => if has_frame(frames, id) {
            e == CoreError::DuplicateFrameId(id)
        } else if frames.len() >= MAX_FRAMES {
            e == CoreError::DocumentLimitExceeded("frame count")
        } else {
            e == CoreError::FrameIndexOutOfBounds { index, len: frames.len() as usize }
        },
        Command::MoveFrame { id, new_index } => if !has_frame(frames, id) {
            e == CoreError::FrameNotFound(id)
        } else if new_index >= frames.len() {
            e == CoreError::FrameIndexOutOfBounds { index: new_index, len: frames.len() as usize }
        } else {
            e == CoreError::PlaybackRangeOrder
        },
        Command::SetPlaybackRange { start, end } => if !has_frame(frames, start) {
            e == CoreError::FrameNotFound(start)
        } else if !has_frame(frames, end) {
            e == CoreError::FrameNotFound(end)
        } else {
            e == CoreError::InvalidPlaybackRange
        },
        Command::RenameLayer { id, name } => if name_check(name@) is Err {
            e == name_check(name@)->Err_0
        } else {
            e == CoreError::LayerNotFound(id)
        },
        Command::AddGroup { id, name, parent, sibling_index } => if name_check(name@) is Err {
            e == name_check(name@)->Err_0
        } else {
            e == insert_spec(d.nodes, new_group(id, parent), parent, sibling_index as int)->Err_0
        },
        Command::MoveNode { id, parent, sibling_index } => match tree_fault(d.nodes) {
            Some(fault) => tree_error_matches(fault, e),
            None => e == move_spec(d.nodes, id, parent, sibling_index as int)->Err_0,
        },
        Command::ReorderLayer { id, new_index } => match tree_fault(d.nodes) {
            Some(fault) => tree_error_matches(fault, e),
            None => e == reorder_root_spec(d.nodes, id, new_index as int)->Err_0,
        },
        Command::RemoveLayer { id } => e == remove_spec(d.nodes, id)->Err_0,
        Command::SetActiveLayer { id } => e == CoreError::LayerNotFound(id),
        Command::SetLayerVisibility { id, .. } => e == CoreError::LayerNotFound(id),
        Command::SetLayerBlendMode { id, .. } => e == CoreError::LayerNotFound(id),
        Command::FeatherSelection { radius } => e == CoreError::InvalidSelectionRadius(radius),
        Command::GrowSelection { radius } => e == CoreError::InvalidSelectionRadius(radius),
        Command::ShrinkSelection { radius } => e == CoreError::InvalidSelectionRadius(radius),
        _ => false,
    }
}

/// The selection with its mask replaced by `mask` when the selection is
/// active and the radius is not zero.
pub open spec fn masked_by_radius(v: SelectionView, radius: u32, mask: Seq<u8>) -> SelectionView {
    if radius == 0 || !v.active {
        v
    } else {
        SelectionView { mask, ..v }
    }
}

/// The properties of node `id`.
pub open spec fn attribute_of(d: DocumentView, id: LayerId) -> (Seq<char>, bool, BlendMode) {
    d.attributes[find_node(d.nodes, id)->0]
}

/// The document with the properties of node `id` replaced by `a`.
pub open spec fn with_attribute(d: DocumentView, id: LayerId, a: (Seq<char>, bool, BlendMode)) -> DocumentView {
    DocumentView { attributes: d.attributes.update(find_node(d.nodes, id)->0, a), ..d }
}

/// A new group, visible and normally blended, as the tree sees it.
pub open spec fn new_group(id: LayerId, parent: Option<LayerId>) -> TreeNode {
    TreeNode { id, parent, kind: NodeKind::Group }
}

/// The properties of each node of `nodes`, taken from the node with the
/// same identifier in `d`; a node `d` does not hold gets `fresh`.
pub open spec fn attributes_following(
    nodes: Seq<TreeNode>,
    d: DocumentView,
    fresh: (Seq<char>, bool, BlendMode),
) -> Seq<(Seq<char>, bool, BlendMode)> {
    nodes.map_values(
        |t: TreeNode|
            match find_node(d.nodes, t.id) {
                Some(j) => d.attributes[j],
                None => fresh,
            },
    )
}

/// The properties of each node of `nodes`, taken from the node with the
/// same identifier in `d`.
pub open spec fn attributes_kept(nodes: Seq<TreeNode>, d: DocumentView) -> Seq<(Seq<char>, bool, BlendMode)> {
    nodes.map_values(|t: TreeNode| d.attributes[find_node(d.nodes, t.id)->0])
}

/// `layers` with `layer` appended unless it is there already.
pub open spec fn push_new(layers: Seq<LayerId>, layer: Option<LayerId>) -> Seq<LayerId> {
    match layer {
        Some(id) => if layers.contains(id) {
            layers
        } else {
            layers.push(id)
        },
        None => layers,
    }
}

/// The layers an accepted command reports as changed.
pub open spec fn changed_layers_spec(d: DocumentView, c: Command) -> Seq<LayerId> {
    match c {
        Command::AddGroup { id, parent, .. } => match parent {
            Some(p) => seq![id, p],
            None => seq![id],
        },
        Command::MoveNode { id, parent, .. } => push_new(
            push_new(seq![id], d.nodes[find_node(d.nodes, id)->0].parent),
            parent,
        ),
        Command::ReorderLayer { id, .. } => seq![id],
        Command::RemoveLayer { id } => {
            let parent = d.nodes[find_node(d.nodes, id)->0].parent;
            let with_parent = match parent {
                Some(p) => seq![id, p],
                None => seq![id],
            };
            if d.active == id {
                with_parent.push(remove_spec(d.nodes, id)->Ok_0.1)
            } else {
                with_parent
            }
        },
        Command::RenameLayer { id, .. } => seq![id],
        Command::SetLayerVisibility { id, .. } => seq![id],
        Command::SetLayerBlendMode { id, .. } => seq![id],
        _ => Seq::<LayerId>::empty(),
    }
}

/// The document after an accepted command.
pub open spec fn command_applied(d: DocumentView, c: Command) -> DocumentView {
    let t = d.timeline;
    let s = d.selection;
    match c {
        Command::AddFrame { id, index } => DocumentView { timeline: with_frame(t, id, index as int), ..d },
        Command::MoveFrame { id, new_index } => DocumentView {
            timeline: stopped(TimelineView { frames: moved_frames(t.frames, id, new_index as int), ..t }),
            ..d
        },
        Command::SetPlaybackRange { start, end } => DocumentView {
            timeline: TimelineView {
                playback: PlaybackMetadata { range_start: start, range_end: end, ..t.playback },
                ..t
            },
            ..d
        },
        Command::SetLooping { looping } => DocumentView {
            timeline: TimelineView { playback: PlaybackMetadata { looping, ..t.playback }, ..t },
            ..d
        },
        Command::AddGroup { id, name, parent, sibling_index } => {
            let nodes = insert_spec(d.nodes, new_group(id, parent), parent, sibling_index as int)->Ok_0;
            DocumentView {
                nodes,
                attributes: attributes_following(nodes, d, (name@, true, BlendMode::Normal)),
                active: id,
                ..d
            }
        },
        Command::MoveNode { id, parent, sibling_index } => {
            let nodes = move_spec(d.nodes, id, parent, sibling_index as int)->Ok_0;
            DocumentView { nodes, attributes: attributes_kept(nodes, d), ..d }
        },
        Command::ReorderLayer { id, new_index } => {
            let nodes = reorder_root_spec(d.nodes, id, new_index as int)->Ok_0;
            DocumentView { nodes, attributes: attributes_kept(nodes, d), ..d }
        },
        Command::RemoveLayer { id } => {
            let (nodes, next) = remove_spec(d.nodes, id)->Ok_0;
            DocumentView {
                nodes,
                attributes: d.attributes.remove(find_node(d.nodes, id)->0),
                active: if d.active == id {
                    next
                } else {
                    d.active
                },
                ..d
            }
        },
        Command::SetActiveLayer { id } => DocumentView { active: id, ..d },
        Command::RenameLayer { id, name } => with_attribute(d, id, (name@, attribute_of(d, id).1, attribute_of(d, id).2)),
        Command::SetLayerVisibility { id, visible } => with_attribute(d, id, (attribute_of(d, id).0, visible, attribute_of(d, id).2)),
        Command::SetLayerBlendMode { id, mode } => with_attribute(d, id, (attribute_of(d, id).0, attribute_of(d, id).1, mode)),
        Command::SelectRectangle { rect, mode } => DocumentView {
            selection: with_shape(s, rect_shape(s.width, s.height, rect), mode),
            ..d
        },
        Command::SelectAll => DocumentView { selection: all_selected(s), ..d },
        Command::InvertSelection => DocumentView { selection: inverted(s), ..d },
        Command::ClearSelection => DocumentView { selection: cleared(s), ..d },
        Command::FeatherSelection { radius } => DocumentView {
            selection: masked_by_radius(
                s,
                radius,
                feathered(s.mask, s.width as int, s.height as int, radius as int),
            ),
            ..d
        },
        Command::GrowSelection { radius } => DocumentView {
            selection: masked_by_radius(s, radius, grown(s.mask, s.width as int, s.height as int, radius as int)),
            ..d
        },
        Command::ShrinkSelection { radius } => DocumentView {
            selection: masked_by_radius(s, radius, shrunk(s.mask, s.width as int, s.height as int, radius as int)),
            ..d
        },
    }
}

/// What an accepted command reports: the document changed; structure
/// commands change the structure, frame commands the timeline, selection
/// commands the selection, and the layers they touched are listed.
pub open spec fn changes_match(d: DocumentView, c: Command, cs: ChangeSet) -> bool {
    &&& cs.generation == 0
    &&& cs.document_changed
    &&& cs.structure_changed == (c is AddGroup || c is MoveNode || c is ReorderLayer || c is RemoveLayer)
    &&& !cs.canvas_changed
    &&& !cs.navigation_changed
    &&& cs.timeline_changed == (c is AddFrame || c is MoveFrame || c is SetPlaybackRange || c is SetLooping)
    &&& cs.selection_changed == (c is SelectRectangle || c is SelectAll || c is InvertSelection
        || c is ClearSelection || c is FeatherSelection || c is GrowSelection || c is ShrinkSelection)
    &&& cs.changed_layers@ == changed_layers_spec(d, c)
}

/// A change set for an accepted command, with the given flags and layers.
fn changes(structure: bool, timeline: bool, selection: bool, layers: Vec<LayerId>) -> (cs: ChangeSet)
    ensures
        cs.generation == 0,
        cs.document_changed,
        cs.structure_changed == structure,
        !cs.canvas_changed,
        !cs.navigation_changed,
        cs.timeline_changed == timeline,
        cs.selection_changed == selection,
        cs.changed_layers@ == layers@,
{
    ChangeSet {
        generation: 0,
        document_changed: true,
        structure_changed: structure,
        canvas_changed: false,
        timeline_changed: timeline,
        navigation_changed: false,
        selection_changed: selection,
        changed_layers: layers,
    }
}

/// Appends `layer` unless it is there already.
fn push_new_layer(layers: &mut Vec<LayerId>, layer: Option<LayerId>)
    ensures
        final(layers)@ == push_new(old(layers)@, layer),
{
    if let Some(id) = layer {
        let mut k: usize = 0;
        while k < layers.len()
            invariant
                k <= layers@.len(),
                layers@ == old(layers)@,
                layer == Some(id),
                forall|m: int| 0 <= m < k ==> layers@[m] != id,
            decreases layers@.len() - k,
        {
            if layers[k].0 == id.0 {
                proof {
                    assert(layers@[k as int] == id);
                    assert(layers@.contains(id));
                }
                return;
            }
            k = k + 1;
        }
        proof {
            assert(!layers@.contains(id));
        }
        layers.push(id);
    }
}

/// A list holding one layer.
fn one_layer(id: LayerId) -> (r: Vec<LayerId>)
    ensures
        r@ == seq![id],
{
    let mut r: Vec<LayerId> = Vec::new();
    r.push(id);
    proof {
        assert(r@ =~= seq![id]);
    }
    r
}

/// A copy of a node's properties.
fn copy_attributes(a: &NodeAttributes) -> (r: NodeAttributes)
    ensures
        r.name@ == a.name@,
        r.visible == a.visible,
        r.blend == a.blend,
{
    NodeAttributes { name: a.name.clone(), visible: a.visible, blend: a.blend }
}

/// The properties of each node of `nodes`, taken from the node with the
/// same identifier in the document; a node it does not hold gets `fresh`.
fn attributes_for(document: &Document, nodes: &Vec<TreeNode>, fresh: &NodeAttributes) -> (r: Vec<NodeAttributes>)
    requires
        document.valid(),
    ensures
        r@.len() == nodes@.len(),
        r@.map_values(|a: NodeAttributes| (a.name@, a.visible, a.blend)) == attributes_following(
            nodes@,
            document@,
            (fresh.name@, fresh.visible, fresh.blend),
        ),
{
    let ghost target = attributes_following(nodes@, document@, (fresh.name@, fresh.visible, fresh.blend));
    let mut out: Vec<NodeAttributes> = Vec::new();
    let mut i: usize = 0;
    while i < nodes.len()
        invariant
            document.valid(),
            i <= nodes@.len(),
            out@.len() == i,
            target == attributes_following(nodes@, document@, (fresh.name@, fresh.visible, fresh.blend)),
            forall|k: int| 0 <= k < i ==> (#[trigger] out@[k]).name@ == target[k].0 && out@[k].visible
                == target[k].1 && out@[k].blend == target[k].2,
        decreases nodes@.len() - i,
    {
        proof {
            lemma_find_node_found(document.nodes@, nodes@[i as int].id);
        }
        let a = match find_index(document.nodes.as_slice(), nodes[i].id) {
            Some(j) => {
                proof {
                    assert(document@.attributes[j as int] == (document.attributes@[j as int].name@, document.attributes@[
                        j as int
                    ].visible, document.attributes@[j as int].blend));
                }
                copy_attributes(&document.attributes[j])
            },
            None => copy_attributes(fresh),
        };
        out.push(a);
        i = i + 1;
    }
    proof {
        assert(out@.map_values(|a: NodeAttributes| (a.name@, a.visible, a.blend)) =~= target);
    }
    out
}

impl Document {
    /// Sets the properties of node `index`.
    fn set_attributes(&mut self, index: usize, name: String, visible: bool, blend: BlendMode)
        requires
            index < old(self).attributes@.len(),
        ensures
            final(self).timeline == old(self).timeline,
            final(self).nodes == old(self).nodes,
            final(self).active == old(self).active,
            final(self).selection == old(self).selection,
            final(self).attributes@.len() == old(self).attributes@.len(),
            final(self)@ == (DocumentView {
                attributes: old(self)@.attributes.update(index as int, (name@, visible, blend)),
                ..old(self)@
            }),
    {
        self.attributes.set(index, NodeAttributes { name, visible, blend });
        proof {
            assert(self@.attributes =~= old(self)@.attributes.update(index as int, (name@, visible, blend)));
        }
    }
}

/// Applies commands to documents.
pub struct CommandBus;

impl CommandBus {
    /// Applies a structure command (adding a group, moving, reordering or
    /// removing a node); moves are refused while the tree itself is unsound.
    #[verifier::rlimit(60)]
    fn apply_structure(document: &mut Document, command: &Command) -> (r: Result<ChangeSet, CoreError>)
        requires
            old(document).valid(),
            command is AddGroup || command is MoveNode || command is ReorderLayer || command is RemoveLayer,
        ensures
            final(document).valid(),
            r is Ok <==> command_accepts(old(document)@, *command),
            r matches Err(e) ==> command_error(old(document)@, *command, e) && final(document)@ == old(
                document,
            )@,
            r matches Ok(cs) ==> final(document)@ == command_applied(old(document)@, *command) && changes_match(
                old(document)@,
                *command,
                cs,
            ),
    {
        match command {
            Command::AddGroup { id, name, parent, sibling_index } => {
                match validate_name(name) {
                    Ok(()) => {},
                    Err(e) => return Err(e),
                }
                let node = TreeNode { id: *id, parent: *parent, kind: NodeKind::Group };
                let nodes = match insert_node(document.nodes.as_slice(), node, *parent, *sibling_index) {
                    Ok(v) => v,
                    Err(e) => return Err(e),
                };
                let fresh = NodeAttributes { name: name.clone(), visible: true, blend: BlendMode::Normal };
                let attributes = attributes_for(document, &nodes, &fresh);
                document.nodes = nodes;
                document.attributes = attributes;
                document.active = *id;
                let mut layers: Vec<LayerId> = Vec::new();
                layers.push(*id);
                if let Some(p) = parent {
                    layers.push(*p);
                }
                proof {
                    assert(layers@ =~= changed_layers_spec(old(document)@, *command));
                }
                Ok(changes(true, false, false, layers))
            },
            Command::MoveNode { id, parent, sibling_index } => {
                match validate_hierarchy(document.nodes.as_slice()) {
                    Ok(()) => {},
                    Err(e) => return Err(e),
                }
                proof {
                    law_validated_tree_is_bounded(document.nodes@);
                    lemma_find_node_found(document.nodes@, *id);
                }
                let old_parent = match find_index(document.nodes.as_slice(), *id) {
                    Some(k) => document.nodes[k].parent,
                    None => None,
                };
                let nodes = match move_node(document.nodes.as_slice(), *id, *parent, *sibling_index) {
                    Ok(v) => v,
                    Err(e) => return Err(e),
                };
                let k = match find_index(document.nodes.as_slice(), *id) {
                    Some(k) => k,
                    None => 0,
                };
                let fresh = copy_attributes(&document.attributes[k]);
                proof {
                    assert(old(document)@.attributes[k as int] == (document.attributes@[k as int].name@, document.attributes@[
                        k as int
                    ].visible, document.attributes@[k as int].blend));
                }
                let attributes = attributes_for(document, &nodes, &fresh);
                proof {
                    lemma_moved_nodes_were_there(document.nodes@, *id, *parent, *sibling_index as int);
                    assert(attributes_following(nodes@, document@, (fresh.name@, fresh.visible, fresh.blend))
                        =~= attributes_kept(nodes@, document@));
                }
                document.nodes = nodes;
                document.attributes = attributes;
                let mut layers: Vec<LayerId> = Vec::new();
                layers.push(*id);
                push_new_layer(&mut layers, old_parent);
                push_new_layer(&mut layers, *parent);
                Ok(changes(true, false, false, layers))
            },
            Command::ReorderLayer { id, new_index } => {
                match validate_hierarchy(document.nodes.as_slice()) {
                    Ok(()) => {},
                    Err(e) => return Err(e),
                }
                proof {
                    law_validated_tree_is_bounded(document.nodes@);
                    lemma_find_node_found(document.nodes@, *id);
                }
                let nodes = match reorder_root(document.nodes.as_slice(), *id, *new_index) {
                    Ok(v) => v,
                    Err(e) => return Err(e),
                };
                let k = match find_index(document.nodes.as_slice(), *id) {
                    Some(k) => k,
                    None => 0,
                };
                let fresh = copy_attributes(&document.attributes[k]);
                proof {
                    assert(old(document)@.attributes[k as int] == (document.attributes@[k as int].name@, document.attributes@[
                        k as int
                    ].visible, document.attributes@[k as int].blend));
                }
                let attributes = attributes_for(document, &nodes, &fresh);
                proof {
                    lemma_reordered_nodes_were_there(document.nodes@, *id, *new_index as int);
                    assert(attributes_following(nodes@, document@, (fresh.name@, fresh.visible, fresh.blend))
                        =~= attributes_kept(nodes@, document@));
                }
                document.nodes = nodes;
                document.attributes = attributes;
                let mut layers: Vec<LayerId> = Vec::new();
                layers.push(*id);
                proof {
                    assert(layers@ =~= changed_layers_spec(old(document)@, *command));
                }
                Ok(changes(true, false, false, layers))
            },
            Command::RemoveLayer { id } => {
                proof {
                    lemma_find_node_found(document.nodes@, *id);
                }
                let (nodes, next) = match remove_node(document.nodes.as_slice(), *id) {
                    Ok(pair) => pair,
                    Err(e) => return Err(e),
                };
                let k = match find_index(document.nodes.as_slice(), *id) {
                    Some(k) => k,
                    None => 0,
                };
                let parent = document.nodes[k].parent;
                let was_active = document.active.0 == id.0;
                document.nodes = nodes;
                let ghost before = document.attributes@;
                document.attributes.remove(k);
                proof {
                    assert(document.attributes@.map_values(|a: NodeAttributes| (a.name@, a.visible, a.blend))
                        =~= old(document)@.attributes.remove(k as int));
                }
                if was_active {
                    document.active = next;
                }
                let mut layers: Vec<LayerId> = Vec::new();
                layers.push(*id);
                if let Some(p) = parent {
                    layers.push(p);
                }
                if was_active {
                    layers.push(next);
                }
                proof {
                    assert(layers@ =~= changed_layers_spec(old(document)@, *command));
                }
                Ok(changes(true, false, false, layers))
            },
            _ => Err(CoreError::InvalidHierarchyOrder),
        }
    }

    /// Applies a command as a transaction: a refused command reports its
    /// error and leaves the document unchanged; an accepted one changes the
    /// document as the command says and reports what changed.
    #[verifier::rlimit(60)]
    pub fn apply(document: &mut Document, command: &Command) -> (r: Result<ChangeSet, CoreError>)
        requires
            old(document).valid(),
        ensures
            final(document).valid(),
            r is Ok <==> command_accepts(old(document)@, *command),
            r matches Err(e) ==> command_error(old(document)@, *command, e) && final(document)@ == old(
                document,
            )@,
            r matches Ok(cs) ==> final(document)@ == command_applied(old(document)@, *command) && changes_match(
                old(document)@,
                *command,
                cs,
            ),
    {
        match command {
            Command::AddGroup { .. } | Command::MoveNode { .. } | Command::ReorderLayer { .. }
            | Command::RemoveLayer { .. } => Self::apply_structure(document, command),
            Command::AddFrame { id, index } => {
                match document.timeline.add_frame(*id, *index) {
                    Ok(()) => Ok(changes(false, true, false, Vec::new())),
                    Err(e) => Err(e),
                }
            },
            Command::MoveFrame { id, new_index } => {
                match document.timeline.move_frame(*id, *new_index) {
                    Ok(()) => Ok(changes(false, true, false, Vec::new())),
                    Err(e) => Err(e),
                }
            },
            Command::SetPlaybackRange { start, end } => {
                match document.timeline.set_playback_range(*start, *end) {
                    Ok(()) => Ok(changes(false, true, false, Vec::new())),
                    Err(e) => Err(e),
                }
            },
            Command::SetLooping { looping } => {
                document.timeline.set_looping(*looping);
                Ok(changes(false, true, false, Vec::new()))
            },
            Command::SetActiveLayer { id } => {
                match find_index(document.nodes.as_slice(), *id) {
                    Some(_) => {
                        document.active = *id;
                        Ok(changes(false, false, false, Vec::new()))
                    },
                    None => Err(CoreError::LayerNotFound(*id)),
                }
            },
            Command::RenameLayer { id, name } => {
                match validate_name(name) {
                    Ok(()) => {},
                    Err(e) => return Err(e),
                }
                match find_index(document.nodes.as_slice(), *id) {
                    Some(i) => {
                        proof {
                            lemma_find_node_found(document.nodes@, *id);
                            assert(old(document)@.attributes[i as int] == (document.attributes@[i as int].name@, document.attributes@[i as int].visible, document.attributes@[i as int].blend));
                        }
                        let visible = document.attributes[i].visible;
                        let blend = document.attributes[i].blend;
                        document.set_attributes(i, name.clone(), visible, blend);
                        Ok(changes(false, false, false, one_layer(*id)))
                    },
                    None => Err(CoreError::LayerNotFound(*id)),
                }
            },
            Command::SetLayerVisibility { id, visible } => {
                match find_index(document.nodes.as_slice(), *id) {
                    Some(i) => {
                        proof {
                            lemma_find_node_found(document.nodes@, *id);
                            assert(old(document)@.attributes[i as int] == (document.attributes@[i as int].name@, document.attributes@[i as int].visible, document.attributes@[i as int].blend));
                        }
                        let name = document.attributes[i].name.clone();
                        let blend = document.attributes[i].blend;
                        document.set_attributes(i, name, *visible, blend);
                        Ok(changes(false, false, false, one_layer(*id)))
                    },
                    None => Err(CoreError::LayerNotFound(*id)),
                }
            },
            Command::SetLayerBlendMode { id, mode } => {
                match find_index(document.nodes.as_slice(), *id) {
                    Some(i) => {
                        proof {
                            lemma_find_node_found(document.nodes@, *id);
                            assert(old(document)@.attributes[i as int] == (document.attributes@[i as int].name@, document.attributes@[i as int].visible, document.attributes@[i as int].blend));
                        }
                        let name = document.attributes[i].name.clone();
                        let visible = document.attributes[i].visible;
                        document.set_attributes(i, name, visible, *mode);
                        Ok(changes(false, false, false, one_layer(*id)))
                    },
                    None => Err(CoreError::LayerNotFound(*id)),
                }
            },
            Command::SelectRectangle { rect, mode } => {
                document.selection.apply_rect(*rect, *mode);
                Ok(changes(false, false, true, Vec::new()))
            },
            Command::SelectAll => {
                document.selection.select_all();
                Ok(changes(false, false, true, Vec::new()))
            },
            Command::InvertSelection => {
                document.selection.invert();
                Ok(changes(false, false, true, Vec::new()))
            },
            Command::ClearSelection => {
                document.selection.clear();
                Ok(changes(false, false, true, Vec::new()))
            },
            Command::FeatherSelection { radius } => {
                match document.selection.feather(*radius) {
                    Ok(()) => Ok(changes(false, false, true, Vec::new())),
                    Err(e) => Err(e),
                }
            },
            Command::GrowSelection { radius } => {
                match document.selection.grow(*radius) {
                    Ok(()) => Ok(changes(false, false, true, Vec::new())),
                    Err(e) => Err(e),
                }
            },
            Command::ShrinkSelection { radius } => {
                match document.selection.shrink(*radius) {
                    Ok(()) => Ok(changes(false, false, true, Vec::new())),
                    Err(e) => Err(e),
                }
            },
        }
    }
}

/// A copy of a document.
fn copy_document(d: &Document) -> (r: Document)
    ensures
        r@ == d@,
        r.valid() == d.valid(),
{
    let mut nodes: Vec<TreeNode> = Vec::new();
    let mut attributes: Vec<NodeAttributes> = Vec::new();
    let mut i: usize = 0;
    while i < d.nodes.len()
        invariant
            i <= d.nodes@.len(),
            nodes@ == d.nodes@.take(i as int),
        decreases d.nodes@.len() - i,
    {
        nodes.push(d.nodes[i]);
        proof {
            assert(nodes@ =~= d.nodes@.take(i + 1));
        }
        i = i + 1;
    }
    let mut j: usize = 0;
    while j < d.attributes.len()
        invariant
            j <= d.attributes@.len(),
            attributes@.len() == j,
            forall|k: int| 0 <= k < j ==> (#[trigger] attributes@[k]).name@ == d.attributes@[k].name@
                && attributes@[k].visible == d.attributes@[k].visible && attributes@[k].blend
                == d.attributes@[k].blend,
        decreases d.attributes@.len() - j,
    {
        attributes.push(copy_attributes(&d.attributes[j]));
        j = j + 1;
    }
    proof {
        assert(nodes@ =~= d.nodes@);
    }
    let r = Document {
        timeline: d.timeline.duplicate(),
        nodes,
        attributes,
        active: d.active,
        selection: d.selection.duplicate(),
    };
    proof {
        assert(r@.attributes =~= d@.attributes);
    }
    r
}

/// A copy of a change set.
fn copy_changes(c: &ChangeSet) -> (r: ChangeSet)
    ensures
        r.generation == c.generation,
        r.document_changed == c.document_changed,
        r.structure_changed == c.structure_changed,
        r.canvas_changed == c.canvas_changed,
        r.timeline_changed == c.timeline_changed,
        r.navigation_changed == c.navigation_changed,
        r.selection_changed == c.selection_changed,
        r.changed_layers@ == c.changed_layers@,
{
    let mut layers: Vec<LayerId> = Vec::new();
    let mut i: usize = 0;
    while i < c.changed_layers.len()
        invariant
            i <= c.changed_layers@.len(),
            layers@ == c.changed_layers@.take(i as int),
        decreases c.changed_layers@.len() - i,
    {
        layers.push(c.changed_layers[i]);
        proof {
            assert(layers@ =~= c.changed_layers@.take(i + 1));
        }
        i = i + 1;
    }
    proof {
        assert(layers@ =~= c.changed_layers@);
    }
    ChangeSet {
        generation: c.generation,
        document_changed: c.document_changed,
        structure_changed: c.structure_changed,
        canvas_changed: c.canvas_changed,
        timeline_changed: c.timeline_changed,
        navigation_changed: c.navigation_changed,
        selection_changed: c.selection_changed,
        changed_layers: layers,
    }
}

/// The document with playback stopped.
pub open spec fn stopped_document(d: DocumentView) -> DocumentView {
    DocumentView { timeline: stopped(d.timeline), ..d }
}

/// A snapshot brought back: it keeps showing the frame `viewed` when it has
/// that frame, and playback is stopped.
pub open spec fn restored(snapshot: DocumentView, viewed: FrameId) -> DocumentView {
    let t = snapshot.timeline;
    let shown = if has_frame(t.frames, viewed) {
        TimelineView { current_frame: viewed, ..t }
    } else {
        t
    };
    DocumentView { timeline: stopped(shown), ..snapshot }
}

/// Whether every snapshot of the entries is a valid document.
pub open spec fn snapshots_valid(entries: Seq<HistoryEntry<Document>>) -> bool {
    forall|i: int| 0 <= i < entries.len() ==> (#[trigger] entries[i]).before.valid() && entries[i].after.valid()
}

/// Navigation flags between two documents: a change of the shown frame
/// changes the canvas; a change of the shown frame or of playing changes
/// the timeline and navigation.
pub open spec fn navigation_marked(before: DocumentView, after: DocumentView, c: ChangeSet, marked: ChangeSet) -> bool {
    let frame = before.timeline.current_frame != after.timeline.current_frame;
    let playing = before.timeline.playback.playing != after.timeline.playback.playing;
    &&& marked.canvas_changed == (c.canvas_changed || frame)
    &&& marked.timeline_changed == (c.timeline_changed || frame || playing)
    &&& marked.navigation_changed == (c.navigation_changed || frame || playing)
    &&& marked.document_changed == c.document_changed
    &&& marked.structure_changed == c.structure_changed
    &&& marked.selection_changed == c.selection_changed
    &&& marked.changed_layers@ == c.changed_layers@
}

fn mark_navigation(before: &Document, after: &Document, changes: &mut ChangeSet)
    ensures
        navigation_marked(before@, after@, *old(changes), *final(changes)),
        final(changes).generation == old(changes).generation,
{
    let frame = before.timeline.current_frame().0 != after.timeline.current_frame().0;
    let playing = before.timeline.playback().playing != after.timeline.playback().playing;
    if frame {
        changes.canvas_changed = true;
    }
    if frame || playing {
        changes.timeline_changed = true;
        changes.navigation_changed = true;
    }
}

/// Snapshots of this document hold no pixels, so only the entry limit
/// bounds the history.
fn no_bytes(undo: &std::collections::VecDeque<HistoryEntry<Document>>, redo: &Vec<HistoryEntry<Document>>) -> (r: usize)
    ensures
        r == 0,
{
    0
}


/// The timeline after a navigation step, and whether the shown canvas may
/// have changed; `None` when the step is refused.
pub open spec fn navigated(t: TimelineView, navigation: Navigation) -> Option<(TimelineView, bool)> {
    match navigation {
        Navigation::SetCurrentFrame { id } => if has_frame(t.frames, id) {
            Some((TimelineView { current_frame: id, ..t }, true))
        } else {
            None
        },
        Navigation::SetPlaying { playing } => Some(
            (playing_set(t, playing), playing_set(t, playing).current_frame != t.current_frame),
        ),
        Navigation::AdvancePlayback => Some((advanced(t), true)),
    }
}

/// A document with its undo history: every change goes through a command,
/// and every accepted command can be undone.
pub struct Editor {
    document: Document,
    generation: u64,
    history: History<Document>,
}

impl Editor {
    pub closed spec fn well_formed(&self) -> bool {
        &&& self.document.valid()
        &&& self.history.well_formed()
        &&& (self.history.group_spec() matches Some(group) ==> group.before.valid() && (group.after matches Some(
            a,
        ) ==> a.valid()))
        &&& snapshots_valid(self.history.undo_spec())
        &&& snapshots_valid(self.history.redo_spec())
    }

    /// The document being edited.
    pub closed spec fn document_view(&self) -> DocumentView {
        self.document@
    }

    /// How many edits have been applied.
    pub closed spec fn generation_spec(&self) -> u64 {
        self.generation
    }

    /// The document an undo would bring back, if any.
    pub closed spec fn undo_target(&self) -> Option<DocumentView> {
        if self.history.undo_spec().len() > 0 {
            Some(self.history.undo_spec().last().before@)
        } else {
            None
        }
    }

    /// Whether a group of edits is in progress.
    pub closed spec fn group_active(&self) -> bool {
        self.history.group_spec() is Some
    }

    /// The document the group in progress started from, if any.
    pub closed spec fn group_start(&self) -> Option<DocumentView> {
        match self.history.group_spec() {
            Some(group) => Some(group.before@),
            None => None,
        }
    }

    /// Whether the group in progress holds an edit.
    pub closed spec fn group_edited(&self) -> bool {
        self.history.group_spec() matches Some(group) && group.after is Some
    }

    /// The history's limit on entries.
    pub closed spec fn entry_limit(&self) -> usize {
        self.history.config_spec().max_entries
    }

    /// Starts editing a document, with playback stopped and an empty
    /// history.
    pub fn new(document: Document, config: HistoryConfig) -> (r: Self)
        requires
            document.valid(),
        ensures
            r.well_formed(),
            r.document_view() == stopped_document(document@),
            r.generation_spec() == 0,
            r.undo_target() is None,
            !r.group_active(),
            r.entry_limit() == crate::canvas::history::normalized_spec(config).max_entries,
    {
        let mut document = document;
        document.timeline.stop_playback();
        Editor { document, generation: 0, history: History::new(config) }
    }

    pub fn document(&self) -> (r: &Document)
        ensures
            r@ == self.document_view(),
    {
        &self.document
    }

    pub fn generation(&self) -> (r: u64)
        ensures
            r == self.generation_spec(),
    {
        self.generation
    }

    /// Applies a command as one undoable edit: a refused command changes
    /// nothing; an accepted one changes the document as the command says,
    /// stops playback, counts one more generation and records the document
    /// from before it for undo.
    pub fn execute(&mut self, command: &Command) -> (r: Result<ChangeSet, CoreError>)
        requires
            old(self).well_formed(),
        ensures
            final(self).well_formed(),
            final(self).entry_limit() == old(self).entry_limit(),
            r is Ok <==> command_accepts(old(self).document_view(), *command),
            r matches Err(e) ==> (command_error(old(self).document_view(), *command, e)
                && final(self).document_view() == old(self).document_view()
                && final(self).generation_spec() == old(self).generation_spec()
                && final(self).undo_target() == old(self).undo_target()),
            r matches Ok(cs) ==> {
                let after = stopped_document(command_applied(old(self).document_view(), *command));
                &&& final(self).document_view() == after
                &&& final(self).generation_spec() == if old(self).generation_spec() == u64::MAX {
                    u64::MAX
                } else {
                    (old(self).generation_spec() + 1) as u64
                }
                &&& cs.generation == final(self).generation_spec()
                &&& (exists|base: ChangeSet| changes_match(old(self).document_view(), *command, base)
                    && navigation_marked(old(self).document_view(), after, base, cs))
                &&& !old(self).group_active() && old(self).entry_limit() > 0 ==> final(self).undo_target() == Some(
                    old(self).document_view(),
                )
                &&& old(self).group_active() ==> final(self).undo_target() == old(self).undo_target()
                    && final(self).group_active() && final(self).group_edited() && final(self).group_start()
                    == old(self).group_start()
            },
            r is Err ==> final(self).group_active() == old(self).group_active(),
            r is Ok && !old(self).group_active() ==> !final(self).group_active(),
    {
        let before = copy_document(&self.document);
        let mut after = copy_document(&before);
        let mut changes = match CommandBus::apply(&mut after, command) {
            Ok(cs) => cs,
            Err(e) => return Err(e),
        };
        let ghost base = changes;
        after.timeline.stop_playback();
        mark_navigation(&before, &after, &mut changes);
        self.generation = self.generation.saturating_add(1);
        changes.generation = self.generation;
        self.document = copy_document(&after);
        let recorded = copy_changes(&changes);
        let ghost old_undo = self.history.undo_spec();
        let ghost entry = HistoryEntry { before, after, changes: recorded, label: None };
        let grouped = self.history.is_group_active();
        self.history.record(before, after, recorded, no_bytes);
        if grouped {
            return Ok(changes);
        }
        proof {
            let k = choose|k: int|
                crate::canvas::history::trimmed(
                    old_undo.push(entry),
                    k,
                    self.history.undo_spec(),
                    self.history.redo_spec(),
                    no_bytes,
                    self.history.config_spec(),
                );
            let entries = old_undo.push(entry);
            assert(self.history.undo_spec() == entries.skip(k));
            assert forall|i: int| 0 <= i < self.history.undo_spec().len() implies (#[trigger] self.history.undo_spec()[i]).before.valid()
                && self.history.undo_spec()[i].after.valid() by {
                assert(self.history.undo_spec()[i] == entries[i + k]);
            }
            if self.history.config_spec().max_entries > 0 {
                if k == entries.len() {
                    let j = entries.len() - 1;
                    assert(entries.len() - j <= self.history.config_spec().max_entries);
                    assert(!crate::canvas::history::measured_over(
                        no_bytes,
                        entries.skip(j),
                        self.history.redo_spec(),
                        self.history.config_spec().memory_budget_bytes,
                    ));
                }
                assert(self.history.undo_spec().last() == entries.last());
            }
        }
        Ok(changes)
    }

    /// Brings back the document from before the newest recorded edit,
    /// still showing the current frame when it has it, with playback
    /// stopped; refused when there is nothing to undo.
    pub fn undo(&mut self) -> (r: Result<ChangeSet, CoreError>)
        requires
            old(self).well_formed(),
        ensures
            final(self).well_formed(),
            final(self).entry_limit() == old(self).entry_limit(),
            final(self).group_active() == old(self).group_active(),
            old(self).group_active() ==> (r matches Err(CoreError::GroupInProgress)) && final(self).document_view()
                == old(self).document_view(),
            !old(self).group_active() && old(self).undo_target() is None ==> (r matches Err(
                CoreError::NothingToUndo,
            )) && final(self).document_view() == old(self).document_view(),
            !old(self).group_active() ==> (old(self).undo_target() matches Some(snapshot) ==> r is Ok
                && final(self).document_view() == restored(snapshot, old(self).document_view().timeline.current_frame)),
    {
        if self.history.is_group_active() {
            return Err(CoreError::GroupInProgress);
        }
        let viewed = self.document.timeline.current_frame();
        let (mut after, mut changes) = match self.history.next_undo() {
            None => return Err(CoreError::NothingToUndo),
            Some(entry) => (copy_document(&entry.before), copy_changes(&entry.changes)),
        };
        if after.timeline.contains(viewed) {
            let _ = after.timeline.set_current_frame(viewed);
        }
        after.timeline.stop_playback();
        mark_navigation(&self.document, &after, &mut changes);
        changes.navigation_changed = true;
        changes.canvas_changed = true;
        self.generation = self.generation.saturating_add(1);
        changes.generation = self.generation;
        self.document = after;
        self.history.commit_undo();
        proof {
            let u = old(self).history.undo_spec();
            assert forall|i: int| 0 <= i < self.history.undo_spec().len() implies (#[trigger] self.history.undo_spec()[i]).before.valid()
                && self.history.undo_spec()[i].after.valid() by {
                assert(self.history.undo_spec()[i] == u[i]);
            }
            assert forall|i: int| 0 <= i < self.history.redo_spec().len() implies (#[trigger] self.history.redo_spec()[i]).before.valid()
                && self.history.redo_spec()[i].after.valid() by {
                if i < old(self).history.redo_spec().len() {
                    assert(self.history.redo_spec()[i] == old(self).history.redo_spec()[i]);
                } else {
                    assert(self.history.redo_spec()[i] == u.last());
                }
            }
        }
        Ok(changes)
    }
    /// Changes what is shown or played without recording an edit: refused
    /// when the frame to show does not exist, and otherwise one more
    /// generation that reports the timeline and navigation as changed.
    pub fn navigate(&mut self, navigation: Navigation) -> (r: Result<ChangeSet, CoreError>)
        requires
            old(self).well_formed(),
        ensures
            final(self).well_formed(),
            final(self).entry_limit() == old(self).entry_limit(),
            final(self).undo_target() == old(self).undo_target(),
            final(self).redo_target() == old(self).redo_target(),
            final(self).group_active() == old(self).group_active(),
            old(self).group_active() ==> (r matches Err(CoreError::GroupInProgress)) && final(self).document_view()
                == old(self).document_view(),
            !old(self).group_active() ==> match navigated(old(self).document_view().timeline, navigation) {
                None => (r matches Err(CoreError::FrameNotFound(x)) && navigation == (Navigation::SetCurrentFrame {
                    id: x,
                })) && final(self).document_view() == old(self).document_view()
                    && final(self).generation_spec() == old(self).generation_spec(),
                Some((timeline, canvas)) => r matches Ok(cs) && final(self).document_view() == (DocumentView {
                    timeline,
                    ..old(self).document_view()
                }) && final(self).generation_spec() == (if old(self).generation_spec() == u64::MAX {
                    u64::MAX
                } else {
                    (old(self).generation_spec() + 1) as u64
                }) && cs.generation == final(self).generation_spec() && cs.document_changed
                    && cs.canvas_changed == canvas && cs.timeline_changed && cs.navigation_changed
                    && !cs.structure_changed && !cs.selection_changed && cs.changed_layers@.len() == 0,
            },
    {
        if self.history.is_group_active() {
            return Err(CoreError::GroupInProgress);
        }
        let mut after = copy_document(&self.document);
        let canvas = match after.timeline.navigate(navigation) {
            Ok(c) => c,
            Err(e) => return Err(e),
        };
        self.generation = self.generation.saturating_add(1);
        self.document = after;
        let mut changes = changes(false, true, false, Vec::new());
        changes.generation = self.generation;
        changes.canvas_changed = canvas;
        changes.navigation_changed = true;
        Ok(changes)
    }

    /// Starts a group of edits that undo as one, from the current document;
    /// refused while another group is in progress.
    pub fn begin_group(&mut self, label: String) -> (r: Result<(), CoreError>)
        requires
            old(self).well_formed(),
        ensures
            final(self).well_formed(),
            final(self).entry_limit() == old(self).entry_limit(),
            final(self).document_view() == old(self).document_view(),
            final(self).undo_target() == old(self).undo_target(),
            final(self).redo_target() == old(self).redo_target(),
            final(self).group_active(),
            old(self).group_active() ==> r == Err::<(), CoreError>(CoreError::GroupAlreadyActive)
                && final(self).group_start() == old(self).group_start(),
            !old(self).group_active() ==> r is Ok && final(self).group_start() == Some(old(self).document_view()),
    {
        let snapshot = copy_document(&self.document);
        self.history.begin_group(snapshot, Some(label))
    }

    /// Ends the group in progress: its edits become one undo entry, whose
    /// undo brings back the document from before the group.
    pub fn end_group(&mut self) -> (r: Result<(), CoreError>)
        requires
            old(self).well_formed(),
        ensures
            final(self).well_formed(),
            final(self).entry_limit() == old(self).entry_limit(),
            final(self).document_view() == old(self).document_view(),
            !final(self).group_active(),
            !old(self).group_active() ==> r == Err::<(), CoreError>(CoreError::NoActiveGroup)
                && final(self).undo_target() == old(self).undo_target(),
            old(self).group_active() ==> r is Ok,
            old(self).group_edited() && old(self).entry_limit() > 0 ==> final(self).undo_target()
                == old(self).group_start(),
            old(self).group_active() && !old(self).group_edited() ==> final(self).undo_target() == old(
                self,
            ).undo_target(),
    {
        let ghost old_undo = self.history.undo_spec();
        let ghost group = self.history.group_spec();
        let r = self.history.end_group(no_bytes);
        proof {
            if let Some(g) = group {
                if let Some(after) = g.after {
                    let entry = HistoryEntry { before: g.before, after, changes: g.changes, label: g.label };
                    let entries = old_undo.push(entry);
                    let k = choose|k: int|
                        crate::canvas::history::trimmed(
                            entries,
                            k,
                            self.history.undo_spec(),
                            self.history.redo_spec(),
                            no_bytes,
                            self.history.config_spec(),
                        );
                    assert forall|i: int| 0 <= i < self.history.undo_spec().len() implies (#[trigger] self.history.undo_spec()[i]).before.valid()
                        && self.history.undo_spec()[i].after.valid() by {
                        assert(self.history.undo_spec()[i] == entries[i + k]);
                    }
                    if self.history.config_spec().max_entries > 0 {
                        if k == entries.len() {
                            let j = entries.len() - 1;
                            assert(entries.len() - j <= self.history.config_spec().max_entries);
                            assert(!crate::canvas::history::measured_over(
                                no_bytes,
                                entries.skip(j),
                                self.history.redo_spec(),
                                self.history.config_spec().memory_budget_bytes,
                            ));
                        }
                        assert(self.history.undo_spec().last() == entries.last());
                    }
                }
            }
        }
        r
    }

    /// Abandons the group in progress and brings back the document from
    /// before it; reports the whole document as changed.
    pub fn cancel_group(&mut self) -> (r: Result<ChangeSet, CoreError>)
        requires
            old(self).well_formed(),
        ensures
            final(self).well_formed(),
            final(self).entry_limit() == old(self).entry_limit(),
            final(self).undo_target() == old(self).undo_target(),
            final(self).redo_target() == old(self).redo_target(),
            !final(self).group_active(),
            !old(self).group_active() ==> (r matches Err(CoreError::NoActiveGroup)) && final(self).document_view()
                == old(self).document_view(),
            old(self).group_start() matches Some(start) ==> r is Ok && final(self).document_view() == start,
    {
        let ghost group = self.history.group_spec();
        let restored = match self.history.cancel_group() {
            Ok(d) => d,
            Err(e) => return Err(e),
        };
        self.document = restored;
        self.generation = self.generation.saturating_add(1);
        let mut layers: Vec<LayerId> = Vec::new();
        let mut i: usize = 0;
        while i < self.document.nodes.len()
            invariant
                i <= self.document.nodes@.len(),
            decreases self.document.nodes@.len() - i,
        {
            layers.push(self.document.nodes[i].id);
            i = i + 1;
        }
        Ok(ChangeSet {
            generation: self.generation,
            document_changed: true,
            structure_changed: true,
            canvas_changed: true,
            timeline_changed: true,
            navigation_changed: true,
            selection_changed: true,
            changed_layers: layers,
        })
    }

    /// The document a redo would bring back, if any.
    pub closed spec fn redo_target(&self) -> Option<DocumentView> {
        if self.history.redo_spec().len() > 0 {
            Some(self.history.redo_spec().last().after@)
        } else {
            None
        }
    }

    /// Brings back the document from after the newest undone edit, still
    /// showing the current frame when it has it, with playback stopped;
    /// refused when there is nothing to redo.
    pub fn redo(&mut self) -> (r: Result<ChangeSet, CoreError>)
        requires
            old(self).well_formed(),
        ensures
            final(self).well_formed(),
            final(self).entry_limit() == old(self).entry_limit(),
            final(self).group_active() == old(self).group_active(),
            old(self).group_active() ==> (r matches Err(CoreError::GroupInProgress)) && final(self).document_view()
                == old(self).document_view(),
            !old(self).group_active() && old(self).redo_target() is None ==> (r matches Err(
                CoreError::NothingToRedo,
            )) && final(self).document_view() == old(self).document_view(),
            !old(self).group_active() ==> (old(self).redo_target() matches Some(snapshot) ==> r is Ok
                && final(self).document_view() == restored(snapshot, old(self).document_view().timeline.current_frame)),
    {
        if self.history.is_group_active() {
            return Err(CoreError::GroupInProgress);
        }
        let viewed = self.document.timeline.current_frame();
        let (mut after, mut changes) = match self.history.next_redo() {
            None => return Err(CoreError::NothingToRedo),
            Some(entry) => (copy_document(&entry.after), copy_changes(&entry.changes)),
        };
        if after.timeline.contains(viewed) {
            let _ = after.timeline.set_current_frame(viewed);
        }
        after.timeline.stop_playback();
        mark_navigation(&self.document, &after, &mut changes);
        changes.navigation_changed = true;
        changes.canvas_changed = true;
        self.generation = self.generation.saturating_add(1);
        changes.generation = self.generation;
        self.document = after;
        self.history.commit_redo();
        proof {
            let u = old(self).history.undo_spec();
            let d = old(self).history.redo_spec();
            assert forall|i: int| 0 <= i < self.history.redo_spec().len() implies (#[trigger] self.history.redo_spec()[i]).before.valid()
                && self.history.redo_spec()[i].after.valid() by {
                assert(self.history.redo_spec()[i] == d[i]);
            }
            assert forall|i: int| 0 <= i < self.history.undo_spec().len() implies (#[trigger] self.history.undo_spec()[i]).before.valid()
                && self.history.undo_spec()[i].after.valid() by {
                if i < u.len() {
                    assert(self.history.undo_spec()[i] == u[i]);
                } else {
                    assert(self.history.undo_spec()[i] == d.last());
                }
            }
        }
        Ok(changes)
    }
}

/// Undoing an accepted command brings a stopped document back exactly:
/// no command moves the shown frame, so the frame still shown is the one
/// the snapshot shows.
pub proof fn law_undo_restores_the_document(d: DocumentView, c: Command)
    requires
        timeline_valid(d.timeline),
        !d.timeline.playback.playing,
        command_accepts(d, c),
    ensures
        restored(d, stopped_document(command_applied(d, c)).timeline.current_frame) == d,
{
    let shown = stopped_document(command_applied(d, c)).timeline.current_frame;
    assert(shown == d.timeline.current_frame);
    assert(stopped(d.timeline) == d.timeline);
}

} // verus!
