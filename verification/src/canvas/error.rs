//! Errors of the editor core.

use vstd::prelude::*;

use crate::canvas::document::{FrameId, LayerId, NodeKind};
use crate::canvas::formats::FileFormat;

verus! {

/// Typed failures at a file-format boundary.
#[derive(Debug, PartialEq, Eq)]
#[non_exhaustive]
pub enum FormatError {
    UnknownFormat,
    FormatMismatch { expected: FileFormat, detected: FileFormat },
    InputTooLarge,
    OutputTooLarge,
    InvalidOption(&'static str),
    UnsupportedFeature(&'static str),
    LossRequired(&'static str),
    Malformed(&'static str),
    LimitExceeded(&'static str),
}

} // verus!

verus! {

#[verifier::external_type_specification]
#[verifier::external_body]
pub struct ExIoError(std::io::Error);

/// Errors returned by the editor core.
#[derive(Debug)]
pub enum CoreError {
    InvalidDimensions { width: u32, height: u32 },
    InvalidBufferLength { expected: usize, actual: usize },
    LayerNotFound(LayerId),
    LayerIndexOutOfBounds { index: usize, len: usize },
    SiblingIndexOutOfBounds { index: usize, len: usize },
    DuplicateNodeId(LayerId),
    ParentIsNotGroup(LayerId),
    HierarchyCycle { node: LayerId, parent: LayerId },
    InvalidHierarchyOrder,
    NonEmptyGroup(LayerId),
    RasterMaskAlreadyExists(LayerId),
    RasterMaskNotFound(LayerId),
    InvalidMaskOperation,
    SelectionNotActive,
    LastLayer,
    InvalidOpacity,
    EmptyLayerName,
    FrameNotFound(FrameId),
    DuplicateFrameId(FrameId),
    FrameIndexOutOfBounds { index: usize, len: usize },
    LastFrame,
    InvalidTimelineFps,
    InvalidPlaybackRange,
    PlaybackRangeOrder,
    UnsupportedNodeContent(NodeKind),
    UnsupportedTextGlyph(char),
    InvalidSemanticGeometry,
    InvalidSemanticPath,
    InvalidSemanticStyle,
    SemanticWorkLimitExceeded,
    MissingRasterCel { node: LayerId, frame: FrameId },
    DocumentLimitExceeded(&'static str),
    RenderWorkLimitExceeded { max_pixel_visits: u64 },
    InvalidBrushPointCount { actual: usize, max: usize },
    InvalidBrushSize,
    InvalidPressure,
    InvalidBrushSettings,
    BrushWorkLimitExceeded { max_pixel_visits: u64 },
    InvalidSelectionRadius(u32),
    InvalidGradient,
    InvalidTransform,
    InvalidFilterParameter,
    GroupAlreadyActive,
    NoActiveGroup,
    GroupInProgress,
    NothingToUndo,
    NothingToRedo,
    UnsupportedProjectVersion(u32),
    InvalidProjectMagic,
    MalformedProject(String),
    UnsupportedImageFormat,
    Format(FormatError),
    Io(std::io::Error),
}

} // verus!
