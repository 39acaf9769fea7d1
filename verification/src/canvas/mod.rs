//! Editor-side logic: pixels, selections, timelines, geometry, and formats.

pub mod document;
pub mod editor;
pub mod error;
pub mod filters;
pub mod formats;
pub mod glyphs;
pub mod hierarchy;
pub mod history;
pub mod ora;
pub mod paths;
pub mod raster;
pub mod render;
pub mod selection;
pub mod semantic;
pub mod stack;
pub mod svg;
pub mod timeline;
pub mod validation;
pub mod zip_reader;
