//! Flattened frames handed out by the editor.

use vstd::prelude::*;

use crate::canvas::raster::RasterBytes;

verus! {

/// Immutable flattened RGBA pixels of a `width` x `height` canvas,
/// associated with the editor generation they were rendered at. Clones and
/// shared handles reuse one allocation.
#[derive(Clone, Debug)]
pub struct RenderSnapshot {
    width: u32,
    height: u32,
    generation: u64,
    pixels: RasterBytes,
}

impl RenderSnapshot {
    /// Four bytes per pixel of the canvas.
    pub closed spec fn well_formed(&self) -> bool {
        self.pixels@.len() == self.width * self.height * 4
    }

    pub closed spec fn width_spec(&self) -> u32 {
        self.width
    }

    pub closed spec fn height_spec(&self) -> u32 {
        self.height
    }

    pub closed spec fn generation_spec(&self) -> u64 {
        self.generation
    }

    pub closed spec fn pixels_spec(&self) -> Seq<u8> {
        self.pixels@
    }

    /// A snapshot of rendered pixels; `None` when there are not exactly
    /// four bytes per pixel.
    pub fn from_pixels(width: u32, height: u32, generation: u64, pixels: Vec<u8>) -> (r: Option<
        Self,
    >)
        ensures
            r is Some <==> pixels@.len() == width * height * 4,
            r matches Some(snapshot) ==> {
                &&& snapshot.well_formed()
                &&& snapshot.width_spec() == width
                &&& snapshot.height_spec() == height
                &&& snapshot.generation_spec() == generation
                &&& snapshot.pixels_spec() == pixels@
            },
    {
        assert((width as u128) * (height as u128) <= 0xFFFF_FFFFu128 * 0xFFFF_FFFFu128)
            by (nonlinear_arith)
            requires
                width <= 0xFFFF_FFFFu32,
                height <= 0xFFFF_FFFFu32,
        ;
        let expected = (width as u128) * (height as u128) * 4;
        if pixels.len() as u128 != expected {
            return None;
        }
        Some(RenderSnapshot { width, height, generation, pixels: RasterBytes::new(pixels) })
    }

    pub fn width(&self) -> (width: u32)
        ensures
            width == self.width_spec(),
    {
        self.width
    }

    pub fn height(&self) -> (height: u32)
        ensures
            height == self.height_spec(),
    {
        self.height
    }

    /// The editor generation the pixels were rendered at.
    pub fn generation(&self) -> (generation: u64)
        ensures
            generation == self.generation_spec(),
    {
        self.generation
    }

    pub fn pixels(&self) -> (pixels: &[u8])
        ensures
            pixels@ == self.pixels_spec(),
    {
        self.pixels.as_slice()
    }

    /// Another handle to the same pixel allocation.
    pub fn shared_pixels(&self) -> (pixels: RasterBytes)
        ensures
            pixels@ == self.pixels_spec(),
    {
        self.pixels.clone()
    }
}

} // verus!
