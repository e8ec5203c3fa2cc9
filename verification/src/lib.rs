//! A verified core for an interactive falling-matter sandbox.
//!
//! The library maintains a fixed-size 2-D grid of `u32` matter identifiers,
//! rasterizes pointer strokes into the grid with a radius-based brush,
//! colorizes the grid into an RGBA image each simulation step, and models
//! the orthographic camera and quad-compositing transforms that present
//! the image on screen.

use vstd::prelude::*;

pub mod camera;
pub mod grid;
pub mod line;
pub mod quad;
pub mod rat;

verus! {

/// Width of one compute workgroup tile; grid widths must divide evenly by it.
pub const LOCAL_SIZE_X: u32 = 32;

/// Height of one compute workgroup tile; grid heights must divide evenly by it.
pub const LOCAL_SIZE_Y: u32 = 32;

/// Matter identifier denoting an empty grid cell.
pub const EMPTY_MATTER: u32 = 0;

/// Largest supported canvas dimension, so cell counts and linear indices
/// stay well within machine integer ranges.
pub const MAX_CANVAS_DIM: u32 = 32768;

/// Largest supported brush radius, so disc arithmetic never overflows.
pub const MAX_BRUSH_RADIUS: u32 = 32768;

/// Runtime-configurable sandbox settings: the brush shape and the matter it
/// paints.
#[derive(Debug, Clone, Copy, PartialEq, Eq, Structural)]
pub struct DynamicSettings {
    /// Brush radius in cells.
    pub brush_radius: u32,
    /// Matter identifier the brush writes.
    pub draw_matter: u32,
}

impl Default for DynamicSettings {
    /// The startup settings: a small red brush.
    fn default() -> (r: DynamicSettings)
        ensures
            r.brush_radius == 4u32,
            r.draw_matter == 0xff0000ffu32,
    {
        DynamicSettings { brush_radius: 4, draw_matter: 0xff0000ff }
    }
}

} // verus!
