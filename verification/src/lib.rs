//! Terminal-style cell grids rendered through a cached glyph atlas.
//!
//! The crate models the CPU side of a terminal renderer: a grid of styled
//! cells is turned into background and foreground quads, glyph bitmaps are
//! rasterized (procedurally for box-drawing, block, braille and powerline
//! ranges, or from externally supplied font data) and cached in a bounded
//! packing atlas, and a frame plan tells the GPU host in which order to
//! upload pixels and issue the two composite passes.

pub mod atlas;
pub mod bitmap;
pub mod color;
pub mod compose;
pub mod programmatic;
pub mod raster;
pub mod terminal;
pub mod unicode;

use vstd::prelude::*;

verus! {

/// Errors surfaced to the caller at construction time. Rendering itself
/// degrades locally (blank glyphs) and never fails.
#[derive(Clone, Copy, PartialEq, Eq, Structural, Debug)]
pub enum Error {
    /// A terminal was configured with zero columns or zero rows.
    ZeroGridDimensions,
    /// An atlas or bitmap was configured with a zero width or height.
    ZeroPixelDimensions,
    /// A pixel dimension exceeds the supported maximum.
    DimensionTooLarge,
}

impl Error {
    /// A short human-readable description of the error.
    pub fn describe(&self) -> (r: &'static str)
        ensures
            r@.len() > 0,
    {
        let r = match self {
            Error::ZeroGridDimensions => "terminal dimensions must be at least one column and one row",
            Error::ZeroPixelDimensions => "pixel dimensions must be nonzero",
            Error::DimensionTooLarge => "pixel dimensions exceed the supported maximum",
        };
        proof {
            reveal_strlit("terminal dimensions must be at least one column and one row");
            reveal_strlit("pixel dimensions must be nonzero");
            reveal_strlit("pixel dimensions exceed the supported maximum");
        }
        r
    }
}

} // verus!
