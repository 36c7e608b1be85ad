//! A plain straight-alpha RGBA image.

use vstd::prelude::*;

verus! {

/// A `width`×`height` straight-alpha RGBA image, row-major, 4 bytes per pixel.
pub struct Raster {
    pub width: u32,
    pub height: u32,
    pub pixels: Vec<u8>,
}

impl Raster {
    /// The pixel buffer has exactly `width · height · 4` bytes.
    pub open spec fn wf(&self) -> bool {
        self.pixels@.len() == self.width * self.height * 4
    }
}

} // verus!
