//! The two records kept for every packed glyph.

use crate::geometry::Size;
use vstd::prelude::*;

verus! {

/// What the graphics device is told about one packed glyph. Records are
/// uploaded as four consecutive 32-bit words, in field order.
#[derive(Clone, Copy, Debug, PartialEq, Eq, Structural)]
pub struct ImageDescriptor {
    /// Horizontal offset of the glyph's rectangle within the atlas surface.
    pub atlas_x: u32,
    /// Vertical offset of the glyph's rectangle within the atlas surface.
    pub atlas_y: u32,
    /// Requested point size in 16.16 fixed point.
    pub point_size: u32,
    /// The slot this record occupies in the descriptor array.
    pub glyph_index: u32,
}

/// What the host keeps about one packed glyph.
#[derive(Clone, Copy, Debug, PartialEq, Eq, Structural)]
pub struct ImageMetadata {
    /// Width and height of the packed rectangle in pixels.
    pub atlas_size: Size,
    /// The slot of the matching `ImageDescriptor`.
    pub glyph_index: u32,
    /// The glyph's identifier in its font.
    pub glyph_id: u16,
}

impl ImageDescriptor {
    /// The all-zero record that fills a slot before it is assigned.
    pub open spec fn zeroed() -> ImageDescriptor {
        ImageDescriptor { atlas_x: 0, atlas_y: 0, point_size: 0, glyph_index: 0 }
    }

    /// The record as the device reads it.
    pub open spec fn words(self) -> Seq<u32> {
        seq![self.atlas_x, self.atlas_y, self.point_size, self.glyph_index]
    }

    /// Lays the record out as the four words the device reads.
    pub fn to_words(&self) -> (w: [u32; 4])
        ensures
            w@ == self.words(),
    {
        let w: [u32; 4] = [self.atlas_x, self.atlas_y, self.point_size, self.glyph_index];
        assert(w@ =~= self.words());
        w
    }
}

impl Default for ImageDescriptor {
    fn default() -> (d: ImageDescriptor)
        ensures
            d == ImageDescriptor::zeroed(),
    {
        ImageDescriptor { atlas_x: 0, atlas_y: 0, point_size: 0, glyph_index: 0 }
    }
}

} // verus!
