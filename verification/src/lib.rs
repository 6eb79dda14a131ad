//! Glyph atlas construction: bookkeeping of packed glyph rectangles, lookup of
//! a glyph's placement, and merging of per-glyph index ranges into the fewest
//! contiguous draw batches.

pub mod geometry;
pub mod image;
pub mod batch;
pub mod model;
pub mod atlas;
