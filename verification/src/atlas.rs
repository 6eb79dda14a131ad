//! The atlas builder and the finished atlas.
//!
//! The builder records where an outside rectangle packer put each glyph. It
//! hands every glyph the next free slot, keeps one descriptor and one metadata
//! record per slot, and on completion turns the glyphs' index ranges into the
//! batches of a single multi-range draw.

use crate::batch::{describes, merge_ranges, merged, ordered};
use crate::geometry::{Point, Rect, Size};
use crate::image::{ImageDescriptor, ImageMetadata};
use crate::model::{in_slot_order, PackRequest, Slots};
use vstd::prelude::*;

verus! {

/// Why a glyph was not packed.
#[derive(Clone, Copy, Debug, PartialEq, Eq, Structural)]
pub enum PackError {
    /// The packer had no room left for the glyph's rectangle.
    OutOfSpace,
}

/// Why no atlas was created.
#[derive(Clone, Copy, Debug, PartialEq, Eq, Structural)]
pub enum FinalizeError {
    /// The device could not allocate or fill the descriptor buffer.
    UploadFailed,
}

/// An atlas under construction.
pub struct AtlasBuilder {
    available_width: u32,
    shelf_height: u32,
    image_descriptors: Vec<ImageDescriptor>,
    image_metadata: Vec<ImageMetadata>,
}

/// A finished atlas: the device buffer that holds the descriptors, and the
/// batches that draw every packed glyph.
pub struct Atlas {
    start_indices: Vec<usize>,
    counts: Vec<usize>,
    images: u32,
    /// The height of a shelf, as the packer was configured.
    pub shelf_height: u32,
    /// The number of columns that the packer's shelves take up.
    pub shelf_columns: u32,
}

/// One multi-range indexed draw: batch `i` draws `counts[i]` indices starting
/// at `start_indices[i]`.
pub struct MultiDraw<'a> {
    /// The primitive topology to draw with.
    pub primitive: u32,
    /// How many indices each batch draws.
    pub counts: &'a Vec<usize>,
    /// Where in the index buffer each batch starts.
    pub start_indices: &'a Vec<usize>,
}

impl AtlasBuilder {
    /// The records of the glyphs packed so far.
    pub closed spec fn view(&self) -> Slots {
        Slots { descriptors: self.image_descriptors@, metadata: self.image_metadata@ }
    }

    /// The builder's records are well formed.
    pub open spec fn wf(&self) -> bool {
        self@.wf()
    }

    /// The width that the packer may fill.
    pub closed spec fn width(&self) -> u32 {
        self.available_width
    }

    /// The height of one shelf of the packer.
    pub closed spec fn height(&self) -> u32 {
        self.shelf_height
    }

    /// An empty builder for an atlas of the given capacity.
    pub fn new(available_width: u32, shelf_height: u32) -> (builder: AtlasBuilder)
        ensures
            builder.wf(),
            builder@ == Slots::empty(),
            builder.width() == available_width,
            builder.height() == shelf_height,
    {
        AtlasBuilder {
            available_width,
            shelf_height,
            image_descriptors: Vec::new(),
            image_metadata: Vec::new(),
        }
    }

    /// The width that the packer may fill.
    pub fn available_width(&self) -> (width: u32)
        ensures
            width == self.width(),
    {
        self.available_width
    }

    /// The height of one shelf of the packer.
    pub fn shelf_height(&self) -> (height: u32)
        ensures
            height == self.height(),
    {
        self.shelf_height
    }

    /// The number of glyphs packed so far.
    pub fn glyph_count(&self) -> (count: usize)
        ensures
            count == self@.len(),
    {
        self.image_descriptors.len()
    }

    /// The descriptors of the packed glyphs, by slot.
    pub fn image_descriptors(&self) -> (descriptors: &Vec<ImageDescriptor>)
        ensures
            descriptors@ == self@.descriptors,
    {
        &self.image_descriptors
    }

    /// The metadata of the packed glyphs, by slot.
    pub fn image_metadata(&self) -> (metadata: &Vec<ImageMetadata>)
        ensures
            metadata@ == self@.metadata,
    {
        &self.image_metadata
    }

    /// Records the packer's answer to one glyph.
    ///
    /// `pixel_size` is the glyph's pixel bounds rounded up to whole pixels,
    /// the rectangle that the packer was asked for; `placement` is where the
    /// packer put it, or `None` if it had no room. With a placement the glyph
    /// takes the next free slot; without one nothing changes and the call
    /// fails with `OutOfSpace`.
    pub fn pack_glyph(
        &mut self,
        glyph_id: u16,
        point_size: u32,
        pixel_size: Size,
        placement: Option<Point>,
    ) -> (result: Result<(), PackError>)
        requires
            old(self).wf(),
            old(self)@.len() < u32::MAX,
        ensures
            final(self).wf(),
            final(self).width() == old(self).width(),
            final(self).height() == old(self).height(),
            final(self)@ == old(self)@.pack(
                PackRequest { glyph_id, point_size, pixel_size, placement },
            ),
            placement is Some ==> result == Ok::<(), PackError>(()),
            placement is None ==> result == Err::<(), PackError>(PackError::OutOfSpace),
    {
        let atlas_origin = match placement {
            Some(origin) => origin,
            None => {
                return Err(PackError::OutOfSpace);
            },
        };

        let glyph_index: u32 = self.image_descriptors.len() as u32;

        while self.image_descriptors.len() < glyph_index as usize + 1
            invariant
                glyph_index < u32::MAX,
                self.image_metadata@ == old(self).image_metadata@,
                self.available_width == old(self).available_width,
                self.shelf_height == old(self).shelf_height,
                self.image_descriptors@.len() >= glyph_index,
                self.image_descriptors@.len() <= glyph_index + 1,
                self.image_descriptors@.take(glyph_index as int) == old(self).image_descriptors@,
            decreases glyph_index as int + 1 - self.image_descriptors@.len(),
        {
            self.image_descriptors.push(ImageDescriptor::default());
        }

        self.image_descriptors.set(
            glyph_index as usize,
            ImageDescriptor {
                atlas_x: atlas_origin.x,
                atlas_y: atlas_origin.y,
                point_size,
                glyph_index,
            },
        );

        self.image_metadata.push(
            ImageMetadata { atlas_size: pixel_size, glyph_index, glyph_id },
        );

        proof {
            let request = PackRequest { glyph_id, point_size, pixel_size, placement };
            let after = old(self)@.pack(request);
            assert(self.image_descriptors@ =~= after.descriptors);
            assert(self.image_metadata@ =~= after.metadata);
            crate::model::lemma_record(old(self)@, glyph_id, point_size, pixel_size, atlas_origin);
        }
        Ok(())
    }

    /// Finishes the atlas.
    ///
    /// `ranges[slot]` is the range of positions in the shared index buffer
    /// that draws the glyph in `slot`. `shelf_columns` is the packer's column
    /// count. `images` is the handle of the device buffer that the descriptors
    /// were uploaded to, or `None` if the upload failed: then the call fails
    /// with `UploadFailed`. The builder keeps its records either way.
    pub fn create_atlas(
        &mut self,
        ranges: &Vec<(usize, usize)>,
        shelf_columns: u32,
        images: Option<u32>,
    ) -> (result: Result<Atlas, FinalizeError>)
        requires
            old(self).wf(),
            old(self)@.len() <= ranges@.len(),
            ordered(ranges@.take(old(self)@.len() as int)),
        ensures
            final(self).wf(),
            final(self)@ == old(self)@,
            final(self).width() == old(self).width(),
            final(self).height() == old(self).height(),
            images is None ==> result == Err::<Atlas, FinalizeError>(FinalizeError::UploadFailed),
            images matches Some(buffer) ==> {
                &&& result matches Ok(atlas)
                &&& atlas.wf()
                &&& atlas.draws(merged(ranges@.take(old(self)@.len() as int)))
                &&& atlas.buffer() == buffer
                &&& atlas.height() == old(self).height()
                &&& atlas.columns() == shelf_columns
            },
    {
        sort_by_slot(&mut self.image_metadata);

        let slot_ranges = self.slot_ranges(ranges);
        let (start_indices, counts) = merge_ranges(&slot_ranges);

        match images {
            Some(images) => Ok(
                Atlas {
                    start_indices,
                    counts,
                    images,
                    shelf_height: self.shelf_height,
                    shelf_columns,
                },
            ),
            None => Err(FinalizeError::UploadFailed),
        }
    }

    /// The index range of every packed glyph, in the order of the metadata
    /// list.
    fn slot_ranges(&self, ranges: &Vec<(usize, usize)>) -> (picked: Vec<(usize, usize)>)
        requires
            self.wf(),
            self@.len() <= ranges@.len(),
        ensures
            picked@ == ranges@.take(self@.len() as int),
    {
        let mut picked: Vec<(usize, usize)> = Vec::new();
        let mut i: usize = 0;
        while i < self.image_metadata.len()
            invariant
                self.wf(),
                self@.len() <= ranges@.len(),
                i <= self.image_metadata@.len(),
                picked@ == ranges@.take(i as int),
            decreases self.image_metadata@.len() - i,
        {
            let glyph_index: u32 = self.image_metadata[i].glyph_index;
            picked.push(ranges[glyph_index as usize]);
            proof {
                assert(ranges@.take(i + 1) =~= ranges@.take(i as int).push(ranges@[i as int]));
            }
            i += 1;
        }
        picked
    }

    /// Looks a glyph's slot up by the glyph's identifier, with a binary search
    /// of the metadata list.
    ///
    /// The search is only reliable while that list is in ascending order of
    /// glyph identifier, which holds if the glyphs were packed in that order.
    /// In any other order a packed glyph may go unfound. A slot that is
    /// returned always holds the glyph that was asked for.
    pub fn glyph_index_for(&self, glyph_id: u16) -> (slot: Option<u32>)
        requires
            self.wf(),
        ensures
            slot matches Some(found) ==> found < self@.len() && self@.metadata[found as int].glyph_id
                == glyph_id,
            self@.sorted_by_glyph_id() ==> (slot is Some <==> self@.holds_glyph(glyph_id)),
    {
        let mut low: usize = 0;
        let mut high: usize = self.image_metadata.len();
        while low < high
            invariant
                self.wf(),
                low <= high <= self.image_metadata@.len(),
                self@.sorted_by_glyph_id() ==> forall|i: int|
                    0 <= i < low ==> self.image_metadata@[i].glyph_id < glyph_id,
                self@.sorted_by_glyph_id() ==> forall|i: int|
                    high <= i < self.image_metadata@.len() ==> self.image_metadata@[i].glyph_id
                        > glyph_id,
            decreases high - low,
        {
            let middle: usize = low + (high - low) / 2;
            let entry = self.image_metadata[middle];
            if entry.glyph_id == glyph_id {
                return Some(entry.glyph_index);
            } else if entry.glyph_id < glyph_id {
                low = middle + 1;
            } else {
                high = middle;
            }
        }
        None
    }

    /// The rectangle that the glyph in slot `glyph_index` occupies: where the
    /// packer put it, and as large as was asked for.
    pub fn atlas_rect(&self, glyph_index: u32) -> (rect: Rect)
        requires
            self.wf(),
            glyph_index < self@.len(),
        ensures
            rect == self@.rect(glyph_index as int),
    {
        let descriptor = &self.image_descriptors[glyph_index as usize];
        let metadata = &self.image_metadata[glyph_index as usize];
        Rect::new(Point::new(descriptor.atlas_x, descriptor.atlas_y), metadata.atlas_size)
    }

    /// The descriptor array as the device reads it: four words per slot, in
    /// slot order.
    pub fn upload_records(&self) -> (records: Vec<[u32; 4]>)
        ensures
            records@.len() == self@.len(),
            forall|i: int| 0 <= i < records@.len() ==> (#[trigger] records@[i])@ == self@.upload()[i],
    {
        let mut records: Vec<[u32; 4]> = Vec::new();
        let mut i: usize = 0;
        while i < self.image_descriptors.len()
            invariant
                i <= self.image_descriptors@.len(),
                records@.len() == i,
                forall|k: int|
                    0 <= k < i ==> (#[trigger] records@[k])@ == self.image_descriptors@[k].words(),
            decreases self.image_descriptors@.len() - i,
        {
            records.push(self.image_descriptors[i].to_words());
            i += 1;
        }
        records
    }
}

/// Exchanging two neighbours keeps the same entries.
proof fn lemma_swap_keeps_entries(entries: Seq<ImageMetadata>, j: int)
    requires
        0 < j < entries.len(),
    ensures
        entries.update(j - 1, entries[j]).update(j, entries[j - 1]).to_multiset()
            == entries.to_multiset(),
{
    broadcast use vstd::multiset::group_multiset_axioms;

    let halfway = entries.update(j - 1, entries[j]);
    vstd::seq_lib::to_multiset_update(entries, j - 1, entries[j]);
    vstd::seq_lib::to_multiset_update(halfway, j, entries[j - 1]);
    entries.to_multiset_ensures();
    assert(entries.to_multiset().count(entries[j]) > 0) by {
        assert(entries.contains(entries[j]));
    }
    assert(entries.to_multiset().count(entries[j - 1]) > 0) by {
        assert(entries.contains(entries[j - 1]));
    }
    assert(halfway.update(j, entries[j - 1]).to_multiset() =~= entries.to_multiset());
}

/// Sorts the entries by slot, keeping the order of entries with equal slots.
/// Entries that are in order already stay as they are.
fn sort_by_slot(entries: &mut Vec<ImageMetadata>)
    ensures
        in_slot_order(final(entries)@),
        final(entries)@.to_multiset() == old(entries)@.to_multiset(),
        in_slot_order(old(entries)@) ==> final(entries)@ == old(entries)@,
{
    let mut i: usize = 1;
    while i < entries.len()
        invariant
            entries@.len() == old(entries)@.len(),
            entries@.to_multiset() == old(entries)@.to_multiset(),
            in_slot_order(old(entries)@) ==> entries@ == old(entries)@,
            forall|a: int, b: int|
                0 <= a < b < i && b < entries@.len() ==> entries@[a].glyph_index
                    <= entries@[b].glyph_index,
        decreases entries@.len() - i,
    {
        let mut j: usize = i;
        while j > 0 && entries[j - 1].glyph_index > entries[j].glyph_index
            invariant
                j <= i < entries@.len(),
                entries@.len() == old(entries)@.len(),
                entries@.to_multiset() == old(entries)@.to_multiset(),
                in_slot_order(old(entries)@) ==> entries@ == old(entries)@,
                forall|a: int, b: int|
                    0 <= a < b <= i && a != j && b != j ==> entries@[a].glyph_index
                        <= entries@[b].glyph_index,
                forall|b: int| j < b <= i ==> entries@[j as int].glyph_index < entries@[b].glyph_index,
            decreases j,
        {
            let earlier = entries[j - 1];
            let later = entries[j];
            proof {
                lemma_swap_keeps_entries(entries@, j as int);
            }
            entries.set(j - 1, later);
            entries.set(j, earlier);
            j -= 1;
        }
        i += 1;
    }
}

impl Atlas {
    /// Both batch lists have one entry per batch.
    pub closed spec fn wf(&self) -> bool {
        self.counts@.len() == self.start_indices@.len()
    }

    /// Where each batch starts in the index buffer.
    pub closed spec fn batch_starts(&self) -> Seq<usize> {
        self.start_indices@
    }

    /// How many indices each batch draws.
    pub closed spec fn batch_counts(&self) -> Seq<usize> {
        self.counts@
    }

    /// The handle of the device buffer that holds the descriptors.
    pub closed spec fn buffer(&self) -> u32 {
        self.images
    }

    /// The value of the field `shelf_height`.
    pub closed spec fn height(&self) -> u32 {
        self.shelf_height
    }

    /// The value of the field `shelf_columns`.
    pub closed spec fn columns(&self) -> u32 {
        self.shelf_columns
    }

    /// The atlas draws exactly the given ranges, one batch for each.
    pub open spec fn draws(&self, ranges: Seq<(usize, usize)>) -> bool {
        describes(self.batch_starts(), self.batch_counts(), ranges)
    }

    /// The handle of the device buffer that holds the descriptors.
    pub fn images(&self) -> (images: u32)
        ensures
            images == self.buffer(),
    {
        self.images
    }

    /// Where each batch starts in the index buffer.
    pub fn start_indices(&self) -> (start_indices: &Vec<usize>)
        ensures
            start_indices@ == self.batch_starts(),
    {
        &self.start_indices
    }

    /// How many indices each batch draws.
    pub fn counts(&self) -> (counts: &Vec<usize>)
        ensures
            counts@ == self.batch_counts(),
    {
        &self.counts
    }

    /// The one device call that draws every packed glyph with the given
    /// primitive topology. The atlas itself does not change: every call yields
    /// the same batches.
    pub fn draw(&self, primitive: u32) -> (call: MultiDraw<'_>)
        requires
            self.wf(),
        ensures
            call.primitive == primitive,
            call.start_indices@ == self.batch_starts(),
            call.counts@ == self.batch_counts(),
            call.counts@.len() == call.start_indices@.len(),
    {
        MultiDraw { primitive, counts: &self.counts, start_indices: &self.start_indices }
    }
}

/// The contract of `atlas_rect` leaves no choice: any two results for the same
/// slot of the same builder are the same rectangle.
pub proof fn lemma_atlas_rect_repeatable(
    builder: AtlasBuilder,
    glyph_index: u32,
    first: Rect,
    second: Rect,
)
    requires
        builder.wf(),
        glyph_index < builder@.len(),
        call_ensures(AtlasBuilder::atlas_rect, (&builder, glyph_index), first),
        call_ensures(AtlasBuilder::atlas_rect, (&builder, glyph_index), second),
    ensures
        first == second,
{
}

/// The contract of `draw` leaves no choice: any two calls on the same atlas
/// with the same primitive submit the same batches.
pub proof fn lemma_draw_repeatable(
    atlas: Atlas,
    primitive: u32,
    first: MultiDraw<'_>,
    second: MultiDraw<'_>,
)
    requires
        atlas.wf(),
        call_ensures(Atlas::draw, (&atlas, primitive), first),
        call_ensures(Atlas::draw, (&atlas, primitive), second),
    ensures
        first.primitive == second.primitive,
        first.start_indices@ == second.start_indices@,
        first.counts@ == second.counts@,
{
}

} // verus!
