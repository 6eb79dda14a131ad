use glyph_atlas::atlas::{AtlasBuilder, FinalizeError, PackError};
use glyph_atlas::geometry::{Point, Rect, Size};
use glyph_atlas::image::{ImageDescriptor, ImageMetadata};

/// A stand-in for the outside packer: rectangles are laid side by side on
/// shelves of a fixed height, and a rectangle that is taller than one shelf
/// takes as many whole shelves as it needs.
struct Shelves {
    available_width: u32,
    shelf_height: u32,
    shelves_in_use: u32,
    shelves_total: u32,
    /// Top of the shelf that is being filled.
    top: u32,
    /// Width already taken on that shelf.
    taken: u32,
    /// Shelves that the rectangles on the current row span.
    row_shelves: u32,
}

impl Shelves {
    fn new(available_width: u32, shelf_height: u32, shelves_total: u32) -> Shelves {
        Shelves {
            available_width,
            shelf_height,
            shelves_in_use: 0,
            shelves_total,
            top: 0,
            taken: 0,
            row_shelves: 0,
        }
    }

    fn pack(&mut self, size: Size) -> Option<Point> {
        if size.width > self.available_width {
            return None;
        }
        let needed = ((size.height + self.shelf_height - 1) / self.shelf_height).max(1);
        let fits_row = self.row_shelves >= needed
            && self.taken + size.width <= self.available_width;
        if !fits_row {
            if self.shelves_in_use + needed > self.shelves_total {
                return None;
            }
            self.top = self.shelves_in_use * self.shelf_height;
            self.taken = 0;
            self.row_shelves = needed;
            self.shelves_in_use += needed;
        }
        let origin = Point { x: self.taken, y: self.top };
        self.taken += size.width;
        Some(origin)
    }

    fn shelf_columns(&self) -> u32 {
        self.available_width
    }
}

fn size(width: u32, height: u32) -> Size {
    Size { width, height }
}

fn point(x: u32, y: u32) -> Point {
    Point { x, y }
}

fn fixed(point_size: f32) -> u32 {
    (point_size * 65536.0) as u32
}

#[test]
fn new_builder_is_empty_and_keeps_its_capacity() {
    let builder = AtlasBuilder::new(512, 64);
    assert_eq!(builder.glyph_count(), 0);
    assert_eq!(builder.available_width(), 512);
    assert_eq!(builder.shelf_height(), 64);
    assert!(builder.image_descriptors().is_empty());
    assert!(builder.image_metadata().is_empty());
    assert!(builder.upload_records().is_empty());
}

#[test]
fn slots_are_given_out_in_call_order() {
    let mut builder = AtlasBuilder::new(256, 32);
    let glyph_ids = [40u16, 7, 300, 41, 2];
    let mut packed = 0usize;
    for (call, &glyph_id) in glyph_ids.iter().enumerate() {
        // Every other request is turned down by the packer.
        let placement = if call % 2 == 0 { Some(point(10 * call as u32, 3)) } else { None };
        let result = builder.pack_glyph(glyph_id, fixed(12.0), size(9, 9), placement);
        assert_eq!(result.is_ok(), placement.is_some());
        if placement.is_some() {
            packed += 1;
        }
        assert_eq!(builder.glyph_count(), packed);
        assert_eq!(builder.image_descriptors().len(), packed);
        assert_eq!(builder.image_metadata().len(), packed);
    }
    assert_eq!(packed, 3);
    for slot in 0..packed {
        assert_eq!(builder.image_descriptors()[slot].glyph_index, slot as u32);
        assert_eq!(builder.image_metadata()[slot].glyph_index, slot as u32);
    }
    assert_eq!(builder.image_metadata()[0].glyph_id, 40);
    assert_eq!(builder.image_metadata()[1].glyph_id, 300);
    assert_eq!(builder.image_metadata()[2].glyph_id, 2);
    assert_eq!(builder.image_descriptors()[1].atlas_x, 20);
    assert_eq!(builder.image_descriptors()[2].atlas_x, 40);
}

#[test]
fn packed_glyph_keeps_placement_size_and_point_size() {
    let mut builder = AtlasBuilder::new(128, 16);
    let result = builder.pack_glyph(65, fixed(12.5), size(11, 14), Some(point(17, 32)));
    assert_eq!(result, Ok(()));
    assert_eq!(
        builder.image_descriptors()[0],
        ImageDescriptor { atlas_x: 17, atlas_y: 32, point_size: 819200, glyph_index: 0 }
    );
    assert_eq!(
        builder.image_metadata()[0],
        ImageMetadata { atlas_size: size(11, 14), glyph_index: 0, glyph_id: 65 }
    );
    assert_eq!(builder.atlas_rect(0), Rect { origin: point(17, 32), size: size(11, 14) });
}

#[test]
fn atlas_rect_has_the_packers_origin_and_the_rounded_up_size() {
    let mut builder = AtlasBuilder::new(64, 16);
    let mut packer = Shelves::new(64, 16, 4);
    // Pixel bounds as an outline source reports them, before rounding up.
    let bounds = [(7.2f32, 9.0f32), (12.01, 15.5), (0.4, 0.6)];
    let mut expected: Vec<Rect> = Vec::new();
    for (slot, &(width, height)) in bounds.iter().enumerate() {
        let pixel_size = size(width.ceil() as u32, height.ceil() as u32);
        let placement = packer.pack(pixel_size);
        assert!(placement.is_some());
        assert_eq!(builder.pack_glyph(slot as u16, fixed(16.0), pixel_size, placement), Ok(()));
        expected.push(Rect { origin: placement.unwrap(), size: pixel_size });
    }
    assert_eq!(expected[0].size, size(8, 9));
    assert_eq!(expected[1].size, size(13, 16));
    assert_eq!(expected[2].size, size(1, 1));
    for slot in 0..3u32 {
        assert_eq!(builder.atlas_rect(slot), expected[slot as usize]);
    }
}

#[test]
fn earlier_slots_are_never_overwritten() {
    let mut builder = AtlasBuilder::new(64, 16);
    assert_eq!(builder.pack_glyph(1, fixed(10.0), size(4, 5), Some(point(0, 0))), Ok(()));
    let first = builder.atlas_rect(0);
    let first_descriptor = builder.image_descriptors()[0];
    assert_eq!(builder.pack_glyph(2, fixed(20.0), size(6, 7), Some(point(4, 0))), Ok(()));
    assert_eq!(builder.pack_glyph(3, fixed(30.0), size(8, 9), None), Err(PackError::OutOfSpace));
    assert_eq!(builder.atlas_rect(0), first);
    assert_eq!(builder.image_descriptors()[0], first_descriptor);
    assert_eq!(builder.atlas_rect(1), Rect { origin: point(4, 0), size: size(6, 7) });
}

#[test]
fn out_of_space_leaves_the_builder_unchanged() {
    let mut builder = AtlasBuilder::new(16, 8);
    let mut packer = Shelves::new(16, 8, 1);
    let first = packer.pack(size(10, 8));
    assert_eq!(builder.pack_glyph(1, fixed(9.0), size(10, 8), first), Ok(()));
    let descriptors = builder.image_descriptors().clone();
    let metadata = builder.image_metadata().clone();

    // Ten more columns do not fit beside the first ten on the only shelf.
    let second = packer.pack(size(10, 8));
    assert_eq!(second, None);
    let result = builder.pack_glyph(2, fixed(9.0), size(10, 8), second);
    assert_eq!(result, Err(PackError::OutOfSpace));
    assert_eq!(builder.glyph_count(), 1);
    assert_eq!(builder.image_descriptors(), &descriptors);
    assert_eq!(builder.image_metadata(), &metadata);

    // A smaller glyph still fits afterwards and takes the next slot.
    let third = packer.pack(size(6, 8));
    assert_eq!(builder.pack_glyph(3, fixed(9.0), size(6, 8), third), Ok(()));
    assert_eq!(builder.glyph_count(), 2);
    assert_eq!(builder.atlas_rect(1), Rect { origin: point(10, 0), size: size(6, 8) });
}

#[test]
fn create_atlas_merges_the_ranges_of_the_slots() {
    let mut builder = AtlasBuilder::new(64, 16);
    for slot in 0..3u32 {
        let placement = Some(point(8 * slot, 0));
        assert_eq!(builder.pack_glyph(slot as u16, fixed(8.0), size(8, 8), placement), Ok(()));
    }
    let ranges = vec![(0usize, 10usize), (10, 25), (30, 40)];
    let atlas = builder.create_atlas(&ranges, 64, Some(9)).unwrap();
    assert_eq!(atlas.start_indices(), &vec![0, 30]);
    assert_eq!(atlas.counts(), &vec![25, 10]);
    assert_eq!(atlas.images(), 9);
}

#[test]
fn create_atlas_reads_only_the_ranges_of_packed_slots() {
    let mut builder = AtlasBuilder::new(64, 16);
    assert_eq!(builder.pack_glyph(5, fixed(8.0), size(8, 8), Some(point(0, 0))), Ok(()));
    assert_eq!(builder.pack_glyph(6, fixed(8.0), size(8, 8), Some(point(8, 0))), Ok(()));
    // The third range belongs to a glyph that was never packed; it is not
    // even ordered.
    let ranges = vec![(4usize, 6usize), (6, 12), (90, 12)];
    let atlas = builder.create_atlas(&ranges, 64, Some(1)).unwrap();
    assert_eq!(atlas.start_indices(), &vec![4]);
    assert_eq!(atlas.counts(), &vec![8]);
}

#[test]
fn create_atlas_of_an_empty_builder_has_no_batches() {
    let mut builder = AtlasBuilder::new(64, 16);
    let atlas = builder.create_atlas(&Vec::new(), 0, Some(3)).unwrap();
    assert!(atlas.start_indices().is_empty());
    assert!(atlas.counts().is_empty());
    assert_eq!(atlas.images(), 3);
}

#[test]
fn atlas_reports_the_packers_layout() {
    let mut builder = AtlasBuilder::new(300, 48);
    let atlas = builder.create_atlas(&Vec::new(), 777, Some(12)).unwrap();
    assert_eq!(atlas.shelf_height, 48);
    assert_eq!(atlas.shelf_columns, 777);
}

#[test]
fn failed_upload_fails_the_atlas_and_keeps_the_builder() {
    let mut builder = AtlasBuilder::new(64, 16);
    assert_eq!(builder.pack_glyph(5, fixed(8.0), size(8, 8), Some(point(0, 0))), Ok(()));
    let descriptors = builder.image_descriptors().clone();
    let metadata = builder.image_metadata().clone();
    let ranges = vec![(0usize, 6usize)];

    let failed = builder.create_atlas(&ranges, 64, None);
    assert!(matches!(failed, Err(FinalizeError::UploadFailed)));
    assert_eq!(builder.image_descriptors(), &descriptors);
    assert_eq!(builder.image_metadata(), &metadata);

    // The same builder can be finished once the upload goes through.
    let atlas = builder.create_atlas(&ranges, 64, Some(2)).unwrap();
    assert_eq!(atlas.start_indices(), &vec![0]);
    assert_eq!(atlas.counts(), &vec![6]);
    assert_eq!(builder.image_descriptors(), &descriptors);
    assert_eq!(builder.image_metadata(), &metadata);
}

#[test]
fn atlas_rect_is_the_same_every_time() {
    let mut builder = AtlasBuilder::new(64, 16);
    assert_eq!(builder.pack_glyph(5, fixed(8.0), size(3, 4), Some(point(1, 2))), Ok(()));
    assert_eq!(builder.pack_glyph(6, fixed(8.0), size(5, 6), Some(point(7, 8))), Ok(()));
    let first = builder.atlas_rect(1);
    let second = builder.atlas_rect(1);
    assert_eq!(first, second);
    assert_eq!(first, Rect { origin: point(7, 8), size: size(5, 6) });
}

#[test]
fn draws_submit_the_same_batches_every_time() {
    let mut builder = AtlasBuilder::new(64, 16);
    for slot in 0..4u32 {
        let placement = Some(point(8 * slot, 0));
        assert_eq!(builder.pack_glyph(slot as u16, fixed(8.0), size(8, 8), placement), Ok(()));
    }
    let ranges = vec![(0usize, 3usize), (3, 9), (12, 15), (15, 21)];
    let atlas = builder.create_atlas(&ranges, 64, Some(4)).unwrap();
    let first = atlas.draw(0x0004);
    let first_batches = (first.start_indices.clone(), first.counts.clone());
    assert_eq!(first.primitive, 0x0004);
    let second = atlas.draw(0x0004);
    assert_eq!(second.primitive, 0x0004);
    assert_eq!((second.start_indices.clone(), second.counts.clone()), first_batches);
    assert_eq!(first_batches, (vec![0, 12], vec![9, 9]));
    assert_eq!(second.counts.len(), second.start_indices.len());
    let other = atlas.draw(0x0001);
    assert_eq!(other.primitive, 0x0001);
    assert_eq!(other.start_indices, atlas.start_indices());
    assert_eq!(other.counts, atlas.counts());
}

#[test]
fn three_glyphs_on_shelves_end_to_end() {
    let mut builder = AtlasBuilder::new(32, 8);
    let mut packer = Shelves::new(builder.available_width(), builder.shelf_height(), 8);
    let sizes = [size(8, 8), size(8, 8), size(16, 16)];
    for (glyph, &pixel_size) in sizes.iter().enumerate() {
        let placement = packer.pack(pixel_size);
        let result = builder.pack_glyph(glyph as u16 + 1, fixed(8.0), pixel_size, placement);
        assert_eq!(result, Ok(()));
    }
    let first = builder.atlas_rect(0);
    let second = builder.atlas_rect(1);
    let third = builder.atlas_rect(2);
    assert_eq!(first.origin.y, second.origin.y);
    assert_ne!(first.origin.x, second.origin.x);
    assert_ne!(third.origin.y, first.origin.y);
    assert_eq!(first, Rect { origin: point(0, 0), size: size(8, 8) });
    assert_eq!(second, Rect { origin: point(8, 0), size: size(8, 8) });
    assert_eq!(third, Rect { origin: point(0, 8), size: size(16, 16) });

    let records = builder.upload_records();
    assert_eq!(records.len(), 3);
    let ranges = glyph_atlas::batch::index_ranges(&vec![0, 6, 12], 36);
    let atlas = builder.create_atlas(&ranges, packer.shelf_columns(), Some(1));
    assert!(atlas.is_ok());
    let atlas = atlas.unwrap();
    assert_eq!(builder.image_descriptors().len(), 3);
    assert_eq!(atlas.start_indices(), &vec![0]);
    assert_eq!(atlas.counts(), &vec![36]);
    assert_eq!(atlas.shelf_height, 8);
    assert_eq!(atlas.shelf_columns, 32);
}

#[test]
fn glyphs_packed_in_identifier_order_are_all_found() {
    let mut builder = AtlasBuilder::new(256, 16);
    let glyph_ids = [3u16, 8, 8, 21, 40, 65, 1000];
    for (slot, &glyph_id) in glyph_ids.iter().enumerate() {
        let placement = Some(point(slot as u32, 0));
        assert_eq!(builder.pack_glyph(glyph_id, fixed(8.0), size(1, 1), placement), Ok(()));
    }
    assert_eq!(builder.glyph_index_for(3), Some(0));
    assert_eq!(builder.glyph_index_for(21), Some(3));
    assert_eq!(builder.glyph_index_for(40), Some(4));
    assert_eq!(builder.glyph_index_for(65), Some(5));
    assert_eq!(builder.glyph_index_for(1000), Some(6));
    let twice = builder.glyph_index_for(8);
    assert!(twice == Some(1) || twice == Some(2));
    for absent in [0u16, 4, 9, 64, 999, 1001, 65535] {
        assert_eq!(builder.glyph_index_for(absent), None);
    }
}

#[test]
fn lookup_in_an_empty_builder_finds_nothing() {
    let builder = AtlasBuilder::new(256, 16);
    assert_eq!(builder.glyph_index_for(0), None);
    assert_eq!(builder.glyph_index_for(17), None);
}

#[test]
fn lookup_after_create_atlas_is_unchanged() {
    let mut builder = AtlasBuilder::new(256, 16);
    for (slot, glyph_id) in [10u16, 20, 30].into_iter().enumerate() {
        let placement = Some(point(slot as u32, 0));
        assert_eq!(builder.pack_glyph(glyph_id, fixed(8.0), size(1, 1), placement), Ok(()));
    }
    let ranges = vec![(0usize, 1usize), (1, 2), (2, 3)];
    assert!(builder.create_atlas(&ranges, 1, Some(1)).is_ok());
    assert_eq!(builder.glyph_index_for(10), Some(0));
    assert_eq!(builder.glyph_index_for(20), Some(1));
    assert_eq!(builder.glyph_index_for(30), Some(2));
}

/// Known discrepancy: the lookup searches the metadata list as if it were
/// in ascending order of glyph identifier, but the list is kept in slot order.
/// The two orders agree only if the glyphs were packed in identifier order.
/// Otherwise a packed glyph can go unfound, as the first one does here. A slot
/// that is found is still the right one.
#[test]
fn lookup_can_miss_glyphs_packed_out_of_identifier_order() {
    let mut builder = AtlasBuilder::new(256, 16);
    for (slot, glyph_id) in [9u16, 1, 5].into_iter().enumerate() {
        let placement = Some(point(slot as u32, 0));
        assert_eq!(builder.pack_glyph(glyph_id, fixed(8.0), size(1, 1), placement), Ok(()));
    }
    assert_eq!(builder.image_metadata()[0].glyph_id, 9);
    assert_eq!(builder.glyph_index_for(9), None);
    assert_eq!(builder.glyph_index_for(1), Some(1));
    assert_eq!(builder.glyph_index_for(5), Some(2));
}

#[test]
fn upload_records_hold_four_words_per_slot() {
    let mut builder = AtlasBuilder::new(64, 16);
    assert_eq!(builder.pack_glyph(5, fixed(1.0), size(3, 4), Some(point(1, 2))), Ok(()));
    assert_eq!(builder.pack_glyph(6, fixed(0.5), size(5, 6), Some(point(7, 8))), Ok(()));
    assert_eq!(builder.pack_glyph(7, fixed(2.0), size(5, 6), None), Err(PackError::OutOfSpace));
    let records = builder.upload_records();
    assert_eq!(records, vec![[1, 2, 65536, 0], [7, 8, 32768, 1]]);
}

#[test]
fn unassigned_descriptor_is_all_zero() {
    let descriptor = ImageDescriptor::default();
    assert_eq!(
        descriptor,
        ImageDescriptor { atlas_x: 0, atlas_y: 0, point_size: 0, glyph_index: 0 }
    );
    assert_eq!(descriptor.to_words(), [0, 0, 0, 0]);
}

#[test]
fn descriptor_words_are_in_field_order() {
    let descriptor =
        ImageDescriptor { atlas_x: 11, atlas_y: 22, point_size: 33, glyph_index: 44 };
    assert_eq!(descriptor.to_words(), [11, 22, 33, 44]);
}

#[test]
fn geometry_constructors_keep_their_arguments() {
    let rect = Rect::new(Point::new(3, 4), Size::new(5, 6));
    assert_eq!(rect.origin, point(3, 4));
    assert_eq!(rect.size, size(5, 6));
    assert_eq!(rect, Rect { origin: point(3, 4), size: size(5, 6) });
}
