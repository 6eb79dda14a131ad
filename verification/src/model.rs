//! The mathematical model of an atlas under construction: the two parallel
//! lists of records, how a packing request changes them, and what holds of
//! them after any sequence of requests.

use crate::geometry::{Point, Rect, Size};
use crate::image::{ImageDescriptor, ImageMetadata};
use vstd::prelude::*;

verus! {

/// One request to pack a glyph, together with the packer's answer to it.
pub struct PackRequest {
    /// The glyph's identifier in its font.
    pub glyph_id: u16,
    /// Requested point size in 16.16 fixed point.
    pub point_size: u32,
    /// The glyph's pixel bounds, rounded up to whole pixels.
    pub pixel_size: Size,
    /// Where the packer put the rectangle, or `None` if it had no room.
    pub placement: Option<Point>,
}

/// The records of the glyphs packed so far, by slot.
pub struct Slots {
    pub descriptors: Seq<ImageDescriptor>,
    pub metadata: Seq<ImageMetadata>,
}

impl Slots {
    /// No glyph packed yet.
    pub open spec fn empty() -> Slots {
        Slots { descriptors: Seq::empty(), metadata: Seq::empty() }
    }

    /// The number of packed glyphs, which is also the next free slot.
    pub open spec fn len(self) -> nat {
        self.descriptors.len()
    }

    /// Both lists have one record per slot, every record names its own slot,
    /// and every slot fits in 32 bits.
    pub open spec fn wf(self) -> bool {
        &&& self.metadata.len() == self.descriptors.len()
        &&& self.descriptors.len() <= u32::MAX
        &&& forall|i: int|
            0 <= i < self.descriptors.len() ==> (#[trigger] self.descriptors[i]).glyph_index == i
        &&& forall|i: int|
            0 <= i < self.metadata.len() ==> (#[trigger] self.metadata[i]).glyph_index == i
    }

    /// The descriptor written for a glyph that was placed at `origin` and
    /// given `slot`.
    pub open spec fn descriptor_for(origin: Point, point_size: u32, slot: int) -> ImageDescriptor {
        ImageDescriptor {
            atlas_x: origin.x,
            atlas_y: origin.y,
            point_size,
            glyph_index: slot as u32,
        }
    }

    /// The metadata kept for a glyph of the given size that was given `slot`.
    pub open spec fn metadata_for(pixel_size: Size, glyph_id: u16, slot: int) -> ImageMetadata {
        ImageMetadata { atlas_size: pixel_size, glyph_index: slot as u32, glyph_id }
    }

    /// The records after a glyph placed at `origin` took the next free slot.
    pub open spec fn record(
        self,
        glyph_id: u16,
        point_size: u32,
        pixel_size: Size,
        origin: Point,
    ) -> Slots {
        Slots {
            descriptors: self.descriptors.push(
                Self::descriptor_for(origin, point_size, self.descriptors.len() as int),
            ),
            metadata: self.metadata.push(
                Self::metadata_for(pixel_size, glyph_id, self.descriptors.len() as int),
            ),
        }
    }

    /// The records after one request: unchanged if the packer had no room,
    /// else with the glyph in the next free slot.
    pub open spec fn pack(self, request: PackRequest) -> Slots {
        match request.placement {
            Some(origin) => self.record(
                request.glyph_id,
                request.point_size,
                request.pixel_size,
                origin,
            ),
            None => self,
        }
    }

    /// The records after a sequence of requests, taken in order.
    pub open spec fn pack_all(self, requests: Seq<PackRequest>) -> Slots
        decreases requests.len(),
    {
        if requests.len() == 0 {
            self
        } else {
            self.pack_all(requests.drop_last()).pack(requests.last())
        }
    }

    /// The rectangle that the glyph in `slot` occupies: its origin from the
    /// descriptor, its size from the metadata.
    pub open spec fn rect(self, slot: int) -> Rect {
        Rect {
            origin: Point { x: self.descriptors[slot].atlas_x, y: self.descriptors[slot].atlas_y },
            size: self.metadata[slot].atlas_size,
        }
    }

    /// The metadata list is in ascending order of glyph identifier.
    pub open spec fn sorted_by_glyph_id(self) -> bool {
        forall|i: int, j: int|
            0 <= i < j < self.metadata.len() ==> self.metadata[i].glyph_id
                <= self.metadata[j].glyph_id
    }

    /// The metadata list is in ascending order of slot.
    pub open spec fn sorted_by_slot(self) -> bool {
        in_slot_order(self.metadata)
    }

    /// Some packed glyph has this identifier.
    pub open spec fn holds_glyph(self, glyph_id: u16) -> bool {
        exists|i: int| 0 <= i < self.metadata.len() && self.metadata[i].glyph_id == glyph_id
    }

    /// What is uploaded to the device: the four words of each descriptor, by
    /// slot.
    pub open spec fn upload(self) -> Seq<Seq<u32>> {
        Seq::new(self.descriptors.len(), |i: int| self.descriptors[i].words())
    }
}

/// The entries are in ascending order of slot.
pub open spec fn in_slot_order(entries: Seq<ImageMetadata>) -> bool {
    forall|i: int, j: int|
        0 <= i < j < entries.len() ==> entries[i].glyph_index <= entries[j].glyph_index
}

/// The requests that the packer had room for, in order.
pub open spec fn placed(requests: Seq<PackRequest>) -> Seq<PackRequest>
    decreases requests.len(),
{
    if requests.len() == 0 {
        Seq::empty()
    } else if requests.last().placement is Some {
        placed(requests.drop_last()).push(requests.last())
    } else {
        placed(requests.drop_last())
    }
}

/// Recording a glyph fills exactly the next free slot: the lists grow by one,
/// the new slot holds the rectangle that the packer returned with the size
/// that was asked for, and no earlier slot changes.
pub proof fn lemma_record(
    slots: Slots,
    glyph_id: u16,
    point_size: u32,
    pixel_size: Size,
    origin: Point,
)
    requires
        slots.wf(),
        slots.len() < u32::MAX,
    ensures
        ({
            let after = slots.record(glyph_id, point_size, pixel_size, origin);
            &&& after.wf()
            &&& after.len() == slots.len() + 1
            &&& after.rect(slots.len() as int) == (Rect { origin, size: pixel_size })
            &&& after.descriptors[slots.len() as int].glyph_index == slots.len()
            &&& after.descriptors[slots.len() as int].point_size == point_size
            &&& after.metadata[slots.len() as int].glyph_id == glyph_id
            &&& forall|i: int|
                0 <= i < slots.len() ==> after.descriptors[i] == slots.descriptors[i]
                    && after.metadata[i] == slots.metadata[i] && after.rect(i) == slots.rect(i)
        }),
{
}

/// A request that the packer had no room for changes nothing.
pub proof fn lemma_rejected_request(slots: Slots, request: PackRequest)
    requires
        request.placement is None,
    ensures
        slots.pack(request) == slots,
{
}

/// After any sequence of requests on an empty atlas there is one slot for
/// each request that the packer had room for. Slots are given out in request
/// order, starting at zero, and each holds what its request asked for.
pub proof fn lemma_pack_all(requests: Seq<PackRequest>)
    requires
        placed(requests).len() <= u32::MAX,
    ensures
        ({
            let slots = Slots::empty().pack_all(requests);
            let kept = placed(requests);
            &&& slots.wf()
            &&& slots.len() == kept.len()
            &&& forall|k: int|
                0 <= k < kept.len() ==> {
                    &&& (#[trigger] kept[k]).placement is Some
                    &&& slots.descriptors[k] == Slots::descriptor_for(
                        kept[k].placement->Some_0,
                        kept[k].point_size,
                        k,
                    )
                    &&& slots.metadata[k] == Slots::metadata_for(
                        kept[k].pixel_size,
                        kept[k].glyph_id,
                        k,
                    )
                    &&& slots.rect(k) == (Rect {
                        origin: kept[k].placement->Some_0,
                        size: kept[k].pixel_size,
                    })
                }
        }),
    decreases requests.len(),
{
    if requests.len() > 0 {
        let front = requests.drop_last();
        let last = requests.last();
        lemma_pack_all(front);
        let before = Slots::empty().pack_all(front);
        let slots = Slots::empty().pack_all(requests);
        let kept = placed(requests);
        assert(slots == before.pack(last));
        if last.placement is Some {
            lemma_record(
                before,
                last.glyph_id,
                last.point_size,
                last.pixel_size,
                last.placement->Some_0,
            );
            assert forall|k: int| 0 <= k < kept.len() implies {
                &&& (#[trigger] kept[k]).placement is Some
                &&& slots.descriptors[k] == Slots::descriptor_for(
                    kept[k].placement->Some_0,
                    kept[k].point_size,
                    k,
                )
                &&& slots.metadata[k] == Slots::metadata_for(
                    kept[k].pixel_size,
                    kept[k].glyph_id,
                    k,
                )
                &&& slots.rect(k) == (Rect {
                    origin: kept[k].placement->Some_0,
                    size: kept[k].pixel_size,
                })
            } by {
                if k < kept.len() - 1 {
                    assert(kept[k] == placed(front)[k]);
                }
            }
        }
    }
}

/// Packing glyphs in ascending order of identifier keeps the metadata list
/// in that order, and only that does: a glyph with a smaller identifier than
/// the one packed before it breaks the order.
pub proof fn lemma_record_glyph_order(
    slots: Slots,
    glyph_id: u16,
    point_size: u32,
    pixel_size: Size,
    origin: Point,
)
    requires
        slots.wf(),
    ensures
        slots.record(glyph_id, point_size, pixel_size, origin).sorted_by_glyph_id() <==> (
        slots.sorted_by_glyph_id() && (slots.len() > 0 ==> slots.metadata.last().glyph_id
            <= glyph_id)),
{
    let after = slots.record(glyph_id, point_size, pixel_size, origin);
    let n = slots.metadata.len() as int;
    if after.sorted_by_glyph_id() {
        assert forall|i: int, j: int| 0 <= i < j < n implies slots.metadata[i].glyph_id
            <= slots.metadata[j].glyph_id by {
            assert(after.metadata[i] == slots.metadata[i]);
            assert(after.metadata[j] == slots.metadata[j]);
        }
        if n > 0 {
            assert(after.metadata[n - 1] == slots.metadata[n - 1]);
            assert(after.metadata[n - 1].glyph_id <= after.metadata[n].glyph_id);
        }
    }
    if slots.sorted_by_glyph_id() && (n > 0 ==> slots.metadata.last().glyph_id <= glyph_id) {
        assert forall|i: int, j: int| 0 <= i < j < after.metadata.len() implies after.metadata[i].glyph_id
            <= after.metadata[j].glyph_id by {
            if j < n {
                assert(slots.metadata[i].glyph_id <= slots.metadata[j].glyph_id);
            } else if i < n - 1 {
                assert(slots.metadata[i].glyph_id <= slots.metadata[n - 1].glyph_id);
            }
        }
    }
}

/// Well-formed records are in ascending order of slot.
pub proof fn lemma_wf_sorted_by_slot(slots: Slots)
    requires
        slots.wf(),
    ensures
        slots.sorted_by_slot(),
{
}

} // verus!
