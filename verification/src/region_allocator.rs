//! The region allocator of one backing texture: a shelf packer that hands out
//! rectangles which never overlap, and takes them back.

use crate::geometry::{Bounds, Point, Size};
use crate::shelf_layout::{
    has_room, holds_region, is_first_free_slot, is_first_holding_shelf, is_live_at,
    layout_after_allocate, layout_after_free, layout_wf, layout_without, lemma_allocate,
    lemma_first_free_slot, lemma_first_holding_shelf, lemma_free_makes_room, lemma_free_slot,
    lemma_holds_region_unique, lemma_live_region_within, lemma_live_regions_apart,
    lemma_no_region_no_shelf, live_regions, placement, region_at, shelf_can_hold, shelf_end,
    shelf_has_free_slot, shelf_height_class, shelf_wf, slot_fits, trim_layout, trim_slots,
    ShelfModel, Slot,
};
use vstd::prelude::*;

verus! {

struct Shelf {
    y: u32,
    height: u32,
    slots: Vec<Slot>,
}

impl Shelf {
    spec fn model(&self) -> ShelfModel {
        ShelfModel { y: self.y, height: self.height, slots: self.slots@ }
    }

    /// The first column that no slot of the shelf covers.
    fn end(&self) -> (r: u32)
        requires
            self.slots@.len() > 0 ==> self.slots@.last().x + self.slots@.last().width <= u32::MAX,
        ensures
            r == shelf_end(self.model()),
    {
        let n = self.slots.len();
        if n == 0 {
            0
        } else {
            self.slots[n - 1].x + self.slots[n - 1].width
        }
    }

    /// The first free slot that is wide enough for a region of the given size.
    fn find_free_slot(&self, size: Size) -> (r: Option<usize>)
        ensures
            match r {
                Some(j) => is_first_free_slot(self.model(), size, j as int),
                None => !shelf_has_free_slot(self.model(), size),
            },
    {
        let n = self.slots.len();
        let mut j: usize = 0;
        while j < n
            invariant
                j <= n,
                n == self.slots@.len(),
                forall|k: int| 0 <= k < j ==> !slot_fits(#[trigger] self.slots@[k], size),
            decreases n - j,
        {
            if self.slots[j].live.is_none() && size.width <= self.slots[j].width {
                return Some(j);
            }
            j += 1;
        }
        None
    }

    /// The slot in which `region` lives, if this shelf holds it.
    fn find_region(&self, region: Bounds) -> (r: Option<usize>)
        ensures
            match r {
                Some(j) => {
                    &&& 0 <= j < self.slots@.len()
                    &&& self.slots@[j as int].x == region.origin.x
                    &&& self.slots@[j as int].live == Some(region.size)
                },
                None => forall|j: int|
                    0 <= j < self.slots@.len() ==> !((#[trigger] self.slots@[j]).x
                        == region.origin.x && self.slots@[j].live == Some(region.size)),
            },
    {
        let n = self.slots.len();
        let mut j: usize = 0;
        while j < n
            invariant
                j <= n,
                n == self.slots@.len(),
                forall|k: int|
                    0 <= k < j ==> !((#[trigger] self.slots@[k]).x == region.origin.x
                        && self.slots@[k].live == Some(region.size)),
            decreases n - j,
        {
            let slot = self.slots[j];
            if slot.x == region.origin.x {
                match slot.live {
                    Some(size) => {
                        if size.width == region.size.width && size.height == region.size.height {
                            return Some(j);
                        }
                    },
                    None => {},
                }
            }
            j += 1;
        }
        None
    }
}

/// The height of the size class of a region `height` rows tall.
fn height_class(height: u32) -> (r: u64)
    ensures
        r == shelf_height_class(height as int),
{
    let step: u64 = if height < 32 {
        8
    } else if height < 128 {
        16
    } else if height < 512 {
        32
    } else {
        64
    };
    ((height as u64 + step - 1) / step) * step
}

/// A region allocator for a surface of fixed size.
///
/// Its view is the set of live regions: those handed out by
/// [`RegionAllocator::allocate`] and not yet given back to
/// [`RegionAllocator::free`].
pub struct RegionAllocator {
    extent: Size,
    shelves: Vec<Shelf>,
}

impl RegionAllocator {
    /// The size of the surface.
    pub closed spec fn extent(&self) -> Size {
        self.extent
    }

    /// The shelves and slots into which the surface is cut.
    pub closed spec fn layout(&self) -> Seq<ShelfModel> {
        Seq::new(self.shelves@.len(), |i: int| self.shelves@[i].model())
    }

    /// The invariant of the allocator: its layout is well formed.
    pub open spec fn wf(&self) -> bool {
        layout_wf(self.layout(), self.extent())
    }

    /// The live regions.
    pub open spec fn view(&self) -> Set<Bounds> {
        live_regions(self.layout())
    }

    /// True when a region of the given size can be placed.
    pub open spec fn has_room(&self, size: Size) -> bool {
        has_room(self.layout(), self.extent(), size)
    }

    /// An allocator for an empty surface of the given size.
    pub fn new(extent: Size) -> (r: Self)
        ensures
            r.wf(),
            r.extent() == extent,
            r.layout() == Seq::<ShelfModel>::empty(),
            r@ == Set::<Bounds>::empty(),
    {
        let r = RegionAllocator { extent, shelves: Vec::new() };
        assert(r.layout() =~= Seq::<ShelfModel>::empty());
        assert(r@ =~= Set::<Bounds>::empty());
        r
    }

    /// The size of the surface.
    pub fn size(&self) -> (r: Size)
        ensures
            r == self.extent(),
    {
        self.extent
    }

    /// True when no region is live.
    pub fn is_empty(&self) -> (r: bool)
        requires
            self.wf(),
        ensures
            r == (self@ == Set::<Bounds>::empty()),
    {
        let r = self.shelves.len() == 0;
        proof {
            if r {
                assert(self.layout() =~= Seq::<ShelfModel>::empty());
                assert(self@ =~= Set::<Bounds>::empty());
            } else {
                let i = self.layout().len() - 1;
                let j = self.layout()[i].slots.len() - 1;
                assert(shelf_wf(self.layout()[i], self.extent()));
                assert(holds_region(self.layout(), i, j, region_at(self.layout(), i, j)));
                assert(self@.contains(region_at(self.layout(), i, j)));
            }
        }
        r
    }

    /// Places a region of the given size, or returns `None` when there is no
    /// room for it.
    ///
    /// The region goes into the first shelf that suits its height and can
    /// hold it: into the first free slot that is wide enough, else into a new
    /// slot at the shelf's end. When no shelf can hold it, a new shelf is
    /// opened below the others. The region handed out has exactly the size
    /// asked for, lies on the surface and shares no pixel with a live region.
    pub fn allocate(&mut self, size: Size) -> (r: Option<Bounds>)
        requires
            old(self).wf(),
        ensures
            final(self).wf(),
            final(self).extent() == old(self).extent(),
            r is Some <==> old(self).has_room(size),
            r matches Some(b) ==> {
                &&& b == placement(old(self).layout(), old(self).extent(), size)
                &&& final(self).layout() == layout_after_allocate(
                    old(self).layout(),
                    old(self).extent(),
                    size,
                )
                &&& b.size == size
                &&& b.within(old(self).extent())
                &&& !old(self)@.contains(b)
                &&& final(self)@ == old(self)@.insert(b)
                &&& forall|live: Bounds| old(self)@.contains(live) ==> !b.overlaps(live)
            },
            r is None ==> final(self).layout() == old(self).layout(),
            (forall|live: Bounds| !old(self)@.contains(live)) && !size.is_empty() && size.fits_in(
                old(self).extent(),
            ) ==> r == Some(Bounds { origin: Point { x: 0, y: 0 }, size }),
    {
        let extent = self.extent;
        let ghost layout = self.layout();
        proof {
            if forall|live: Bounds| !self@.contains(live) {
                assert(self@ =~= Set::<Bounds>::empty());
                lemma_no_region_no_shelf(layout, extent);
            }
        }
        if size.is_empty() || !size.fits_in(extent) {
            return None;
        }
        let class = height_class(size.height);
        let n = self.shelves.len();
        let mut i: usize = 0;
        while i < n
            invariant
                i <= n,
                n == self.shelves@.len(),
                self.extent == extent,
                extent == old(self).extent,
                self.layout() == layout,
                layout == old(self).layout(),
                layout_wf(layout, extent),
                class == shelf_height_class(size.height as int),
                !size.is_empty(),
                (forall|live: Bounds| !old(self)@.contains(live)) ==> n == 0,
                forall|k: int| 0 <= k < i ==> !shelf_can_hold(#[trigger] layout[k], extent, size),
            decreases n - i,
        {
            assert(layout[i as int] == self.shelves@[i as int].model());
            assert(shelf_wf(layout[i as int], extent));
            if size.height <= self.shelves[i].height && self.shelves[i].height as u64 <= class {
                match self.shelves[i].find_free_slot(size) {
                    Some(j) => {
                        let slot = self.shelves[i].slots[j];
                        let y = self.shelves[i].y;
                        self.shelves[i].slots.set(
                            j,
                            Slot { x: slot.x, width: slot.width, live: Some(size) },
                        );
                        proof {
                            assert(is_first_holding_shelf(layout, extent, size, i as int));
                            lemma_first_holding_shelf(layout, extent, size, i as int);
                            lemma_first_free_slot(layout[i as int], size, j as int);
                            lemma_allocate(layout, extent, size);
                            assert(self.layout() =~= layout_after_allocate(layout, extent, size));
                        }
                        return Some(Bounds { origin: Point { x: slot.x, y }, size });
                    },
                    None => {
                        assert(self.shelves@[i as int].slots@.len() > 0 ==> layout[i as int].slots.last().x
                            + layout[i as int].slots.last().width <= extent.width);
                        let end = self.shelves[i].end();
                        if size.width <= extent.width - end {
                            let y = self.shelves[i].y;
                            self.shelves[i].slots.push(
                                Slot { x: end, width: size.width, live: Some(size) },
                            );
                            proof {
                                assert(is_first_holding_shelf(layout, extent, size, i as int));
                                lemma_first_holding_shelf(layout, extent, size, i as int);
                                lemma_allocate(layout, extent, size);
                                assert(self.layout() =~= layout_after_allocate(
                                    layout,
                                    extent,
                                    size,
                                ));
                            }
                            return Some(Bounds { origin: Point { x: end, y }, size });
                        }
                    },
                }
            }
            i += 1;
        }
        assert(n > 0 ==> layout.last() == self.shelves@[n - 1].model());
        assert(n > 0 ==> layout.last().y + layout.last().height <= extent.height);
        let top = if n == 0 {
            0
        } else {
            self.shelves[n - 1].y + self.shelves[n - 1].height
        };
        let left = extent.height - top;
        if size.height <= left {
            let height = if class <= left as u64 {
                class as u32
            } else {
                left
            };
            let mut slots = Vec::new();
            slots.push(Slot { x: 0, width: size.width, live: Some(size) });
            self.shelves.push(Shelf { y: top, height, slots });
            proof {
                lemma_allocate(layout, extent, size);
                assert(self.layout() =~= layout_after_allocate(layout, extent, size));
            }
            return Some(Bounds { origin: Point { x: 0, y: top }, size });
        }
        None
    }

    /// Gives a live region back. Returns `false`, and changes nothing, when
    /// `region` is not live.
    ///
    /// The region's slot becomes free for regions that fit into it. Free
    /// slots at the end of the shelf and empty shelves at the end of the
    /// layout return to the unused area.
    pub fn free(&mut self, region: Bounds) -> (r: bool)
        requires
            old(self).wf(),
        ensures
            final(self).wf(),
            final(self).extent() == old(self).extent(),
            r == old(self)@.contains(region),
            r ==> final(self).layout() == layout_after_free(old(self).layout(), region),
            r ==> final(self)@ == old(self)@.remove(region),
            r ==> final(self).has_room(region.size),
            !r ==> final(self).layout() == old(self).layout(),
    {
        let extent = self.extent;
        let ghost layout = self.layout();
        let n = self.shelves.len();
        let mut i: usize = 0;
        while i < n
            invariant
                i <= n,
                n == self.shelves@.len(),
                self.extent == extent,
                extent == old(self).extent,
                self.layout() == layout,
                layout == old(self).layout(),
                layout_wf(layout, extent),
                forall|k: int, j: int| 0 <= k < i ==> !#[trigger] holds_region(layout, k, j, region),
            decreases n - i,
        {
            assert(layout[i as int] == self.shelves@[i as int].model());
            if self.shelves[i].y == region.origin.y {
                match self.shelves[i].find_region(region) {
                    Some(j) => {
                        proof {
                            assert(holds_region(layout, i as int, j as int, region));
                            let (ci, cj) = choose|ci: int, cj: int| #[trigger]
                                holds_region(layout, ci, cj, region);
                            lemma_holds_region_unique(
                                layout,
                                extent,
                                ci,
                                cj,
                                i as int,
                                j as int,
                                region,
                            );
                            lemma_free_slot(layout, extent, i as int, j as int);
                            lemma_free_makes_room(layout, extent, region);
                        }
                        self.release_slot(i, j);
                        return true;
                    },
                    None => {},
                }
            }
            i += 1;
        }
        proof {
            assert(!live_regions(layout).contains(region));
        }
        false
    }

    /// Frees slot `j` of shelf `i` and trims the layout.
    fn release_slot(&mut self, i: usize, j: usize)
        requires
            is_live_at(old(self).layout(), i as int, j as int),
        ensures
            final(self).extent() == old(self).extent(),
            final(self).layout() == layout_without(old(self).layout(), i as int, j as int),
    {
        let ghost layout = self.layout();
        assert(layout[i as int] == self.shelves@[i as int].model());
        let slot = self.shelves[i].slots[j];
        self.shelves[i].slots.set(j, Slot { x: slot.x, width: slot.width, live: None });
        let ghost cleared = self.shelves@[i as int].slots@;
        assert(cleared =~= layout[i as int].slots.update(
            j as int,
            Slot { live: None, ..layout[i as int].slots[j as int] },
        ));
        let ghost others = self.shelves@;
        assert forall|k: int| 0 <= k < others.len() && k != i implies (#[trigger] others[k]).model()
            == layout[k] by {}
        assert(others.len() == layout.len());
        assert(others[i as int].y == layout[i as int].y);
        assert(others[i as int].height == layout[i as int].height);
        loop
            invariant
                i < self.shelves@.len(),
                self.shelves@.len() == others.len(),
                forall|k: int| 0 <= k < others.len() && k != i ==> self.shelves@[k] == others[k],
                self.shelves@[i as int].y == others[i as int].y,
                self.shelves@[i as int].height == others[i as int].height,
                trim_slots(self.shelves@[i as int].slots@) == trim_slots(cleared),
                self.extent == old(self).extent,
            ensures
                self.shelves@[i as int].slots@ == trim_slots(cleared),
            decreases self.shelves@[i as int].slots@.len(),
        {
            let m = self.shelves[i].slots.len();
            if m == 0 || self.shelves[i].slots[m - 1].live.is_some() {
                break;
            }
            self.shelves[i].slots.pop();
        }
        let ghost untrimmed = self.layout();
        assert(untrimmed.len() == layout.len());
        assert forall|k: int| 0 <= k < untrimmed.len() && k != i implies untrimmed[k] == layout[k] by {
            assert(self.shelves@[k] == others[k]);
        }
        assert(untrimmed[i as int].slots == trim_slots(cleared));
        assert(untrimmed =~= layout.update(
            i as int,
            ShelfModel { slots: trim_slots(cleared), ..layout[i as int] },
        ));
        loop
            invariant
                trim_layout(self.layout()) == trim_layout(untrimmed),
                self.extent == old(self).extent,
            ensures
                self.layout() == trim_layout(untrimmed),
            decreases self.shelves@.len(),
        {
            let n = self.shelves.len();
            if n == 0 {
                break;
            }
            assert(self.layout().last() == self.shelves@[n - 1].model());
            if self.shelves[n - 1].slots.len() > 0 {
                break;
            }
            let ghost before = self.layout();
            self.shelves.pop();
            assert(self.layout() =~= before.drop_last());
        }
    }

    /// The live regions lie on the surface, none is empty, and no two share a pixel.
    pub proof fn law_live_regions(&self)
        requires
            self.wf(),
        ensures
            forall|a: Bounds| self@.contains(a) ==> a.within(self.extent()) && !a.size.is_empty(),
            forall|a: Bounds, b: Bounds|
                self@.contains(a) && self@.contains(b) && a != b ==> !a.overlaps(b),
    {
        assert forall|a: Bounds| self@.contains(a) implies a.within(self.extent())
            && !a.size.is_empty() by {
            lemma_live_region_within(self.layout(), self.extent(), a);
        }
        assert forall|a: Bounds, b: Bounds|
            self@.contains(a) && self@.contains(b) && a != b implies !a.overlaps(b) by {
            lemma_live_regions_apart(self.layout(), self.extent(), a, b);
        }
    }
}

} // verus!
