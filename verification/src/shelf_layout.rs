//! The mathematics of shelf packing on one fixed-size surface.
//!
//! The surface is cut into horizontal shelves stacked from the top; each shelf
//! is cut into slots laid out from the left. A region lives in one slot. Shelf
//! heights are rounded up to a size class, so that regions of similar height
//! share shelves. Freeing a region frees its slot for reuse; free slots at the
//! end of a shelf and empty shelves at the end of the surface are given back to
//! the unused area.
//!
//! This module defines layouts, what it means to place and to free a region,
//! and proves that both keep the live regions apart and on the surface.

use crate::geometry::{Bounds, Point, Size};
use vstd::prelude::*;

verus! {

/// One cell of a shelf: `width` columns starting at column `x`. When `live`
/// is `Some(size)`, a region of that size sits at the slot's top-left corner.
#[derive(Clone, Copy, Debug)]
pub struct Slot {
    pub x: u32,
    pub width: u32,
    pub live: Option<Size>,
}

/// The mathematical picture of a shelf: `height` rows starting at row `y`,
/// holding `slots` from left to right.
pub struct ShelfModel {
    pub y: u32,
    pub height: u32,
    pub slots: Seq<Slot>,
}

/// The height of the size class of a region `height` rows tall: `height`
/// rounded up to a multiple of 8, 16, 32 or 64, the step growing with the height.
pub open spec fn shelf_height_class(height: int) -> int {
    let step: int = if height < 32 {
        8
    } else if height < 128 {
        16
    } else if height < 512 {
        32
    } else {
        64
    };
    ((height + step - 1) / step) * step
}

/// The first column of a shelf that no slot covers.
pub open spec fn shelf_end(shelf: ShelfModel) -> int {
    if shelf.slots.len() == 0 {
        0
    } else {
        shelf.slots.last().x + shelf.slots.last().width
    }
}

/// The first row of a surface that no shelf covers.
pub open spec fn layout_end(layout: Seq<ShelfModel>) -> int {
    if layout.len() == 0 {
        0
    } else {
        layout.last().y + layout.last().height
    }
}

/// A slot is well formed for a shelf of the given height: it is not empty,
/// and a live region is not empty, stays inside the slot, and is of a size
/// class no lower than the shelf.
pub open spec fn slot_wf(slot: Slot, shelf_height: u32) -> bool {
    &&& slot.width > 0
    &&& slot.live matches Some(size) ==> {
        &&& 0 < size.width <= slot.width
        &&& 0 < size.height <= shelf_height <= shelf_height_class(size.height as int)
    }
}

/// A shelf is well formed on a surface of size `extent`: its slots are well
/// formed, lie side by side in order without leaving the surface, and the
/// last of them holds a live region.
pub open spec fn shelf_wf(shelf: ShelfModel, extent: Size) -> bool {
    &&& shelf.height > 0
    &&& forall|j: int| 0 <= j < shelf.slots.len() ==> slot_wf(#[trigger] shelf.slots[j], shelf.height)
    &&& forall|j: int|
        0 <= j < shelf.slots.len() ==> (#[trigger] shelf.slots[j]).x + shelf.slots[j].width
            <= extent.width
    &&& forall|j: int, k: int|
        0 <= j < k < shelf.slots.len() ==> (#[trigger] shelf.slots[j]).x + shelf.slots[j].width <= (
        #[trigger] shelf.slots[k]).x
    &&& shelf.slots.len() > 0 ==> shelf.slots.last().live is Some
}

/// A layout is well formed on a surface of size `extent`: its shelves are well
/// formed, lie one below the other in order without leaving the surface, and
/// the last of them is not empty.
pub open spec fn layout_wf(layout: Seq<ShelfModel>, extent: Size) -> bool {
    &&& forall|i: int| 0 <= i < layout.len() ==> shelf_wf(#[trigger] layout[i], extent)
    &&& forall|i: int|
        0 <= i < layout.len() ==> (#[trigger] layout[i]).y + layout[i].height <= extent.height
    &&& forall|i: int, k: int|
        0 <= i < k < layout.len() ==> (#[trigger] layout[i]).y + layout[i].height <= (
        #[trigger] layout[k]).y
    &&& layout.len() > 0 ==> layout.last().slots.len() > 0
}

/// True when slot `j` of shelf `i` exists and holds a live region.
pub open spec fn is_live_at(layout: Seq<ShelfModel>, i: int, j: int) -> bool {
    &&& 0 <= i < layout.len()
    &&& 0 <= j < layout[i].slots.len()
    &&& layout[i].slots[j].live is Some
}

/// The region that lives in slot `j` of shelf `i`.
pub open spec fn region_at(layout: Seq<ShelfModel>, i: int, j: int) -> Bounds {
    Bounds {
        origin: Point { x: layout[i].slots[j].x, y: layout[i].y },
        size: layout[i].slots[j].live->0,
    }
}

/// The whole rectangle of slot `j` of shelf `i`.
pub open spec fn cell_at(layout: Seq<ShelfModel>, i: int, j: int) -> Bounds {
    Bounds {
        origin: Point { x: layout[i].slots[j].x, y: layout[i].y },
        size: Size { width: layout[i].slots[j].width, height: layout[i].height },
    }
}

/// True when `region` is the live region of slot `j` of shelf `i`.
pub open spec fn holds_region(layout: Seq<ShelfModel>, i: int, j: int, region: Bounds) -> bool {
    is_live_at(layout, i, j) && region_at(layout, i, j) == region
}

/// The regions that are live in a layout.
pub open spec fn live_regions(layout: Seq<ShelfModel>) -> Set<Bounds> {
    Set::new(|region: Bounds| exists|i: int, j: int| #[trigger] holds_region(layout, i, j, region))
}

/// A shelf suits a region when the region is no taller than the shelf and the
/// shelf is no taller than the region's size class.
pub open spec fn shelf_suits(shelf: ShelfModel, size: Size) -> bool {
    size.height <= shelf.height <= shelf_height_class(size.height as int)
}

/// A slot can take a region when it is free and wide enough.
pub open spec fn slot_fits(slot: Slot, size: Size) -> bool {
    slot.live is None && size.width <= slot.width
}

/// True when some slot of the shelf can take the region.
pub open spec fn shelf_has_free_slot(shelf: ShelfModel, size: Size) -> bool {
    exists|j: int| 0 <= j < shelf.slots.len() && slot_fits(#[trigger] shelf.slots[j], size)
}

/// A shelf can hold a region when it suits the region and has a free slot for
/// it or room for a new slot at its end.
pub open spec fn shelf_can_hold(shelf: ShelfModel, extent: Size, size: Size) -> bool {
    &&& shelf_suits(shelf, size)
    &&& shelf_has_free_slot(shelf, size) || shelf_end(shelf) + size.width <= extent.width
}

/// True when some shelf of the layout can hold the region.
pub open spec fn some_shelf_can_hold(layout: Seq<ShelfModel>, extent: Size, size: Size) -> bool {
    exists|i: int| 0 <= i < layout.len() && shelf_can_hold(#[trigger] layout[i], extent, size)
}

/// True when a region of the given size can be placed: it is not empty, it
/// fits on the surface, and a shelf can hold it or a new shelf can be opened
/// for it.
pub open spec fn has_room(layout: Seq<ShelfModel>, extent: Size, size: Size) -> bool {
    &&& !size.is_empty()
    &&& size.fits_in(extent)
    &&& some_shelf_can_hold(layout, extent, size) || layout_end(layout) + size.height
        <= extent.height
}

/// True when `i` is the first shelf that can hold the region.
pub open spec fn is_first_holding_shelf(
    layout: Seq<ShelfModel>,
    extent: Size,
    size: Size,
    i: int,
) -> bool {
    &&& 0 <= i < layout.len()
    &&& shelf_can_hold(layout[i], extent, size)
    &&& forall|k: int| 0 <= k < i ==> !shelf_can_hold(#[trigger] layout[k], extent, size)
}

/// True when `j` is the first slot of the shelf that can take the region.
pub open spec fn is_first_free_slot(shelf: ShelfModel, size: Size, j: int) -> bool {
    &&& 0 <= j < shelf.slots.len()
    &&& slot_fits(shelf.slots[j], size)
    &&& forall|k: int| 0 <= k < j ==> !slot_fits(#[trigger] shelf.slots[k], size)
}

/// The first shelf that can hold the region, where there is one.
pub open spec fn first_holding_shelf(layout: Seq<ShelfModel>, extent: Size, size: Size) -> int {
    choose|i: int| is_first_holding_shelf(layout, extent, size, i)
}

/// The first slot of the shelf that can take the region, where there is one.
pub open spec fn first_free_slot(shelf: ShelfModel, size: Size) -> int {
    choose|j: int| is_first_free_slot(shelf, size, j)
}

/// The height of a shelf newly opened for a region: the region's size class,
/// cut down to the rows that are left.
pub open spec fn new_shelf_height(layout: Seq<ShelfModel>, extent: Size, size: Size) -> int {
    let class = shelf_height_class(size.height as int);
    let left = extent.height - layout_end(layout);
    if class <= left {
        class
    } else {
        left
    }
}

/// Where a region of the given size is placed, given that there is room: in
/// the first shelf that can hold it, there in the first free slot that can
/// take it, else in a new slot at the shelf's end; and in a new shelf at the
/// end of the layout when no shelf can hold it.
pub open spec fn placement(layout: Seq<ShelfModel>, extent: Size, size: Size) -> Bounds {
    if some_shelf_can_hold(layout, extent, size) {
        let shelf = layout[first_holding_shelf(layout, extent, size)];
        if shelf_has_free_slot(shelf, size) {
            Bounds {
                origin: Point { x: shelf.slots[first_free_slot(shelf, size)].x, y: shelf.y },
                size,
            }
        } else {
            Bounds { origin: Point { x: shelf_end(shelf) as u32, y: shelf.y }, size }
        }
    } else {
        Bounds { origin: Point { x: 0, y: layout_end(layout) as u32 }, size }
    }
}

/// The shelf after a region of the given size was put into it.
pub open spec fn shelf_after_allocate(shelf: ShelfModel, size: Size) -> ShelfModel {
    if shelf_has_free_slot(shelf, size) {
        let j = first_free_slot(shelf, size);
        ShelfModel {
            slots: shelf.slots.update(j, Slot { live: Some(size), ..shelf.slots[j] }),
            ..shelf
        }
    } else {
        ShelfModel {
            slots: shelf.slots.push(
                Slot { x: shelf_end(shelf) as u32, width: size.width, live: Some(size) },
            ),
            ..shelf
        }
    }
}

/// The layout after a region of the given size was placed, given that there
/// was room.
pub open spec fn layout_after_allocate(
    layout: Seq<ShelfModel>,
    extent: Size,
    size: Size,
) -> Seq<ShelfModel> {
    if some_shelf_can_hold(layout, extent, size) {
        let i = first_holding_shelf(layout, extent, size);
        layout.update(i, shelf_after_allocate(layout[i], size))
    } else {
        layout.push(
            ShelfModel {
                y: layout_end(layout) as u32,
                height: new_shelf_height(layout, extent, size) as u32,
                slots: seq![Slot { x: 0, width: size.width, live: Some(size) }],
            },
        )
    }
}

/// The slots without the free slots at their end.
pub open spec fn trim_slots(slots: Seq<Slot>) -> Seq<Slot>
    decreases slots.len(),
{
    if slots.len() > 0 && slots.last().live is None {
        trim_slots(slots.drop_last())
    } else {
        slots
    }
}

/// The layout without the empty shelves at its end.
pub open spec fn trim_layout(layout: Seq<ShelfModel>) -> Seq<ShelfModel>
    decreases layout.len(),
{
    if layout.len() > 0 && layout.last().slots.len() == 0 {
        trim_layout(layout.drop_last())
    } else {
        layout
    }
}

/// The layout after the live region of slot `j` of shelf `i` was freed.
pub open spec fn layout_without(layout: Seq<ShelfModel>, i: int, j: int) -> Seq<ShelfModel> {
    let shelf = layout[i];
    let freed = shelf.slots.update(j, Slot { live: None, ..shelf.slots[j] });
    trim_layout(layout.update(i, ShelfModel { slots: trim_slots(freed), ..shelf }))
}

/// The layout after a live region was freed.
pub open spec fn layout_after_free(layout: Seq<ShelfModel>, region: Bounds) -> Seq<ShelfModel> {
    let (i, j) = choose|i: int, j: int| #[trigger] holds_region(layout, i, j, region);
    layout_without(layout, i, j)
}


/// Two different cells of a well-formed layout share no pixel and start at
/// different points.
pub proof fn lemma_cells_apart(layout: Seq<ShelfModel>, extent: Size, i: int, j: int, i2: int, j2: int)
    requires
        layout_wf(layout, extent),
        0 <= i < layout.len(),
        0 <= j < layout[i].slots.len(),
        0 <= i2 < layout.len(),
        0 <= j2 < layout[i2].slots.len(),
        i != i2 || j != j2,
    ensures
        !cell_at(layout, i, j).overlaps(cell_at(layout, i2, j2)),
        cell_at(layout, i, j).origin != cell_at(layout, i2, j2).origin,
{
    assert(shelf_wf(layout[i], extent));
    assert(shelf_wf(layout[i2], extent));
    assert(slot_wf(layout[i].slots[j], layout[i].height));
    assert(slot_wf(layout[i2].slots[j2], layout[i2].height));
    if i < i2 {
        assert(layout[i].y + layout[i].height <= layout[i2].y);
    } else if i2 < i {
        assert(layout[i2].y + layout[i2].height <= layout[i].y);
    } else if j < j2 {
        assert(layout[i].slots[j].x + layout[i].slots[j].width <= layout[i].slots[j2].x);
    } else {
        assert(layout[i].slots[j2].x + layout[i].slots[j2].width <= layout[i].slots[j].x);
    }
}

/// A live region of a well-formed layout is not empty, starts where its cell
/// starts, stays inside its cell, and its cell stays on the surface.
pub proof fn lemma_region_in_cell(layout: Seq<ShelfModel>, extent: Size, i: int, j: int)
    requires
        layout_wf(layout, extent),
        is_live_at(layout, i, j),
    ensures
        !region_at(layout, i, j).size.is_empty(),
        region_at(layout, i, j).origin == cell_at(layout, i, j).origin,
        region_at(layout, i, j).size.fits_in(cell_at(layout, i, j).size),
        cell_at(layout, i, j).within(extent),
        region_at(layout, i, j).within(extent),
{
    assert(shelf_wf(layout[i], extent));
    assert(slot_wf(layout[i].slots[j], layout[i].height));
    assert(layout[i].slots[j].x + layout[i].slots[j].width <= extent.width);
    assert(layout[i].y + layout[i].height <= extent.height);
}

/// In a well-formed layout a region is live in at most one slot.
pub proof fn lemma_holds_region_unique(
    layout: Seq<ShelfModel>,
    extent: Size,
    i: int,
    j: int,
    i2: int,
    j2: int,
    region: Bounds,
)
    requires
        layout_wf(layout, extent),
        holds_region(layout, i, j, region),
        holds_region(layout, i2, j2, region),
    ensures
        i == i2 && j == j2,
{
    if i != i2 || j != j2 {
        lemma_cells_apart(layout, extent, i, j, i2, j2);
    }
}

/// Two different live regions of a well-formed layout share no pixel.
pub proof fn lemma_live_regions_apart(layout: Seq<ShelfModel>, extent: Size, a: Bounds, b: Bounds)
    requires
        layout_wf(layout, extent),
        live_regions(layout).contains(a),
        live_regions(layout).contains(b),
        a != b,
    ensures
        !a.overlaps(b),
{
    let (i, j) = choose|i: int, j: int| #[trigger] holds_region(layout, i, j, a);
    let (i2, j2) = choose|i: int, j: int| #[trigger] holds_region(layout, i, j, b);
    lemma_region_in_cell(layout, extent, i, j);
    lemma_region_in_cell(layout, extent, i2, j2);
    lemma_cells_apart(layout, extent, i, j, i2, j2);
}

/// A live region of a well-formed layout is not empty and lies on the surface.
pub proof fn lemma_live_region_within(layout: Seq<ShelfModel>, extent: Size, a: Bounds)
    requires
        layout_wf(layout, extent),
        live_regions(layout).contains(a),
    ensures
        !a.size.is_empty(),
        a.within(extent),
{
    let (i, j) = choose|i: int, j: int| #[trigger] holds_region(layout, i, j, a);
    lemma_region_in_cell(layout, extent, i, j);
}

/// What follows when `l2` has the live regions of `l` in their slots and one
/// more, `b`, in a slot that is not live in `l`, and `l2` is well formed.
proof fn lemma_one_more_region(
    l: Seq<ShelfModel>,
    l2: Seq<ShelfModel>,
    extent: Size,
    i0: int,
    j0: int,
    b: Bounds,
)
    requires
        layout_wf(l2, extent),
        holds_region(l2, i0, j0, b),
        !is_live_at(l, i0, j0),
        forall|i: int, j: int, r: Bounds| #[trigger]
            holds_region(l2, i, j, r) ==> holds_region(l, i, j, r) || (i == i0 && j == j0),
        forall|i: int, j: int, r: Bounds| #[trigger]
            holds_region(l, i, j, r) ==> holds_region(l2, i, j, r),
    ensures
        live_regions(l2) == live_regions(l).insert(b),
        !live_regions(l).contains(b),
        b.within(extent),
        forall|r: Bounds| live_regions(l).contains(r) ==> !b.overlaps(r),
{
    assert forall|r: Bounds| live_regions(l).contains(r) implies r != b && !b.overlaps(r)
        && live_regions(l2).contains(r) by {
        let (i, j) = choose|i: int, j: int| #[trigger] holds_region(l, i, j, r);
        assert(holds_region(l2, i, j, r));
        if r == b {
            lemma_holds_region_unique(l2, extent, i, j, i0, j0, b);
        }
        lemma_live_regions_apart(l2, extent, b, r);
    }
    assert forall|r: Bounds| live_regions(l2).contains(r) implies live_regions(l).insert(
        b,
    ).contains(r) by {
        let (i, j) = choose|i: int, j: int| #[trigger] holds_region(l2, i, j, r);
        if i == i0 && j == j0 {
        } else {
            assert(holds_region(l, i, j, r));
        }
    }
    assert(live_regions(l2) =~= live_regions(l).insert(b));
    lemma_live_region_within(l2, extent, b);
}

/// The height of a size class is no less than the height it is the class of.
pub proof fn lemma_shelf_height_class(height: int)
    requires
        0 <= height,
    ensures
        height <= shelf_height_class(height) < height + 64,
{
}

/// The first shelf that can hold a region is the only one that is first.
pub proof fn lemma_first_holding_shelf(layout: Seq<ShelfModel>, extent: Size, size: Size, i: int)
    requires
        is_first_holding_shelf(layout, extent, size, i),
    ensures
        some_shelf_can_hold(layout, extent, size),
        first_holding_shelf(layout, extent, size) == i,
{
    let c = first_holding_shelf(layout, extent, size);
    assert(is_first_holding_shelf(layout, extent, size, c));
    if c < i {
        assert(!shelf_can_hold(layout[c], extent, size));
    } else if i < c {
        assert(!shelf_can_hold(layout[i], extent, size));
    }
}

/// The first free slot that can take a region is the only one that is first.
pub proof fn lemma_first_free_slot(shelf: ShelfModel, size: Size, j: int)
    requires
        is_first_free_slot(shelf, size, j),
    ensures
        shelf_has_free_slot(shelf, size),
        first_free_slot(shelf, size) == j,
{
    let c = first_free_slot(shelf, size);
    assert(is_first_free_slot(shelf, size, c));
    if c < j {
        assert(!slot_fits(shelf.slots[c], size));
    } else if j < c {
        assert(!slot_fits(shelf.slots[j], size));
    }
}

/// Where some shelf can hold a region, there is a first one.
pub proof fn lemma_first_holding_shelf_exists(layout: Seq<ShelfModel>, extent: Size, size: Size)
    requires
        some_shelf_can_hold(layout, extent, size),
    ensures
        is_first_holding_shelf(layout, extent, size, first_holding_shelf(layout, extent, size)),
{
    let w = choose|i: int| 0 <= i < layout.len() && shelf_can_hold(#[trigger] layout[i], extent, size);
    lemma_least_holding_shelf(layout, extent, size, w);
}

proof fn lemma_least_holding_shelf(layout: Seq<ShelfModel>, extent: Size, size: Size, w: int)
    requires
        0 <= w < layout.len(),
        shelf_can_hold(layout[w], extent, size),
    ensures
        exists|i: int| is_first_holding_shelf(layout, extent, size, i),
    decreases w,
{
    if exists|k: int| 0 <= k < w && shelf_can_hold(#[trigger] layout[k], extent, size) {
        let k = choose|k: int| 0 <= k < w && shelf_can_hold(#[trigger] layout[k], extent, size);
        lemma_least_holding_shelf(layout, extent, size, k);
    } else {
        assert(is_first_holding_shelf(layout, extent, size, w));
    }
}

/// Where some slot of a shelf can take a region, there is a first one.
pub proof fn lemma_first_free_slot_exists(shelf: ShelfModel, size: Size)
    requires
        shelf_has_free_slot(shelf, size),
    ensures
        is_first_free_slot(shelf, size, first_free_slot(shelf, size)),
{
    let w = choose|j: int| 0 <= j < shelf.slots.len() && slot_fits(#[trigger] shelf.slots[j], size);
    lemma_least_free_slot(shelf, size, w);
}

proof fn lemma_least_free_slot(shelf: ShelfModel, size: Size, w: int)
    requires
        0 <= w < shelf.slots.len(),
        slot_fits(shelf.slots[w], size),
    ensures
        exists|j: int| is_first_free_slot(shelf, size, j),
    decreases w,
{
    if exists|k: int| 0 <= k < w && slot_fits(#[trigger] shelf.slots[k], size) {
        let k = choose|k: int| 0 <= k < w && slot_fits(#[trigger] shelf.slots[k], size);
        lemma_least_free_slot(shelf, size, k);
    } else {
        assert(is_first_free_slot(shelf, size, w));
    }
}

/// True when `l2` is `l` with the region `b` placed: `l2` is well formed, its
/// live regions are those of `l` and `b`, and `b` is new, lies on the surface
/// and shares no pixel with a live region of `l`.
pub open spec fn placed(l: Seq<ShelfModel>, l2: Seq<ShelfModel>, extent: Size, b: Bounds) -> bool {
    &&& layout_wf(l2, extent)
    &&& live_regions(l2) == live_regions(l).insert(b)
    &&& !live_regions(l).contains(b)
    &&& b.within(extent)
    &&& forall|r: Bounds| live_regions(l).contains(r) ==> !b.overlaps(r)
}

proof fn lemma_reuse_slot(l: Seq<ShelfModel>, extent: Size, size: Size, i: int, j: int)
    requires
        layout_wf(l, extent),
        !size.is_empty(),
        0 <= i < l.len(),
        shelf_suits(l[i], size),
        0 <= j < l[i].slots.len(),
        slot_fits(l[i].slots[j], size),
    ensures
        placed(
            l,
            l.update(
                i,
                ShelfModel {
                    slots: l[i].slots.update(j, Slot { live: Some(size), ..l[i].slots[j] }),
                    ..l[i]
                },
            ),
            extent,
            Bounds { origin: Point { x: l[i].slots[j].x, y: l[i].y }, size },
        ),
{
    let slots2 = l[i].slots.update(j, Slot { live: Some(size), ..l[i].slots[j] });
    let shelf2 = ShelfModel { slots: slots2, ..l[i] };
    let l2 = l.update(i, shelf2);
    let b = Bounds { origin: Point { x: l[i].slots[j].x, y: l[i].y }, size };
    assert(shelf_wf(l[i], extent));
    assert(shelf_wf(shelf2, extent)) by {
        assert forall|k: int| 0 <= k < slots2.len() implies slot_wf(
            #[trigger] slots2[k],
            shelf2.height,
        ) by {
            assert(slot_wf(l[i].slots[k], l[i].height));
        }
        assert forall|k: int| 0 <= k < slots2.len() implies (#[trigger] slots2[k]).x
            + slots2[k].width <= extent.width by {
            assert(l[i].slots[k].x + l[i].slots[k].width <= extent.width);
        }
        assert forall|k: int, m: int| 0 <= k < m < slots2.len() implies (#[trigger] slots2[k]).x
            + slots2[k].width <= (#[trigger] slots2[m]).x by {
            assert(l[i].slots[k].x + l[i].slots[k].width <= l[i].slots[m].x);
        }
        assert(l[i].slots.last().live is Some);
    }
    assert(layout_wf(l2, extent)) by {
        assert forall|k: int| 0 <= k < l2.len() implies shelf_wf(#[trigger] l2[k], extent) by {
            assert(shelf_wf(l[k], extent));
        }
        assert forall|k: int| 0 <= k < l2.len() implies (#[trigger] l2[k]).y + l2[k].height
            <= extent.height by {
            assert(l[k].y + l[k].height <= extent.height);
        }
        assert forall|k: int, m: int| 0 <= k < m < l2.len() implies (#[trigger] l2[k]).y
            + l2[k].height <= (#[trigger] l2[m]).y by {
            assert(l[k].y + l[k].height <= l[m].y);
        }
        assert(l.last().slots.len() > 0);
    }
    assert(holds_region(l2, i, j, b));
    assert forall|i1: int, j1: int, r: Bounds| #[trigger]
        holds_region(l2, i1, j1, r) implies holds_region(l, i1, j1, r) || (i1 == i && j1 == j) by {}
    assert forall|i1: int, j1: int, r: Bounds| #[trigger]
        holds_region(l, i1, j1, r) implies holds_region(l2, i1, j1, r) by {}
    lemma_one_more_region(l, l2, extent, i, j, b);
}

proof fn lemma_append_slot(l: Seq<ShelfModel>, extent: Size, size: Size, i: int)
    requires
        layout_wf(l, extent),
        !size.is_empty(),
        0 <= i < l.len(),
        shelf_suits(l[i], size),
        shelf_end(l[i]) + size.width <= extent.width,
    ensures
        0 <= shelf_end(l[i]) <= u32::MAX,
        placed(
            l,
            l.update(
                i,
                ShelfModel {
                    slots: l[i].slots.push(
                        Slot { x: shelf_end(l[i]) as u32, width: size.width, live: Some(size) },
                    ),
                    ..l[i]
                },
            ),
            extent,
            Bounds { origin: Point { x: shelf_end(l[i]) as u32, y: l[i].y }, size },
        ),
{
    let slot = Slot { x: shelf_end(l[i]) as u32, width: size.width, live: Some(size) };
    let slots2 = l[i].slots.push(slot);
    let shelf2 = ShelfModel { slots: slots2, ..l[i] };
    let l2 = l.update(i, shelf2);
    let j = l[i].slots.len() as int;
    let b = Bounds { origin: Point { x: shelf_end(l[i]) as u32, y: l[i].y }, size };
    assert(shelf_wf(l[i], extent));
    assert(shelf_wf(shelf2, extent)) by {
        assert forall|k: int| 0 <= k < slots2.len() implies slot_wf(
            #[trigger] slots2[k],
            shelf2.height,
        ) by {
            if k < j {
                assert(slot_wf(l[i].slots[k], l[i].height));
            }
        }
        assert forall|k: int| 0 <= k < slots2.len() implies (#[trigger] slots2[k]).x
            + slots2[k].width <= extent.width by {
            if k < j {
                assert(l[i].slots[k].x + l[i].slots[k].width <= extent.width);
            }
        }
        assert forall|k: int, m: int| 0 <= k < m < slots2.len() implies (#[trigger] slots2[k]).x
            + slots2[k].width <= (#[trigger] slots2[m]).x by {
            if m < j {
                assert(l[i].slots[k].x + l[i].slots[k].width <= l[i].slots[m].x);
            } else if k < j - 1 {
                assert(l[i].slots[k].x + l[i].slots[k].width <= l[i].slots[j - 1].x);
                assert(slot_wf(l[i].slots[j - 1], l[i].height));
            }
        }
    }
    assert(layout_wf(l2, extent)) by {
        assert forall|k: int| 0 <= k < l2.len() implies shelf_wf(#[trigger] l2[k], extent) by {
            assert(shelf_wf(l[k], extent));
        }
        assert forall|k: int| 0 <= k < l2.len() implies (#[trigger] l2[k]).y + l2[k].height
            <= extent.height by {
            assert(l[k].y + l[k].height <= extent.height);
        }
        assert forall|k: int, m: int| 0 <= k < m < l2.len() implies (#[trigger] l2[k]).y
            + l2[k].height <= (#[trigger] l2[m]).y by {
            assert(l[k].y + l[k].height <= l[m].y);
        }
    }
    assert(holds_region(l2, i, j, b));
    assert forall|i1: int, j1: int, r: Bounds| #[trigger]
        holds_region(l2, i1, j1, r) implies holds_region(l, i1, j1, r) || (i1 == i && j1 == j) by {}
    assert forall|i1: int, j1: int, r: Bounds| #[trigger]
        holds_region(l, i1, j1, r) implies holds_region(l2, i1, j1, r) by {}
    lemma_one_more_region(l, l2, extent, i, j, b);
}

proof fn lemma_open_shelf(l: Seq<ShelfModel>, extent: Size, size: Size)
    requires
        layout_wf(l, extent),
        !size.is_empty(),
        size.fits_in(extent),
        layout_end(l) + size.height <= extent.height,
    ensures
        0 <= layout_end(l) <= u32::MAX,
        size.height <= new_shelf_height(l, extent, size) <= u32::MAX,
        placed(
            l,
            l.push(
                ShelfModel {
                    y: layout_end(l) as u32,
                    height: new_shelf_height(l, extent, size) as u32,
                    slots: seq![Slot { x: 0, width: size.width, live: Some(size) }],
                },
            ),
            extent,
            Bounds { origin: Point { x: 0, y: layout_end(l) as u32 }, size },
        ),
{
    let slot = Slot { x: 0, width: size.width, live: Some(size) };
    let shelf2 = ShelfModel {
        y: layout_end(l) as u32,
        height: new_shelf_height(l, extent, size) as u32,
        slots: seq![slot],
    };
    let l2 = l.push(shelf2);
    let i = l.len() as int;
    let b = Bounds { origin: Point { x: 0, y: layout_end(l) as u32 }, size };
    lemma_shelf_height_class(size.height as int);
    if l.len() > 0 {
        assert(l[i - 1].y + l[i - 1].height <= extent.height);
        assert(shelf_wf(l[i - 1], extent));
    }
    assert(shelf_wf(shelf2, extent));
    assert(layout_wf(l2, extent)) by {
        assert forall|k: int| 0 <= k < l2.len() implies shelf_wf(#[trigger] l2[k], extent) by {
            if k < i {
                assert(shelf_wf(l[k], extent));
            }
        }
        assert forall|k: int| 0 <= k < l2.len() implies (#[trigger] l2[k]).y + l2[k].height
            <= extent.height by {
            if k < i {
                assert(l[k].y + l[k].height <= extent.height);
            }
        }
        assert forall|k: int, m: int| 0 <= k < m < l2.len() implies (#[trigger] l2[k]).y
            + l2[k].height <= (#[trigger] l2[m]).y by {
            if m < i {
                assert(l[k].y + l[k].height <= l[m].y);
            } else if k < i - 1 {
                assert(l[k].y + l[k].height <= l[i - 1].y);
            }
        }
    }
    assert(holds_region(l2, i, 0, b));
    assert forall|i1: int, j1: int, r: Bounds| #[trigger]
        holds_region(l2, i1, j1, r) implies holds_region(l, i1, j1, r) || (i1 == i && j1 == 0) by {}
    assert forall|i1: int, j1: int, r: Bounds| #[trigger]
        holds_region(l, i1, j1, r) implies holds_region(l2, i1, j1, r) by {}
    lemma_one_more_region(l, l2, extent, i, 0, b);
}

/// Placing a region where there is room gives a well-formed layout with one
/// more live region, of the size asked for, on the surface and apart from all
/// the others.
pub proof fn lemma_allocate(layout: Seq<ShelfModel>, extent: Size, size: Size)
    requires
        layout_wf(layout, extent),
        has_room(layout, extent, size),
    ensures
        placement(layout, extent, size).size == size,
        placed(
            layout,
            layout_after_allocate(layout, extent, size),
            extent,
            placement(layout, extent, size),
        ),
{
    if some_shelf_can_hold(layout, extent, size) {
        lemma_first_holding_shelf_exists(layout, extent, size);
        let i = first_holding_shelf(layout, extent, size);
        if shelf_has_free_slot(layout[i], size) {
            lemma_first_free_slot_exists(layout[i], size);
            lemma_reuse_slot(layout, extent, size, i, first_free_slot(layout[i], size));
        } else {
            lemma_append_slot(layout, extent, size, i);
        }
    } else {
        lemma_open_shelf(layout, extent, size);
    }
}

/// On an empty layout every region that is not empty and fits on the surface
/// has room, and is placed in the top-left corner.
pub proof fn lemma_empty_layout_has_room(extent: Size, size: Size)
    requires
        !size.is_empty(),
        size.fits_in(extent),
    ensures
        has_room(Seq::<ShelfModel>::empty(), extent, size),
        placement(Seq::<ShelfModel>::empty(), extent, size) == (Bounds {
            origin: Point { x: 0, y: 0 },
            size,
        }),
        live_regions(Seq::<ShelfModel>::empty()) == Set::<Bounds>::empty(),
        layout_wf(Seq::<ShelfModel>::empty(), extent),
{
    assert(live_regions(Seq::<ShelfModel>::empty()) =~= Set::<Bounds>::empty());
}

/// A well-formed layout without live regions has no shelves.
pub proof fn lemma_no_region_no_shelf(layout: Seq<ShelfModel>, extent: Size)
    requires
        layout_wf(layout, extent),
        live_regions(layout) == Set::<Bounds>::empty(),
    ensures
        layout.len() == 0,
{
    if layout.len() > 0 {
        let i = layout.len() - 1;
        let j = layout[i].slots.len() - 1;
        assert(shelf_wf(layout[i], extent));
        assert(holds_region(layout, i, j, region_at(layout, i, j)));
        assert(live_regions(layout).contains(region_at(layout, i, j)));
    }
}

/// True when `l2` is `l` with the live region `region` freed: `l2` is well
/// formed and its live regions are those of `l` but for `region`.
pub open spec fn freed(l: Seq<ShelfModel>, l2: Seq<ShelfModel>, extent: Size, region: Bounds) -> bool {
    &&& layout_wf(l2, extent)
    &&& live_regions(l2) == live_regions(l).remove(region)
}

/// Trimming slots keeps a prefix, drops only free slots, and leaves a live
/// slot at the end.
pub proof fn lemma_trim_slots(slots: Seq<Slot>)
    ensures
        trim_slots(slots).len() <= slots.len(),
        trim_slots(slots) == slots.take(trim_slots(slots).len() as int),
        forall|j: int| trim_slots(slots).len() <= j < slots.len() ==> (#[trigger] slots[j]).live is None,
        trim_slots(slots).len() > 0 ==> trim_slots(slots).last().live is Some,
    decreases slots.len(),
{
    if slots.len() > 0 && slots.last().live is None {
        lemma_trim_slots(slots.drop_last());
        let t = trim_slots(slots);
        assert(t =~= slots.take(t.len() as int));
        assert forall|j: int| t.len() <= j < slots.len() implies (#[trigger] slots[j]).live is None by {
            if j < slots.len() - 1 {
                assert(slots.drop_last()[j] == slots[j]);
            }
        }
    } else {
        assert(slots =~= slots.take(slots.len() as int));
    }
}

/// Trimming a layout keeps a prefix, drops only empty shelves, and leaves a
/// shelf with slots at the end.
pub proof fn lemma_trim_layout(layout: Seq<ShelfModel>)
    ensures
        trim_layout(layout).len() <= layout.len(),
        trim_layout(layout) == layout.take(trim_layout(layout).len() as int),
        forall|i: int|
            trim_layout(layout).len() <= i < layout.len() ==> (#[trigger] layout[i]).slots.len()
                == 0,
        trim_layout(layout).len() > 0 ==> trim_layout(layout).last().slots.len() > 0,
    decreases layout.len(),
{
    if layout.len() > 0 && layout.last().slots.len() == 0 {
        lemma_trim_layout(layout.drop_last());
        let t = trim_layout(layout);
        assert(t =~= layout.take(t.len() as int));
        assert forall|i: int| t.len() <= i < layout.len() implies (#[trigger] layout[i]).slots.len()
            == 0 by {
            if i < layout.len() - 1 {
                assert(layout.drop_last()[i] == layout[i]);
            }
        }
    } else {
        assert(layout =~= layout.take(layout.len() as int));
    }
}

/// What follows when `l2` has the live regions of `l` in their slots, but for
/// the one of slot `j0` of shelf `i0`.
proof fn lemma_one_region_less(
    l: Seq<ShelfModel>,
    l2: Seq<ShelfModel>,
    extent: Size,
    i0: int,
    j0: int,
)
    requires
        layout_wf(l, extent),
        is_live_at(l, i0, j0),
        forall|i: int, j: int, r: Bounds| #[trigger]
            holds_region(l2, i, j, r) ==> holds_region(l, i, j, r) && !(i == i0 && j == j0),
        forall|i: int, j: int, r: Bounds| #[trigger]
            holds_region(l, i, j, r) ==> holds_region(l2, i, j, r) || (i == i0 && j == j0),
    ensures
        live_regions(l2) == live_regions(l).remove(region_at(l, i0, j0)),
{
    let b = region_at(l, i0, j0);
    assert(holds_region(l, i0, j0, b));
    assert forall|r: Bounds| live_regions(l2).contains(r) implies live_regions(l).remove(
        b,
    ).contains(r) by {
        let (i, j) = choose|i: int, j: int| #[trigger] holds_region(l2, i, j, r);
        assert(holds_region(l, i, j, r));
        if r == b {
            lemma_holds_region_unique(l, extent, i, j, i0, j0, b);
        }
    }
    assert forall|r: Bounds| live_regions(l).remove(b).contains(r) implies live_regions(
        l2,
    ).contains(r) by {
        let (i, j) = choose|i: int, j: int| #[trigger] holds_region(l, i, j, r);
        assert(holds_region(l2, i, j, r));
    }
    assert(live_regions(l2) =~= live_regions(l).remove(b));
}

/// Freeing the live region of a slot gives a well-formed layout with that
/// region gone and the others as they were.
pub proof fn lemma_free_slot(l: Seq<ShelfModel>, extent: Size, i: int, j: int)
    requires
        layout_wf(l, extent),
        is_live_at(l, i, j),
    ensures
        freed(l, layout_without(l, i, j), extent, region_at(l, i, j)),
{
    let shelf = l[i];
    let cleared = shelf.slots.update(j, Slot { live: None, ..shelf.slots[j] });
    let slots1 = trim_slots(cleared);
    let shelf1 = ShelfModel { slots: slots1, ..shelf };
    let l1 = l.update(i, shelf1);
    let l2 = trim_layout(l1);
    lemma_trim_slots(cleared);
    lemma_trim_layout(l1);
    assert(shelf_wf(shelf, extent));
    assert(shelf_wf(shelf1, extent)) by {
        assert forall|k: int| 0 <= k < slots1.len() implies slot_wf(
            #[trigger] slots1[k],
            shelf1.height,
        ) by {
            assert(slot_wf(shelf.slots[k], shelf.height));
        }
        assert forall|k: int| 0 <= k < slots1.len() implies (#[trigger] slots1[k]).x
            + slots1[k].width <= extent.width by {
            assert(shelf.slots[k].x + shelf.slots[k].width <= extent.width);
        }
        assert forall|k: int, m: int| 0 <= k < m < slots1.len() implies (#[trigger] slots1[k]).x
            + slots1[k].width <= (#[trigger] slots1[m]).x by {
            assert(shelf.slots[k].x + shelf.slots[k].width <= shelf.slots[m].x);
        }
    }
    assert(layout_wf(l2, extent)) by {
        assert forall|k: int| 0 <= k < l2.len() implies shelf_wf(#[trigger] l2[k], extent) by {
            assert(l2[k] == l1[k]);
            assert(shelf_wf(l[k], extent));
        }
        assert forall|k: int| 0 <= k < l2.len() implies (#[trigger] l2[k]).y + l2[k].height
            <= extent.height by {
            assert(l2[k] == l1[k]);
            assert(l[k].y + l[k].height <= extent.height);
        }
        assert forall|k: int, m: int| 0 <= k < m < l2.len() implies (#[trigger] l2[k]).y
            + l2[k].height <= (#[trigger] l2[m]).y by {
            assert(l2[k] == l1[k]);
            assert(l2[m] == l1[m]);
            assert(l[k].y + l[k].height <= l[m].y);
        }
    }
    assert forall|i1: int, j1: int, r: Bounds| #[trigger]
        holds_region(l2, i1, j1, r) implies holds_region(l, i1, j1, r) && !(i1 == i && j1 == j) by {
        assert(l2[i1] == l1[i1]);
        if i1 == i {
            assert(slots1[j1] == cleared[j1]);
        }
    }
    assert forall|i1: int, j1: int, r: Bounds| #[trigger]
        holds_region(l, i1, j1, r) implies holds_region(l2, i1, j1, r) || (i1 == i && j1 == j) by {
        if !(i1 == i && j1 == j) {
            if i1 == i {
                assert(cleared[j1].live is Some);
                assert(j1 < slots1.len());
                assert(slots1[j1] == cleared[j1]);
            }
            assert(l1[i1].slots.len() > 0);
            assert(i1 < l2.len());
            assert(l2[i1] == l1[i1]);
        }
    }
    lemma_one_region_less(l, l2, extent, i, j);
}

/// Freeing a live region gives a well-formed layout with that region gone
/// and the others as they were.
pub proof fn lemma_free(layout: Seq<ShelfModel>, extent: Size, region: Bounds)
    requires
        layout_wf(layout, extent),
        live_regions(layout).contains(region),
    ensures
        freed(layout, layout_after_free(layout, region), extent, region),
{
    let (i, j) = choose|i: int, j: int| #[trigger] holds_region(layout, i, j, region);
    lemma_free_slot(layout, extent, i, j);
}

/// Freeing a region right after it was placed gives back the layout as it was
/// before: placing and freeing leak no space.
pub proof fn lemma_allocate_then_free(layout: Seq<ShelfModel>, extent: Size, size: Size)
    requires
        layout_wf(layout, extent),
        has_room(layout, extent, size),
    ensures
        layout_after_free(
            layout_after_allocate(layout, extent, size),
            placement(layout, extent, size),
        ) == layout,
{
    let l2 = layout_after_allocate(layout, extent, size);
    let b = placement(layout, extent, size);
    lemma_allocate(layout, extent, size);
    assert(live_regions(l2).contains(b));
    let (i, j) = choose|i: int, j: int| #[trigger] holds_region(l2, i, j, b);
    reveal_with_fuel(trim_slots, 2);
    reveal_with_fuel(trim_layout, 2);
    if some_shelf_can_hold(layout, extent, size) {
        lemma_first_holding_shelf_exists(layout, extent, size);
        let i0 = first_holding_shelf(layout, extent, size);
        assert(shelf_wf(layout[i0], extent));
        if shelf_has_free_slot(layout[i0], size) {
            lemma_first_free_slot_exists(layout[i0], size);
            let j0 = first_free_slot(layout[i0], size);
            assert(holds_region(l2, i0, j0, b));
            lemma_holds_region_unique(l2, extent, i, j, i0, j0, b);
            let cleared = l2[i0].slots.update(j0, Slot { live: None, ..l2[i0].slots[j0] });
            assert(cleared =~= layout[i0].slots);
            assert(trim_slots(cleared) == layout[i0].slots);
            assert(l2.update(i0, ShelfModel { slots: layout[i0].slots, ..l2[i0] }) =~= layout);
        } else {
            let j0 = layout[i0].slots.len() as int;
            assert(holds_region(l2, i0, j0, b));
            lemma_holds_region_unique(l2, extent, i, j, i0, j0, b);
            let cleared = l2[i0].slots.update(j0, Slot { live: None, ..l2[i0].slots[j0] });
            assert(cleared.drop_last() =~= layout[i0].slots);
            assert(trim_slots(cleared) == layout[i0].slots);
            assert(l2.update(i0, ShelfModel { slots: layout[i0].slots, ..l2[i0] }) =~= layout);
        }
    } else {
        let i0 = layout.len() as int;
        assert(holds_region(l2, i0, 0, b));
        lemma_holds_region_unique(l2, extent, i, j, i0, 0, b);
        let cleared = l2[i0].slots.update(0, Slot { live: None, ..l2[i0].slots[0] });
        assert(cleared.drop_last() =~= Seq::<Slot>::empty());
        assert(trim_slots(cleared) == Seq::<Slot>::empty());
        let l1 = l2.update(i0, ShelfModel { slots: Seq::<Slot>::empty(), ..l2[i0] });
        assert(l1.drop_last() =~= layout);
    }
}

/// After a region was freed there is room for a region of the same size.
pub proof fn lemma_free_makes_room(layout: Seq<ShelfModel>, extent: Size, region: Bounds)
    requires
        layout_wf(layout, extent),
        live_regions(layout).contains(region),
    ensures
        has_room(layout_after_free(layout, region), extent, region.size),
{
    let (i, j) = choose|i: int, j: int| #[trigger] holds_region(layout, i, j, region);
    let size = region.size;
    let shelf = layout[i];
    let cleared = shelf.slots.update(j, Slot { live: None, ..shelf.slots[j] });
    let slots1 = trim_slots(cleared);
    let shelf1 = ShelfModel { slots: slots1, ..shelf };
    let l1 = layout.update(i, shelf1);
    let l2 = trim_layout(l1);
    lemma_trim_slots(cleared);
    lemma_trim_layout(l1);
    assert(shelf_wf(shelf, extent));
    assert(slot_wf(shelf.slots[j], shelf.height));
    assert(shelf.slots[j].x + shelf.slots[j].width <= extent.width);
    assert(shelf.y + shelf.height <= extent.height);
    if i < l2.len() {
        assert(l2[i] == l1[i]);
        if j < slots1.len() {
            assert(slots1[j] == cleared[j]);
            assert(slot_fits(l2[i].slots[j], size));
        } else if slots1.len() > 0 {
            let last = slots1.len() - 1;
            assert(slots1[last] == cleared[last]);
            assert(shelf.slots[last].x + shelf.slots[last].width <= shelf.slots[j].x);
        }
        assert(shelf_can_hold(l2[i], extent, size));
    } else if l2.len() > 0 {
        let last = l2.len() - 1;
        assert(l2[last] == l1[last]);
        assert(layout[last].y + layout[last].height <= layout[i].y);
    }
}

} // verus!
