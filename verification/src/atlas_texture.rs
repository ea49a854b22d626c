//! One backing texture of the atlas: its region allocator and the count of
//! the keys whose tiles live in it.

use crate::atlas_types::{AtlasTextureId, AtlasTile, WgpuTextureInfo};
use crate::geometry::{Bounds, Size};
use crate::region_allocator::RegionAllocator;
use crate::shelf_layout::{
    has_room, layout_after_allocate, layout_after_free, layout_wf, live_regions, placement,
    ShelfModel,
};
use vstd::prelude::*;

verus! {

/// The mathematical picture of a backing texture.
pub struct TextureModel {
    /// The width and height of the texture.
    pub size: Size,
    /// How the texture is cut into shelves and slots.
    pub layout: Seq<ShelfModel>,
    /// How many keys have their tile in the texture.
    pub live_keys: nat,
}

impl TextureModel {
    /// The regions of the texture that are handed out.
    pub open spec fn regions(self) -> Set<Bounds> {
        live_regions(self.layout)
    }

    /// True when a region of the given size can be placed in the texture.
    pub open spec fn has_room(self, size: Size) -> bool {
        has_room(self.layout, self.size, size)
    }

    /// The texture's layout is well formed for its size.
    pub open spec fn wf(self) -> bool {
        layout_wf(self.layout, self.size)
    }

    /// A texture of the given size with nothing in it.
    pub open spec fn fresh(size: Size) -> TextureModel {
        TextureModel { size, layout: Seq::empty(), live_keys: 0 }
    }

    /// The texture after a region of the given size was placed in it.
    pub open spec fn with_region(self, size: Size) -> TextureModel {
        TextureModel { layout: layout_after_allocate(self.layout, self.size, size), ..self }
    }

    /// The texture after the live region `bounds` was freed.
    pub open spec fn without_region(self, bounds: Bounds) -> TextureModel {
        TextureModel { layout: layout_after_free(self.layout, bounds), ..self }
    }
}

/// A backing texture: one large image that holds many tiles.
///
/// The image itself lives on the device under the texture's id; this value
/// knows which parts of it are taken and how many keys refer to it.
pub struct WgpuAtlasTexture {
    id: AtlasTextureId,
    allocator: RegionAllocator,
    live_atlas_keys: usize,
}

impl WgpuAtlasTexture {
    /// The id under which the table of its kind holds the texture.
    pub closed spec fn id(&self) -> AtlasTextureId {
        self.id
    }

    pub closed spec fn view(&self) -> TextureModel {
        TextureModel {
            size: self.allocator.extent(),
            layout: self.allocator.layout(),
            live_keys: self.live_atlas_keys as nat,
        }
    }

    /// The invariant of the texture.
    pub open spec fn wf(&self) -> bool {
        self@.wf()
    }

    /// A texture of the given size with nothing in it.
    pub fn new(id: AtlasTextureId, size: Size) -> (r: Self)
        ensures
            r.wf(),
            r.id() == id,
            r@ == TextureModel::fresh(size),
    {
        WgpuAtlasTexture { id, allocator: RegionAllocator::new(size), live_atlas_keys: 0 }
    }

    pub fn texture_id(&self) -> (r: AtlasTextureId)
        ensures
            r == self.id(),
    {
        self.id
    }

    /// The width and height of the texture.
    pub fn size(&self) -> (r: Size)
        ensures
            r == self@.size,
    {
        self.allocator.size()
    }

    /// What a renderer needs to bind the texture.
    pub fn info(&self) -> (r: WgpuTextureInfo)
        ensures
            r == (WgpuTextureInfo {
                id: self.id(),
                size: self@.size,
                bytes_per_pixel: self.id().kind.bytes_per_pixel(),
            }),
    {
        WgpuTextureInfo {
            id: self.id,
            size: self.allocator.size(),
            bytes_per_pixel: self.id.kind.bytes_per_pixel(),
        }
    }

    /// How many keys have their tile in the texture.
    pub fn live_keys(&self) -> (r: usize)
        ensures
            r == self@.live_keys,
    {
        self.live_atlas_keys
    }

    /// True when no key has its tile in the texture.
    pub fn is_unreferenced(&self) -> (r: bool)
        ensures
            r == (self@.live_keys == 0),
    {
        self.live_atlas_keys == 0
    }

    /// Places a tile of the given size, or returns `None` when the texture
    /// has no room for it. The count of keys stays as it is: the caller
    /// counts the key once it holds the tile.
    pub fn allocate(&mut self, size: Size) -> (r: Option<AtlasTile>)
        requires
            old(self).wf(),
        ensures
            final(self).wf(),
            final(self).id() == old(self).id(),
            r is Some <==> old(self)@.has_room(size),
            r matches Some(tile) ==> {
                &&& tile == (AtlasTile {
                    texture_id: old(self).id(),
                    bounds: placement(old(self)@.layout, old(self)@.size, size),
                    padding: 0,
                })
                &&& final(self)@ == old(self)@.with_region(size)
                &&& tile.bounds.size == size
                &&& tile.bounds.within(old(self)@.size)
                &&& !old(self)@.regions().contains(tile.bounds)
                &&& final(self)@.regions() == old(self)@.regions().insert(tile.bounds)
                &&& forall|live: Bounds|
                    old(self)@.regions().contains(live) ==> !tile.bounds.overlaps(live)
            },
            r is None ==> final(self)@ == old(self)@,
    {
        match self.allocator.allocate(size) {
            Some(bounds) => Some(AtlasTile { texture_id: self.id, bounds, padding: 0 }),
            None => None,
        }
    }

    /// Gives the region of a tile back. Returns `false`, and changes
    /// nothing, when `bounds` is not a live region of the texture. The count
    /// of keys stays as it is.
    pub fn free(&mut self, bounds: Bounds) -> (r: bool)
        requires
            old(self).wf(),
        ensures
            final(self).wf(),
            final(self).id() == old(self).id(),
            r == old(self)@.regions().contains(bounds),
            r ==> final(self)@ == old(self)@.without_region(bounds),
            r ==> final(self)@.regions() == old(self)@.regions().remove(bounds),
            !r ==> final(self)@ == old(self)@,
    {
        self.allocator.free(bounds)
    }

    /// Counts one more key whose tile lives in the texture.
    pub fn increment_ref_count(&mut self)
        requires
            old(self)@.live_keys < usize::MAX,
        ensures
            final(self).id() == old(self).id(),
            final(self)@ == (TextureModel { live_keys: old(self)@.live_keys + 1, ..old(self)@ }),
    {
        self.live_atlas_keys = self.live_atlas_keys + 1;
    }

    /// Counts one key less. At zero the count stays zero.
    pub fn decrement_ref_count(&mut self)
        ensures
            final(self).id() == old(self).id(),
            final(self)@ == (TextureModel {
                live_keys: if old(self)@.live_keys == 0 {
                    0
                } else {
                    (old(self)@.live_keys - 1) as nat
                },
                ..old(self)@
            }),
    {
        if self.live_atlas_keys > 0 {
            self.live_atlas_keys = self.live_atlas_keys - 1;
        }
    }
}

} // verus!
