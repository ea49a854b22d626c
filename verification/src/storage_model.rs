//! The mathematics of the tiles and textures of one kind: what the atlas
//! keeps true of them, and what inserting and removing a tile do.

use crate::atlas_texture::TextureModel;
use crate::atlas_texture_list::{
    first_with_room, is_first_with_room, is_next_slot, lemma_texture_size_for, next_slot,
    some_texture_has_room, slot_has_room, texture_size_for, texture_without_tile, with_texture,
};
use crate::atlas_types::{AtlasTextureId, AtlasTextureKind, AtlasTile};
use crate::geometry::{Bounds, Point, Size};
use crate::shelf_layout::{
    lemma_allocate, lemma_empty_layout_has_room, lemma_free, placement,
};
use vstd::prelude::*;
use vstd::set_lib::{lemma_len_subset, lemma_set_subset_finite};

verus! {

/// The tiles of one kind, by the fingerprint of their key, and the table of
/// the textures that hold them.
pub struct StorageModel {
    pub tiles: Map<u64, AtlasTile>,
    pub textures: Seq<Option<TextureModel>>,
}

impl StorageModel {
    /// The storage with no tile and no texture.
    pub open spec fn empty() -> StorageModel {
        StorageModel { tiles: Map::empty(), textures: Seq::empty() }
    }

    /// The fingerprints of the keys whose tile lives in the texture of slot
    /// `index`.
    pub open spec fn keys_in(self, index: int) -> Set<u64> {
        Set::new(|f: u64| self.tiles.contains_key(f) && self.tiles[f].texture_id.index == index)
    }

    /// True when slot `index` holds a texture.
    pub open spec fn is_live(self, index: int) -> bool {
        0 <= index < self.textures.len() && self.textures[index] is Some
    }

    /// A tile of a storage of the given kind is in order: it names a texture
    /// of that kind that lives, its bounds are a live region of that
    /// texture, and it has no padding.
    pub open spec fn tile_wf(self, kind: AtlasTextureKind, tile: AtlasTile) -> bool {
        &&& tile.texture_id.kind == kind
        &&& self.is_live(tile.texture_id.index as int)
        &&& (self.textures[tile.texture_id.index as int]->0).regions().contains(tile.bounds)
        &&& tile.padding == 0
    }

    /// True when `bounds` is the rectangle of the tile of some key whose
    /// tile lives in the texture of slot `index`.
    pub open spec fn is_tile_of(self, index: int, bounds: Bounds) -> bool {
        exists|f: u64| #[trigger] self.keys_in(index).contains(f) && self.tiles[f].bounds == bounds
    }

    /// A texture in slot `index` is in order: it is well formed, no larger
    /// than the limit, counts exactly the keys whose tile lives in it, of
    /// which there is at least one, and each of its live regions is the
    /// tile of such a key.
    pub open spec fn texture_wf(self, limit: u32, index: int, texture: TextureModel) -> bool {
        &&& texture.wf()
        &&& texture.size.width <= limit
        &&& texture.size.height <= limit
        &&& texture.live_keys == self.keys_in(index).len()
        &&& texture.live_keys > 0
        &&& forall|bounds: Bounds| #[trigger]
            texture.regions().contains(bounds) ==> self.is_tile_of(index, bounds)
    }

    /// What the atlas keeps true of the tiles and textures of one kind:
    /// there are finitely many keys, every texture and every tile is in
    /// order, and two keys never share a region.
    pub open spec fn wf(self, kind: AtlasTextureKind, limit: u32) -> bool {
        &&& self.tiles.dom().finite()
        &&& forall|i: int|
            0 <= i < self.textures.len() ==> (#[trigger] self.textures[i] matches Some(texture)
                ==> self.texture_wf(limit, i, texture))
        &&& forall|f: u64| #[trigger]
            self.tiles.contains_key(f) ==> self.tile_wf(kind, self.tiles[f])
        &&& forall|f: u64, g: u64|
            #![trigger self.tiles[f], self.tiles[g]]
            self.tiles.contains_key(f) && self.tiles.contains_key(g) && f != g
                && self.tiles[f].texture_id == self.tiles[g].texture_id ==> self.tiles[f].bounds
                != self.tiles[g].bounds
    }

    /// True when a new tile of the given size needs a new texture.
    pub open spec fn needs_texture(self, size: Size) -> bool {
        !some_texture_has_room(self.textures, size)
    }

    /// The slot of the texture that takes a new tile of the given size: the
    /// first texture with room, else the slot of a new texture.
    pub open spec fn slot_for(self, size: Size) -> int {
        if self.needs_texture(size) {
            next_slot(self.textures)
        } else {
            first_with_room(self.textures, size)
        }
    }

    /// The texture that takes a new tile of the given size, as it is before
    /// the tile is placed.
    pub open spec fn texture_for(self, limit: u32, size: Size) -> TextureModel {
        if self.needs_texture(size) {
            TextureModel::fresh(texture_size_for(size, limit))
        } else {
            self.textures[first_with_room(self.textures, size)]->0
        }
    }

    /// The tile that inserting a key with content of the given size hands out.
    pub open spec fn tile_for(self, kind: AtlasTextureKind, limit: u32, size: Size) -> AtlasTile {
        let texture = self.texture_for(limit, size);
        AtlasTile {
            texture_id: AtlasTextureId { index: self.slot_for(size) as usize, kind },
            bounds: placement(texture.layout, texture.size, size),
            padding: 0,
        }
    }

    /// The storage after a key with content of the given size was inserted.
    pub open spec fn inserted(
        self,
        kind: AtlasTextureKind,
        limit: u32,
        fingerprint: u64,
        size: Size,
    ) -> StorageModel {
        let texture = self.texture_for(limit, size);
        StorageModel {
            tiles: self.tiles.insert(fingerprint, self.tile_for(kind, limit, size)),
            textures: with_texture(
                self.textures,
                self.slot_for(size),
                TextureModel { live_keys: texture.live_keys + 1, ..texture.with_region(size) },
            ),
        }
    }

    /// True when removing the key destroys the texture of its tile: the key
    /// is there and is the last one of that texture.
    pub open spec fn destroys_texture(self, fingerprint: u64) -> bool {
        &&& self.tiles.contains_key(fingerprint)
        &&& (self.textures[self.tiles[fingerprint].texture_id.index as int]->0).live_keys <= 1
    }

    /// The storage after a key was removed. Nothing changes when the key is
    /// not there.
    pub open spec fn removed(self, fingerprint: u64) -> StorageModel {
        if self.tiles.contains_key(fingerprint) {
            let tile = self.tiles[fingerprint];
            let index = tile.texture_id.index as int;
            StorageModel {
                tiles: self.tiles.remove(fingerprint),
                textures: self.textures.update(
                    index,
                    texture_without_tile(self.textures[index]->0, tile.bounds),
                ),
            }
        } else {
            self
        }
    }

    /// The keys of one texture are finitely many, and no more than all the keys.
    pub proof fn lemma_keys_in(self, index: int)
        requires
            self.tiles.dom().finite(),
        ensures
            self.keys_in(index).finite(),
            self.keys_in(index).len() <= self.tiles.dom().len(),
    {
        assert(self.keys_in(index).subset_of(self.tiles.dom()));
        lemma_set_subset_finite(self.tiles.dom(), self.keys_in(index));
        lemma_len_subset(self.keys_in(index), self.tiles.dom());
    }

    /// Inserting a key that is not there, with content that is not empty and
    /// within the limit, keeps the storage in order. The tile handed out has
    /// the size of the content and lies in a texture that had room for it;
    /// in a new texture it lies in the top-left corner.
    pub proof fn lemma_inserted(
        self,
        kind: AtlasTextureKind,
        limit: u32,
        fingerprint: u64,
        size: Size,
    )
        requires
            self.wf(kind, limit),
            self.textures.len() <= usize::MAX,
            !self.tiles.contains_key(fingerprint),
            !size.is_empty(),
            size.width <= limit,
            size.height <= limit,
        ensures
            self.inserted(kind, limit, fingerprint, size).wf(kind, limit),
            self.needs_texture(size) ==> is_next_slot(self.textures, self.slot_for(size)),
            !self.needs_texture(size) ==> is_first_with_room(
                self.textures,
                size,
                self.slot_for(size),
            ),
            self.texture_for(limit, size).wf(),
            self.texture_for(limit, size).has_room(size),
            self.tile_for(kind, limit, size).bounds.size == size,
            self.tile_for(kind, limit, size).bounds.within(self.texture_for(limit, size).size),
            self.needs_texture(size) ==> self.tile_for(kind, limit, size).bounds.origin == (Point {
                x: 0,
                y: 0,
            }),
            self.inserted(kind, limit, fingerprint, size).tile_wf(
                kind,
                self.tile_for(kind, limit, size),
            ),
    {
        let after = self.inserted(kind, limit, fingerprint, size);
        let tile = self.tile_for(kind, limit, size);
        let i = self.slot_for(size);
        let texture = self.texture_for(limit, size);
        if self.needs_texture(size) {
            lemma_next_slot_exists(self.textures);
            lemma_texture_size_for(size, limit);
            lemma_empty_layout_has_room(texture.size, size);
            assert(self.keys_in(i) =~= Set::<u64>::empty()) by {
                assert forall|g: u64| !self.keys_in(i).contains(g) by {
                    if self.tiles.contains_key(g) && self.tiles[g].texture_id.index == i {
                        assert(self.tile_wf(kind, self.tiles[g]));
                    }
                }
            }
        } else {
            lemma_first_with_room_exists(self.textures, size);
            assert(self.texture_wf(limit, i, texture));
            assert(texture.live_keys == self.keys_in(i).len());
        }
        lemma_allocate(texture.layout, texture.size, size);
        let placed_texture = TextureModel {
            live_keys: texture.live_keys + 1,
            ..texture.with_region(size)
        };
        assert(after.textures[i] == Some(placed_texture));
        self.lemma_keys_in(i);
        assert(after.keys_in(i) =~= self.keys_in(i).insert(fingerprint));
        assert forall|k: int| 0 <= k < after.textures.len() implies (
        #[trigger] after.textures[k] matches Some(t) ==> after.texture_wf(limit, k, t)) by {
            if after.textures[k] is Some {
                let t = after.textures[k]->0;
                if k != i {
                    assert(self.textures[k] == after.textures[k]);
                    assert(self.texture_wf(limit, k, t));
                    assert(after.keys_in(k) =~= self.keys_in(k));
                    assert forall|bounds: Bounds| #[trigger]
                        t.regions().contains(bounds) implies after.is_tile_of(k, bounds) by {
                        assert(self.is_tile_of(k, bounds));
                        let f = choose|f: u64| #[trigger]
                            self.keys_in(k).contains(f) && self.tiles[f].bounds == bounds;
                        assert(after.keys_in(k).contains(f));
                    }
                } else {
                    assert forall|bounds: Bounds| #[trigger]
                        t.regions().contains(bounds) implies after.is_tile_of(k, bounds) by {
                        if bounds == tile.bounds {
                            assert(after.keys_in(k).contains(fingerprint));
                        } else {
                            assert(texture.regions().contains(bounds));
                            assert(self.is_tile_of(k, bounds));
                            let f = choose|f: u64| #[trigger]
                                self.keys_in(k).contains(f) && self.tiles[f].bounds == bounds;
                            assert(after.keys_in(k).contains(f));
                        }
                    }
                }
            }
        }
        assert forall|g: u64| #[trigger] after.tiles.contains_key(g) implies after.tile_wf(
            kind,
            after.tiles[g],
        ) by {
            if g != fingerprint {
                assert(self.tiles.contains_key(g));
                assert(self.tile_wf(kind, self.tiles[g]));
            }
        }
        assert forall|f: u64, g: u64|
            #![trigger after.tiles[f], after.tiles[g]]
            after.tiles.contains_key(f) && after.tiles.contains_key(g) && f != g
                && after.tiles[f].texture_id == after.tiles[g].texture_id implies after.tiles[f].bounds
            != after.tiles[g].bounds by {
            if f == fingerprint {
                assert(self.tile_wf(kind, self.tiles[g]));
            } else if g == fingerprint {
                assert(self.tile_wf(kind, self.tiles[f]));
            } else {
                assert(self.tiles[f].bounds != self.tiles[g].bounds);
            }
        }
    }

    /// Removing a key keeps the storage in order.
    pub proof fn lemma_removed(self, kind: AtlasTextureKind, limit: u32, fingerprint: u64)
        requires
            self.wf(kind, limit),
        ensures
            self.removed(fingerprint).wf(kind, limit),
            !self.removed(fingerprint).tiles.contains_key(fingerprint),
            self.destroys_texture(fingerprint) ==> !self.removed(fingerprint).is_live(
                self.tiles[fingerprint].texture_id.index as int,
            ),
    {
        if self.tiles.contains_key(fingerprint) {
            let after = self.removed(fingerprint);
            let tile = self.tiles[fingerprint];
            let i = tile.texture_id.index as int;
            assert(self.tile_wf(kind, tile));
            let texture = self.textures[i]->0;
            assert(self.texture_wf(limit, i, texture));
            self.lemma_keys_in(i);
            assert(after.keys_in(i) =~= self.keys_in(i).remove(fingerprint));
            assert(self.keys_in(i).contains(fingerprint));
            if texture.live_keys > 1 {
                lemma_free(texture.layout, texture.size, tile.bounds);
            } else {
                assert(after.keys_in(i).len() == 0);
                assert(after.keys_in(i) =~= Set::<u64>::empty());
            }
            assert forall|k: int| 0 <= k < after.textures.len() implies (
            #[trigger] after.textures[k] matches Some(t) ==> after.texture_wf(limit, k, t)) by {
                if k != i {
                    if after.textures[k] is Some {
                        assert(self.textures[k] == after.textures[k]);
                        assert(self.texture_wf(limit, k, self.textures[k]->0));
                        assert(after.keys_in(k) =~= self.keys_in(k));
                    }
                }
            }
            assert forall|g: u64| #[trigger] after.tiles.contains_key(g) implies after.tile_wf(
                kind,
                after.tiles[g],
            ) by {
                assert(self.tiles.contains_key(g));
                assert(self.tile_wf(kind, self.tiles[g]));
                if self.tiles[g].texture_id.index == i {
                    assert(after.keys_in(i).contains(g));
                    assert(self.tiles[g].texture_id == tile.texture_id);
                    assert(self.tiles[g].bounds != self.tiles[fingerprint].bounds);
                }
            }
            assert forall|f: u64, g: u64|
                #![trigger after.tiles[f], after.tiles[g]]
                after.tiles.contains_key(f) && after.tiles.contains_key(g) && f != g
                    && after.tiles[f].texture_id == after.tiles[g].texture_id implies after.tiles[f].bounds
                != after.tiles[g].bounds by {
                assert(self.tiles[f].bounds != self.tiles[g].bounds);
            }
        }
    }
}

/// Where some texture has room, there is a first one.
pub proof fn lemma_first_with_room_exists(textures: Seq<Option<TextureModel>>, size: Size)
    requires
        some_texture_has_room(textures, size),
    ensures
        is_first_with_room(textures, size, first_with_room(textures, size)),
{
    let w = choose|i: int| slot_has_room(textures, size, i);
    lemma_least_with_room(textures, size, w);
}

proof fn lemma_least_with_room(textures: Seq<Option<TextureModel>>, size: Size, w: int)
    requires
        slot_has_room(textures, size, w),
    ensures
        exists|i: int| is_first_with_room(textures, size, i),
    decreases w,
{
    if exists|k: int| 0 <= k < w && slot_has_room(textures, size, k) {
        let k = choose|k: int| 0 <= k < w && slot_has_room(textures, size, k);
        lemma_least_with_room(textures, size, k);
    } else {
        assert(is_first_with_room(textures, size, w));
    }
}

/// Every table has a next slot.
pub proof fn lemma_next_slot_exists(textures: Seq<Option<TextureModel>>)
    ensures
        is_next_slot(textures, next_slot(textures)),
{
    lemma_least_free(textures, textures.len() as int);
}

proof fn lemma_least_free(textures: Seq<Option<TextureModel>>, w: int)
    requires
        0 <= w <= textures.len(),
        w < textures.len() ==> textures[w] is None,
    ensures
        exists|i: int| is_next_slot(textures, i),
    decreases w,
{
    if exists|k: int| 0 <= k < w && (#[trigger] textures[k]) is None {
        let k = choose|k: int| 0 <= k < w && (#[trigger] textures[k]) is None;
        lemma_least_free(textures, k);
    } else {
        assert(is_next_slot(textures, w));
    }
}

} // verus!
