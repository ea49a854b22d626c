//! The tiles and backing textures of one kind, kept in step: every tile
//! lives in a live texture, every texture counts its tiles, and a texture
//! that loses its last tile gives its slot back.

use crate::atlas_texture::{TextureModel, WgpuAtlasTexture};
use crate::atlas_texture_list::{
    is_first_with_room, lemma_first_with_room, slot_has_room, with_texture, AtlasTextureList,
};
use crate::atlas_types::{AtlasTextureId, AtlasTextureKind, AtlasTile};
use crate::geometry::Size;
use crate::storage_model::StorageModel;
use std::collections::HashMap;
use vstd::prelude::*;
use vstd::std_specs::hash::*;

verus! {

/// The tiles of one kind, by the fingerprint of their key, and the textures
/// that hold them.
pub(crate) struct AtlasStorage {
    limit: u32,
    tiles: HashMap<u64, AtlasTile>,
    textures: AtlasTextureList,
}

impl AtlasStorage {
    /// The kind of the tiles and textures.
    pub(crate) closed spec fn kind(&self) -> AtlasTextureKind {
        self.textures.kind()
    }

    /// The largest width and height of a texture.
    pub(crate) closed spec fn limit(&self) -> u32 {
        self.limit
    }

    pub(crate) closed spec fn view(&self) -> StorageModel {
        StorageModel { tiles: self.tiles@, textures: self.textures@ }
    }

    /// The invariant of the storage.
    pub(crate) closed spec fn wf(&self) -> bool {
        &&& self.textures.wf()
        &&& self@.wf(self.kind(), self.limit)
    }

    /// In a well-formed storage the model is in order and the table fits
    /// the machine.
    pub(crate) proof fn lemma_wf(&self)
        requires
            self.wf(),
        ensures
            self@.wf(self.kind(), self.limit()),
            self@.textures.len() <= usize::MAX,
    {
        self.textures.lemma_len();
    }

    /// A storage with no tile and no texture.
    pub(crate) fn new(kind: AtlasTextureKind, limit: u32) -> (r: Self)
        ensures
            r.wf(),
            r.kind() == kind,
            r.limit() == limit,
            r@ == StorageModel::empty(),
    {
        let r = AtlasStorage { limit, tiles: HashMap::new(), textures: AtlasTextureList::new(kind) };
        proof {
            assert(r@.tiles =~= Map::<u64, AtlasTile>::empty());
        }
        r
    }

    /// The largest width and height of a texture.
    pub(crate) fn max_texture_size(&self) -> (r: u32)
        ensures
            r == self.limit(),
    {
        self.limit
    }

    /// The tile of the key with the given fingerprint, if the key is there.
    pub(crate) fn get(&self, fingerprint: u64) -> (r: Option<AtlasTile>)
        ensures
            r == if self@.tiles.contains_key(fingerprint) {
                Some(self@.tiles[fingerprint])
            } else {
                None
            },
    {
        broadcast use group_hash_axioms;

        match self.tiles.get(&fingerprint) {
            Some(tile) => Some(*tile),
            None => None,
        }
    }

    /// The texture in slot `index`, or `None` when the slot is free or does
    /// not exist.
    pub(crate) fn texture(&self, index: usize) -> (r: Option<&WgpuAtlasTexture>)
        requires
            self.wf(),
        ensures
            r is Some <==> self@.is_live(index as int),
            r matches Some(texture) ==> {
                &&& Some(texture@) == self@.textures[index as int]
                &&& texture.id() == (AtlasTextureId { index, kind: self.kind() })
            },
    {
        self.textures.get(index)
    }

    /// Places a tile for a key that is not there yet, with content of the
    /// given size, and counts the key in the texture that takes the tile.
    /// Returns the tile, and whether a new texture was made for it.
    pub(crate) fn insert(&mut self, fingerprint: u64, size: Size) -> (r: (AtlasTile, bool))
        requires
            old(self).wf(),
            !old(self)@.tiles.contains_key(fingerprint),
            !size.is_empty(),
            size.width <= old(self).limit(),
            size.height <= old(self).limit(),
        ensures
            final(self).wf(),
            final(self).kind() == old(self).kind(),
            final(self).limit() == old(self).limit(),
            final(self)@ == old(self)@.inserted(
                old(self).kind(),
                old(self).limit(),
                fingerprint,
                size,
            ),
            r.0 == old(self)@.tile_for(old(self).kind(), old(self).limit(), size),
            r.1 == old(self)@.needs_texture(size),
    {
        broadcast use group_hash_axioms;

        let ghost before = self@;
        let ghost kind = self.kind();
        let limit = self.limit;
        proof {
            self.textures.lemma_len();
            before.lemma_inserted(kind, limit, fingerprint, size);
        }
        let (tile, created) = match self.textures.allocate(size) {
            Some(tile) => (tile, false),
            None => {
                let index = self.textures.push_texture(size, limit);
                proof {
                    let grown = self.textures@;
                    assert forall|k: int| 0 <= k < index implies !slot_has_room(
                        grown,
                        size,
                        k,
                    ) by {
                        assert(grown[k] == before.textures[k]);
                        assert(!slot_has_room(before.textures, size, k));
                    }
                    assert(is_first_with_room(grown, size, index as int));
                    lemma_first_with_room(grown, size, index as int);
                }
                match self.textures.allocate(size) {
                    Some(tile) => (tile, true),
                    None => {
                        proof {
                            assert(false);
                        }
                        unreached()
                    },
                }
            },
        };
        let index = tile.texture_id.index;
        self.tiles.insert(fingerprint, tile);
        let count = self.tiles.len();
        proof {
            before.lemma_keys_in(index as int);
            assert(self.tiles@.dom() =~= before.tiles.dom().insert(fingerprint));
        }
        let ghost placed = self.textures@;
        self.textures.increment_ref_count(index);
        proof {
            let texture = before.texture_for(limit, size);
            let counted = TextureModel { live_keys: texture.live_keys + 1, ..texture.with_region(size) };
            assert(index == before.slot_for(size));
            assert(placed[index as int] == Some(texture.with_region(size)));
            assert(self.textures@ == placed.update(index as int, Some(counted)));
            assert(self.textures@ =~= with_texture(before.textures, index as int, counted));
        }
        (tile, created)
    }

    /// Removes a key. Returns its tile, and whether the texture of the tile
    /// was destroyed because the key was its last one; `None`, changing
    /// nothing, when the key is not there.
    pub(crate) fn remove(&mut self, fingerprint: u64) -> (r: Option<(AtlasTile, bool)>)
        requires
            old(self).wf(),
        ensures
            final(self).wf(),
            final(self).kind() == old(self).kind(),
            final(self).limit() == old(self).limit(),
            final(self)@ == old(self)@.removed(fingerprint),
            r == if old(self)@.tiles.contains_key(fingerprint) {
                Some((old(self)@.tiles[fingerprint], old(self)@.destroys_texture(fingerprint)))
            } else {
                None
            },
    {
        broadcast use group_hash_axioms;

        let ghost before = self@;
        proof {
            before.lemma_removed(self.kind(), self.limit, fingerprint);
        }
        match self.tiles.remove(&fingerprint) {
            Some(tile) => {
                proof {
                    assert(before.tiles.contains_key(fingerprint));
                    assert(tile == before.tiles[fingerprint]);
                    assert(self.tiles@ == before.tiles.remove(fingerprint));
                    assert(before.tile_wf(self.kind(), tile));
                }
                let destroyed = self.textures.remove_tile(tile.texture_id.index, tile.bounds);
                Some((tile, destroyed))
            },
            None => {
                proof {
                    assert(self.tiles@ =~= before.tiles);
                }
                None
            },
        }
    }
}

} // verus!
