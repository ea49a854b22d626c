//! The mathematics of the whole atlas: the tiles and textures of both kinds,
//! what waits for the next frame, and what each operation does to them.

use crate::atlas_texture::TextureModel;
use crate::atlas_types::{
    AllocationError, AtlasError, AtlasKey, AtlasTextureId, AtlasTextureKind, AtlasTile,
    BuildError, PendingUpload, TextureInit,
};
use crate::geometry::{Bounds, Size};
use crate::shelf_layout::{lemma_live_region_within, lemma_live_regions_apart};
use crate::storage_model::StorageModel;
use vstd::prelude::*;

verus! {

/// The state of an atlas.
pub struct AtlasModel {
    /// The largest width and height of a backing texture.
    pub limit: u32,
    /// The one-channel tiles and their textures.
    pub monochrome: StorageModel,
    /// The four-channel tiles and their textures.
    pub polychrome: StorageModel,
    /// The textures that wait to be created on the device, oldest first.
    pub initializations: Seq<AtlasTextureId>,
    /// The copies that wait to be encoded, oldest first.
    pub uploads: Seq<PendingUpload>,
    /// The bytes of the waiting uploads, one after the other.
    pub staging: Seq<u8>,
    /// The number of staged bytes handed to the current frame and not yet
    /// released.
    pub in_flight: nat,
}

/// True of the uploads that do not go to the texture `id`.
pub open spec fn not_into(id: AtlasTextureId) -> spec_fn(PendingUpload) -> bool {
    |upload: PendingUpload| upload.id != id
}

/// True of the texture ids other than `id`.
pub open spec fn other_than(id: AtlasTextureId) -> spec_fn(AtlasTextureId) -> bool {
    |other: AtlasTextureId| other != id
}

impl AtlasModel {
    /// An atlas with nothing in it.
    pub open spec fn empty(limit: u32) -> AtlasModel {
        AtlasModel {
            limit,
            monochrome: StorageModel::empty(),
            polychrome: StorageModel::empty(),
            initializations: Seq::empty(),
            uploads: Seq::empty(),
            staging: Seq::empty(),
            in_flight: 0,
        }
    }

    /// The tiles and textures of one kind.
    pub open spec fn storage(self, kind: AtlasTextureKind) -> StorageModel {
        match kind {
            AtlasTextureKind::Monochrome => self.monochrome,
            AtlasTextureKind::Polychrome => self.polychrome,
        }
    }

    /// The atlas with other tiles and textures of one kind.
    pub open spec fn with_storage(self, kind: AtlasTextureKind, storage: StorageModel) -> AtlasModel {
        match kind {
            AtlasTextureKind::Monochrome => AtlasModel { monochrome: storage, ..self },
            AtlasTextureKind::Polychrome => AtlasModel { polychrome: storage, ..self },
        }
    }

    /// True when the key has a tile.
    pub open spec fn contains(self, key: AtlasKey) -> bool {
        self.storage(key.kind).tiles.contains_key(key.fingerprint)
    }

    /// The tile of a key that has one.
    pub open spec fn tile(self, key: AtlasKey) -> AtlasTile {
        self.storage(key.kind).tiles[key.fingerprint]
    }

    /// The tile of a key, if it has one.
    pub open spec fn lookup(self, key: AtlasKey) -> Option<AtlasTile> {
        if self.contains(key) {
            Some(self.tile(key))
        } else {
            None
        }
    }

    /// True when the id names a texture that lives.
    pub open spec fn is_live(self, id: AtlasTextureId) -> bool {
        self.storage(id.kind).is_live(id.index as int)
    }

    /// The texture that a live id names.
    pub open spec fn texture(self, id: AtlasTextureId) -> TextureModel {
        self.storage(id.kind).textures[id.index as int]->0
    }

    /// The number of keys whose tile lives in the texture that a live id names.
    pub open spec fn ref_count(self, id: AtlasTextureId) -> nat {
        self.texture(id).live_keys
    }

    /// A tile can be no larger than a texture can be.
    pub open spec fn accepts(self, size: Size) -> bool {
        size.width <= self.limit && size.height <= self.limit
    }

    /// A waiting upload is in order: its texture lives, its rectangle is not
    /// empty and lies on the texture, and its bytes lie in the staging area.
    pub open spec fn upload_wf(self, upload: PendingUpload) -> bool {
        &&& self.is_live(upload.id)
        &&& upload.bounds.within(self.texture(upload.id).size)
        &&& !upload.bounds.size.is_empty()
        &&& upload.offset + upload.len <= self.staging.len()
    }

    /// What the atlas keeps true: the tiles and textures of both kinds are
    /// in order, every waiting upload is in order, and the textures that
    /// wait to be created live and are listed once.
    pub open spec fn wf(self) -> bool {
        &&& self.monochrome.wf(AtlasTextureKind::Monochrome, self.limit)
        &&& self.polychrome.wf(AtlasTextureKind::Polychrome, self.limit)
        &&& forall|k: int| 0 <= k < self.uploads.len() ==> self.upload_wf(#[trigger] self.uploads[k])
        &&& forall|k: int|
            0 <= k < self.initializations.len() ==> self.is_live(#[trigger] self.initializations[k])
        &&& self.initializations.no_duplicates()
    }

    /// The atlas after a key that has no tile got one, for content of the
    /// given size and bytes: the tile is placed, its bytes are staged behind
    /// those that wait already, a copy of them into the tile's rectangle is
    /// queued, and a texture made for the tile is queued for creation.
    pub open spec fn inserted(self, key: AtlasKey, size: Size, bytes: Seq<u8>) -> AtlasModel {
        let storage = self.storage(key.kind);
        let tile = storage.tile_for(key.kind, self.limit, size);
        let grown = self.with_storage(
            key.kind,
            storage.inserted(key.kind, self.limit, key.fingerprint, size),
        );
        AtlasModel {
            initializations: if storage.needs_texture(size) {
                self.initializations.push(tile.texture_id)
            } else {
                self.initializations
            },
            uploads: self.uploads.push(
                PendingUpload {
                    id: tile.texture_id,
                    bounds: tile.bounds,
                    offset: self.staging.len() as usize,
                    len: bytes.len() as usize,
                },
            ),
            staging: self.staging + bytes,
            ..grown
        }
    }

    /// The atlas after a key was removed: its tile is gone; the texture of
    /// the tile counts one key less, or, where the key was its last one, is
    /// gone too, together with what waited for it. Nothing changes when the
    /// key has no tile.
    pub open spec fn removed(self, key: AtlasKey) -> AtlasModel {
        let storage = self.storage(key.kind);
        let shrunk = self.with_storage(key.kind, storage.removed(key.fingerprint));
        if storage.destroys_texture(key.fingerprint) {
            let id = storage.tiles[key.fingerprint].texture_id;
            AtlasModel {
                initializations: self.initializations.filter(other_than(id)),
                uploads: self.uploads.filter(not_into(id)),
                ..shrunk
            }
        } else {
            shrunk
        }
    }

    /// The texture that removing a key destroys: the texture of the key's
    /// tile, where the key has a tile and is the last one of that texture.
    pub open spec fn destroyed_by(self, key: AtlasKey) -> Option<AtlasTextureId> {
        if self.storage(key.kind).destroys_texture(key.fingerprint) {
            Some(self.tile(key).texture_id)
        } else {
            None
        }
    }

    /// The textures to create before the next frame, with their sizes.
    pub open spec fn frame_initializations(self) -> Seq<TextureInit> {
        Seq::new(
            self.initializations.len(),
            |k: int|
                TextureInit {
                    id: self.initializations[k],
                    size: self.texture(self.initializations[k]).size,
                },
        )
    }

    /// The atlas after its queues were handed to a frame: nothing waits any
    /// more, and the staged bytes are in flight.
    pub open spec fn flushed(self) -> AtlasModel {
        AtlasModel {
            initializations: Seq::empty(),
            uploads: Seq::empty(),
            staging: Seq::empty(),
            in_flight: self.staging.len(),
            ..self
        }
    }

    /// The atlas after the frame ended: no bytes are in flight.
    pub open spec fn frame_ended(self) -> AtlasModel {
        AtlasModel { in_flight: 0, ..self }
    }

    /// What inserting a key that has no tile returns, given what its builder
    /// made: the builder's error; nothing for empty content; an allocation
    /// error for content larger than a texture can be; else the new tile.
    pub open spec fn built_result(
        self,
        key: AtlasKey,
        built: Result<Option<(Size, Vec<u8>)>, BuildError>,
    ) -> Result<Option<AtlasTile>, AtlasError> {
        match built {
            Err(error) => Err(AtlasError::Build(error)),
            Ok(None) => Ok(None),
            Ok(Some((size, bytes))) => if size.is_empty() {
                Ok(None)
            } else if !self.accepts(size) {
                Err(AtlasError::Allocation(AllocationError { requested: size, limit: self.limit }))
            } else {
                Ok(Some(self.storage(key.kind).tile_for(key.kind, self.limit, size)))
            },
        }
    }

    /// The atlas after inserting a key that has no tile, given what its
    /// builder made: changed only where a tile is returned.
    pub open spec fn built_state(
        self,
        key: AtlasKey,
        built: Result<Option<(Size, Vec<u8>)>, BuildError>,
    ) -> AtlasModel {
        match built {
            Ok(Some((size, bytes))) => if !size.is_empty() && self.accepts(size) {
                self.inserted(key, size, bytes@)
            } else {
                self
            },
            _ => self,
        }
    }

    /// The tile of a key is of the key's kind, has no padding, and is a
    /// rectangle, not empty, of a texture that lives; no other key of that
    /// texture has a tile that shares a pixel with it.
    pub proof fn lemma_tile(self, key: AtlasKey)
        requires
            self.wf(),
            self.contains(key),
        ensures
            self.tile(key).texture_id.kind == key.kind,
            self.tile(key).padding == 0,
            self.is_live(self.tile(key).texture_id),
            !self.tile(key).bounds.size.is_empty(),
            self.tile(key).bounds.within(self.texture(self.tile(key).texture_id).size),
            self.texture(self.tile(key).texture_id).regions().contains(self.tile(key).bounds),
            forall|other: AtlasKey|
                self.contains(other) && other != key && self.tile(other).texture_id == self.tile(
                    key,
                ).texture_id ==> !self.tile(key).bounds.overlaps(self.tile(other).bounds),
    {
        let storage = self.storage(key.kind);
        let tile = self.tile(key);
        assert(storage.tile_wf(key.kind, tile));
        let index = tile.texture_id.index as int;
        let texture = storage.textures[index]->0;
        assert(storage.texture_wf(self.limit, index, texture));
        lemma_live_region_within(texture.layout, texture.size, tile.bounds);
        assert forall|other: AtlasKey|
            self.contains(other) && other != key && self.tile(other).texture_id
                == tile.texture_id implies !tile.bounds.overlaps(self.tile(other).bounds) by {
            assert(self.storage(other.kind).tile_wf(other.kind, self.tile(other)));
            assert(other.kind == key.kind);
            assert(storage.tiles[key.fingerprint].bounds != storage.tiles[other.fingerprint].bounds);
            lemma_live_regions_apart(
                texture.layout,
                texture.size,
                tile.bounds,
                self.tile(other).bounds,
            );
        }
    }

    /// Every live region of a texture that lives is the tile of a key, and
    /// the texture counts as many keys as it has live regions to give: one
    /// at least.
    pub proof fn law_region_is_a_tile(self, id: AtlasTextureId, bounds: Bounds)
        requires
            self.wf(),
            self.is_live(id),
            self.texture(id).regions().contains(bounds),
        ensures
            self.ref_count(id) >= 1,
            exists|key: AtlasKey| #[trigger]
                self.contains(key) && self.tile(key) == (AtlasTile {
                    texture_id: id,
                    bounds,
                    padding: 0,
                }),
    {
        let storage = self.storage(id.kind);
        let index = id.index as int;
        assert(storage.texture_wf(self.limit, index, storage.textures[index]->0));
        assert(storage.is_tile_of(index, bounds));
        let f = choose|f: u64| #[trigger]
            storage.keys_in(index).contains(f) && storage.tiles[f].bounds == bounds;
        let key = AtlasKey { fingerprint: f, kind: id.kind };
        assert(storage.tile_wf(id.kind, storage.tiles[f]));
        assert(self.contains(key));
    }

    /// An atlas with nothing in it is in order.
    pub proof fn lemma_empty_wf(limit: u32)
        ensures
            Self::empty(limit).wf(),
    {
    }

    /// Giving a tile to a key that has none keeps the atlas in order, makes
    /// the key's tile the one handed out, and leaves the tiles of all other
    /// keys as they were.
    pub proof fn lemma_inserted(self, key: AtlasKey, size: Size, bytes: Seq<u8>)
        requires
            self.wf(),
            !self.contains(key),
            !size.is_empty(),
            self.accepts(size),
            self.storage(key.kind).textures.len() <= usize::MAX,
            self.staging.len() + bytes.len() <= usize::MAX,
        ensures
            self.inserted(key, size, bytes).wf(),
            self.inserted(key, size, bytes).lookup(key) == Some(
                self.storage(key.kind).tile_for(key.kind, self.limit, size),
            ),
            forall|other: AtlasKey|
                other != key ==> self.inserted(key, size, bytes).lookup(other) == self.lookup(
                    other,
                ),
    {
        let after = self.inserted(key, size, bytes);
        let storage = self.storage(key.kind);
        let tile = storage.tile_for(key.kind, self.limit, size);
        let i = storage.slot_for(size);
        storage.lemma_inserted(key.kind, self.limit, key.fingerprint, size);
        assert(after.storage(key.kind) == storage.inserted(
            key.kind,
            self.limit,
            key.fingerprint,
            size,
        ));
        assert(after.is_live(tile.texture_id));
        assert forall|id: AtlasTextureId| self.is_live(id) implies after.is_live(id)
            && after.texture(id).size == self.texture(id).size by {
            if id.kind == key.kind && id.index == i {
            }
        }
        assert forall|k: int| 0 <= k < after.uploads.len() implies after.upload_wf(
            #[trigger] after.uploads[k],
        ) by {
            if k < self.uploads.len() {
                assert(self.upload_wf(self.uploads[k]));
            }
        }
        assert forall|k: int| 0 <= k < after.initializations.len() implies after.is_live(
            #[trigger] after.initializations[k],
        ) by {
            if k < self.initializations.len() {
                assert(self.is_live(self.initializations[k]));
            }
        }
        assert(after.initializations.no_duplicates()) by {
            if storage.needs_texture(size) {
                assert(!self.is_live(tile.texture_id));
                assert forall|a: int, b: int|
                    0 <= a < after.initializations.len() && 0 <= b < after.initializations.len()
                        && a != b implies after.initializations[a] != after.initializations[b] by {
                    if a < self.initializations.len() {
                        assert(self.is_live(self.initializations[a]));
                    }
                    if b < self.initializations.len() {
                        assert(self.is_live(self.initializations[b]));
                    }
                }
            }
        }
        assert forall|other: AtlasKey| other != key implies after.lookup(other) == self.lookup(
            other,
        ) by {}
    }

    /// Removing a key keeps the atlas in order, leaves the key without a
    /// tile, and leaves the tiles of all other keys as they were.
    pub proof fn lemma_removed(self, key: AtlasKey)
        requires
            self.wf(),
        ensures
            self.removed(key).wf(),
            !self.removed(key).contains(key),
            forall|other: AtlasKey|
                other != key ==> self.removed(key).lookup(other) == self.lookup(other),
    {
        broadcast use {
            Seq::lemma_filter_pred,
            Seq::lemma_filter_contains_rev,
            vstd::seq_lib::lemma_seq_contains,
        };

        let after = self.removed(key);
        let storage = self.storage(key.kind);
        storage.lemma_removed(key.kind, self.limit, key.fingerprint);
        assert(after.storage(key.kind) == storage.removed(key.fingerprint));
        if storage.tiles.contains_key(key.fingerprint) {
            let id = storage.tiles[key.fingerprint].texture_id;
            assert(storage.tile_wf(key.kind, storage.tiles[key.fingerprint]));
            assert forall|other: AtlasTextureId|
                self.is_live(other) && (other != id || !storage.destroys_texture(
                    key.fingerprint,
                )) implies after.is_live(other) && after.texture(other).size == self.texture(
                other,
            ).size by {}
            if storage.destroys_texture(key.fingerprint) {
                assert forall|k: int| 0 <= k < after.uploads.len() implies after.upload_wf(
                    #[trigger] after.uploads[k],
                ) by {
                    let upload = after.uploads[k];
                    assert(not_into(id)(upload));
                    assert(self.uploads.filter(not_into(id)).contains(upload));
                    assert(self.uploads.contains(upload));
                    let w = choose|w: int| 0 <= w < self.uploads.len() && self.uploads[w] == upload;
                    assert(self.upload_wf(self.uploads[w]));
                }
                assert forall|k: int| 0 <= k < after.initializations.len() implies after.is_live(
                    #[trigger] after.initializations[k],
                ) by {
                    let other = after.initializations[k];
                    assert(other_than(id)(other));
                    assert(self.initializations.filter(other_than(id)).contains(other));
                    assert(self.initializations.contains(other));
                    let w = choose|w: int|
                        0 <= w < self.initializations.len() && self.initializations[w] == other;
                    assert(self.is_live(self.initializations[w]));
                }
                lemma_filter_no_duplicates(self.initializations, other_than(id));
            } else {
                assert forall|k: int| 0 <= k < after.uploads.len() implies after.upload_wf(
                    #[trigger] after.uploads[k],
                ) by {
                    assert(self.upload_wf(self.uploads[k]));
                }
                assert forall|k: int| 0 <= k < after.initializations.len() implies after.is_live(
                    #[trigger] after.initializations[k],
                ) by {
                    assert(self.is_live(self.initializations[k]));
                }
            }
        }
        assert forall|other: AtlasKey| other != key implies after.lookup(other) == self.lookup(
            other,
        ) by {}
    }

    /// Handing the queues to a frame, and ending the frame, keep the atlas
    /// in order and leave every tile and texture as it was.
    pub proof fn lemma_frame(self)
        requires
            self.wf(),
        ensures
            self.flushed().wf(),
            self.frame_ended().wf(),
            self.flushed().frame_ended().wf(),
    {
        assert forall|k: int| 0 <= k < self.uploads.len() implies self.frame_ended().upload_wf(
            #[trigger] self.frame_ended().uploads[k],
        ) by {
            assert(self.upload_wf(self.uploads[k]));
        }
        assert forall|k: int|
            0 <= k < self.initializations.len() implies self.frame_ended().is_live(
            #[trigger] self.frame_ended().initializations[k],
        ) by {
            assert(self.is_live(self.initializations[k]));
        }
    }
}

/// True when `tile` can be the tile of `key`: it is of the key's kind, has
/// no padding, and is not empty.
pub open spec fn tile_suits(key: AtlasKey, tile: AtlasTile) -> bool {
    &&& tile.texture_id.kind == key.kind
    &&& tile.padding == 0
    &&& !tile.bounds.size.is_empty()
}

/// What holds of the result of inserting a key that had no tile, whatever
/// the atlas held, given what the builder made: the builder's error is
/// handed on; no content and empty content give no tile; other content
/// gives a tile of its size that suits the key, or an allocation error that
/// names a limit which the size exceeds.
pub open spec fn answers(
    key: AtlasKey,
    built: Result<Option<(Size, Vec<u8>)>, BuildError>,
    result: Result<Option<AtlasTile>, AtlasError>,
) -> bool {
    match built {
        Err(error) => result == Err::<Option<AtlasTile>, AtlasError>(AtlasError::Build(error)),
        Ok(None) => result == Ok::<Option<AtlasTile>, AtlasError>(None),
        Ok(Some((size, bytes))) => if size.is_empty() {
            result == Ok::<Option<AtlasTile>, AtlasError>(None)
        } else {
            match result {
                Ok(Some(tile)) => tile_suits(key, tile) && tile.bounds.size == size,
                Err(AtlasError::Allocation(error)) => error.requested == size && (size.width
                    > error.limit || size.height > error.limit),
                _ => false,
            }
        },
    }
}

/// Filtering a sequence in which nothing occurs twice gives such a sequence.
pub proof fn lemma_filter_no_duplicates<A>(s: Seq<A>, pred: spec_fn(A) -> bool)
    requires
        s.no_duplicates(),
    ensures
        s.filter(pred).no_duplicates(),
    decreases s.len(),
{
    reveal(Seq::filter);
    if s.len() > 0 {
        let rest = s.drop_last();
        lemma_filter_no_duplicates(rest, pred);
        if pred(s.last()) {
            let kept = rest.filter(pred);
            if kept.contains(s.last()) {
                rest.lemma_filter_contains_rev(pred, s.last());
                let w = choose|w: int| 0 <= w < rest.len() && rest[w] == s.last();
                assert(s[w] == s[s.len() - 1]);
            }
            assert forall|a: int, b: int|
                0 <= a < kept.push(s.last()).len() && 0 <= b < kept.push(s.last()).len() && a
                    != b implies kept.push(s.last())[a] != kept.push(s.last())[b] by {
                if a == kept.len() {
                    assert(kept.contains(kept[b]));
                } else if b == kept.len() {
                    assert(kept.contains(kept[a]));
                }
            }
        }
    }
}

} // verus!
