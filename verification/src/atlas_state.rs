//! The state of the atlas and its operations: look a tile up, insert one,
//! remove one, hand the queues to a frame, end the frame.

use crate::atlas_model::{not_into, other_than, AtlasModel};
use crate::atlas_storage::AtlasStorage;
use crate::atlas_types::{
    AllocationError, AtlasError, AtlasKey, AtlasTextureId, AtlasTextureKind, AtlasTile,
    BuildError, FrameCommands, PendingUpload, TextureInit, WgpuTextureInfo,
};
use crate::atlas_texture_list::{is_first_with_room, is_next_slot};
use crate::geometry::{Point, Size};
use vstd::prelude::*;

verus! {

/// The uploads of `uploads`, in order, but for those that go to the texture `id`.
fn uploads_not_into(uploads: &Vec<PendingUpload>, id: AtlasTextureId) -> (r: Vec<PendingUpload>)
    ensures
        r@ == uploads@.filter(not_into(id)),
{
    let mut kept: Vec<PendingUpload> = Vec::new();
    let n = uploads.len();
    let mut k: usize = 0;
    proof {
        reveal(Seq::filter);
        assert(uploads@.take(0).filter(not_into(id)) =~= Seq::<PendingUpload>::empty());
    }
    while k < n
        invariant
            k <= n,
            n == uploads@.len(),
            kept@ == uploads@.take(k as int).filter(not_into(id)),
        decreases n - k,
    {
        let upload = uploads[k];
        proof {
            assert(uploads@.take(k + 1) =~= uploads@.take(k as int).push(upload));
            uploads@.take(k as int).lemma_filter_push(upload, not_into(id));
        }
        if upload.id != id {
            kept.push(upload);
        }
        k += 1;
    }
    proof {
        assert(uploads@.take(n as int) =~= uploads@);
    }
    kept
}

/// The ids of `ids`, in order, but for `id`.
fn ids_other_than(ids: &Vec<AtlasTextureId>, id: AtlasTextureId) -> (r: Vec<AtlasTextureId>)
    ensures
        r@ == ids@.filter(other_than(id)),
{
    let mut kept: Vec<AtlasTextureId> = Vec::new();
    let n = ids.len();
    let mut k: usize = 0;
    proof {
        reveal(Seq::filter);
        assert(ids@.take(0).filter(other_than(id)) =~= Seq::<AtlasTextureId>::empty());
    }
    while k < n
        invariant
            k <= n,
            n == ids@.len(),
            kept@ == ids@.take(k as int).filter(other_than(id)),
        decreases n - k,
    {
        let other = ids[k];
        proof {
            assert(ids@.take(k + 1) =~= ids@.take(k as int).push(other));
            ids@.take(k as int).lemma_filter_push(other, other_than(id));
        }
        if other != id {
            kept.push(other);
        }
        k += 1;
    }
    proof {
        assert(ids@.take(n as int) =~= ids@);
    }
    kept
}

/// The state of an atlas: the tiles of all keys, the backing textures of
/// both kinds, and what waits for the next frame.
pub struct WgpuAtlasState {
    monochrome: AtlasStorage,
    polychrome: AtlasStorage,
    initializations: Vec<AtlasTextureId>,
    uploads: Vec<PendingUpload>,
    staging: Vec<u8>,
    in_flight: usize,
}

impl WgpuAtlasState {
    pub closed spec fn view(&self) -> AtlasModel {
        AtlasModel {
            limit: self.monochrome.limit(),
            monochrome: self.monochrome@,
            polychrome: self.polychrome@,
            initializations: self.initializations@,
            uploads: self.uploads@,
            staging: self.staging@,
            in_flight: self.in_flight as nat,
        }
    }

    /// The invariant of the state.
    pub closed spec fn wf(&self) -> bool {
        &&& self.monochrome.wf()
        &&& self.polychrome.wf()
        &&& self.monochrome.kind() == AtlasTextureKind::Monochrome
        &&& self.polychrome.kind() == AtlasTextureKind::Polychrome
        &&& self.polychrome.limit() == self.monochrome.limit()
        &&& self@.wf()
    }

    /// In a well-formed state the model is in order and fits the machine.
    pub proof fn lemma_wf(&self)
        requires
            self.wf(),
        ensures
            self@.wf(),
            self@.monochrome.textures.len() <= usize::MAX,
            self@.polychrome.textures.len() <= usize::MAX,
            self@.staging.len() <= usize::MAX,
    {
        self.monochrome.lemma_wf();
        self.polychrome.lemma_wf();
        assert(self.staging.len() == self.staging@.len());
    }

    /// An atlas with nothing in it, whose textures are at most
    /// `max_texture_size` pixels wide and high.
    pub fn new(max_texture_size: u32) -> (r: Self)
        ensures
            r.wf(),
            r@ == AtlasModel::empty(max_texture_size),
    {
        WgpuAtlasState {
            monochrome: AtlasStorage::new(AtlasTextureKind::Monochrome, max_texture_size),
            polychrome: AtlasStorage::new(AtlasTextureKind::Polychrome, max_texture_size),
            initializations: Vec::new(),
            uploads: Vec::new(),
            staging: Vec::new(),
            in_flight: 0,
        }
    }

    /// The tile of a key, if it has one.
    pub fn get(&self, key: &AtlasKey) -> (r: Option<AtlasTile>)
        ensures
            r == self@.lookup(*key),
    {
        match key.kind {
            AtlasTextureKind::Monochrome => self.monochrome.get(key.fingerprint),
            AtlasTextureKind::Polychrome => self.polychrome.get(key.fingerprint),
        }
    }

    /// What a renderer needs to bind the texture `id`, or `None` when no
    /// such texture lives.
    pub fn texture_info(&self, id: AtlasTextureId) -> (r: Option<WgpuTextureInfo>)
        requires
            self.wf(),
        ensures
            r == if self@.is_live(id) {
                Some(
                    WgpuTextureInfo {
                        id,
                        size: self@.texture(id).size,
                        bytes_per_pixel: id.kind.bytes_per_pixel(),
                    },
                )
            } else {
                None
            },
    {
        let texture = match id.kind {
            AtlasTextureKind::Monochrome => self.monochrome.texture(id.index),
            AtlasTextureKind::Polychrome => self.polychrome.texture(id.index),
        };
        match texture {
            Some(texture) => Some(texture.info()),
            None => None,
        }
    }

    /// How many keys have their tile in the texture `id`, or `None` when no
    /// such texture lives.
    pub fn live_keys(&self, id: AtlasTextureId) -> (r: Option<usize>)
        requires
            self.wf(),
        ensures
            r == if self@.is_live(id) {
                Some(self@.ref_count(id) as usize)
            } else {
                None
            },
            r matches Some(count) ==> count == self@.ref_count(id) && count >= 1,
    {
        let texture = match id.kind {
            AtlasTextureKind::Monochrome => self.monochrome.texture(id.index),
            AtlasTextureKind::Polychrome => self.polychrome.texture(id.index),
        };
        match texture {
            Some(texture) => {
                proof {
                    self.lemma_wf();
                    let storage = self@.storage(id.kind);
                    assert(storage.texture_wf(
                        self@.limit,
                        id.index as int,
                        storage.textures[id.index as int]->0,
                    ));
                }
                Some(texture.live_keys())
            },
            None => None,
        }
    }

    /// What a renderer needs to bind the texture `id`, which must live.
    pub fn get_texture_info(&self, id: AtlasTextureId) -> (r: WgpuTextureInfo)
        requires
            self.wf(),
            self@.is_live(id),
        ensures
            r == (WgpuTextureInfo {
                id,
                size: self@.texture(id).size,
                bytes_per_pixel: id.kind.bytes_per_pixel(),
            }),
    {
        self.texture_info(id).unwrap()
    }

    /// Inserts a key, given what its builder made.
    ///
    /// A key that has a tile keeps it: the tile is returned and nothing
    /// changes. Else a builder's error is handed on; empty content stores
    /// nothing; content larger than a texture can be is an allocation
    /// error; and other content gets a tile in the first texture of the
    /// key's kind that has room, or in a new one, its bytes are staged and
    /// the copy is queued. The state changes only where a new tile is
    /// returned.
    pub fn insert_built(
        &mut self,
        key: &AtlasKey,
        built: Result<Option<(Size, Vec<u8>)>, BuildError>,
    ) -> (r: Result<Option<AtlasTile>, AtlasError>)
        requires
            old(self).wf(),
        ensures
            final(self).wf(),
            old(self)@.contains(*key) ==> r == Ok::<Option<AtlasTile>, AtlasError>(
                Some(old(self)@.tile(*key)),
            ) && final(self)@ == old(self)@,
            !old(self)@.contains(*key) ==> r == old(self)@.built_result(*key, built)
                && final(self)@ == old(self)@.built_state(*key, built),
            !old(self)@.contains(*key) ==> (r matches Ok(Some(tile)) ==> {
                let storage = old(self)@.storage(key.kind);
                let size = tile.bounds.size;
                &&& built matches Ok(Some(content))
                &&& content.0 == size
                &&& tile.texture_id.kind == key.kind
                &&& tile.padding == 0
                &&& final(self)@.lookup(*key) == Some(tile)
                &&& final(self)@.is_live(tile.texture_id)
                &&& tile.bounds.within(final(self)@.texture(tile.texture_id).size)
                &&& storage.needs_texture(size) ==> is_next_slot(
                    storage.textures,
                    tile.texture_id.index as int,
                ) && tile.bounds.origin == (Point { x: 0, y: 0 })
                &&& !storage.needs_texture(size) ==> is_first_with_room(
                    storage.textures,
                    size,
                    tile.texture_id.index as int,
                )
            }),
    {
        match self.get(key) {
            Some(tile) => {
                return Ok(Some(tile));
            },
            None => {},
        }
        let limit = self.max_texture_size();
        match built {
            Err(error) => Err(AtlasError::Build(error)),
            Ok(None) => Ok(None),
            Ok(Some((size, bytes))) => {
                if size.is_empty() {
                    Ok(None)
                } else if size.width > limit || size.height > limit {
                    Err(AtlasError::Allocation(AllocationError { requested: size, limit }))
                } else {
                    let mut bytes = bytes;
                    let ghost before = self@;
                    let ghost content = bytes@;
                    let offset = self.staging.len();
                    let len = bytes.len();
                    self.staging.append(&mut bytes);
                    let staged = self.staging.len();
                    proof {
                        old(self).lemma_wf();
                        before.lemma_inserted(*key, size, content);
                        before.storage(key.kind).lemma_inserted(
                            key.kind,
                            limit,
                            key.fingerprint,
                            size,
                        );
                    }
                    let (tile, created) = match key.kind {
                        AtlasTextureKind::Monochrome => self.monochrome.insert(
                            key.fingerprint,
                            size,
                        ),
                        AtlasTextureKind::Polychrome => self.polychrome.insert(
                            key.fingerprint,
                            size,
                        ),
                    };
                    if created {
                        self.initializations.push(tile.texture_id);
                    }
                    self.uploads.push(
                        PendingUpload { id: tile.texture_id, bounds: tile.bounds, offset, len },
                    );
                    proof {
                        assert(self@ == before.inserted(*key, size, content));
                    }
                    Ok(Some(tile))
                }
            },
        }
    }

    /// Returns the tile of a key, building and inserting it first when the
    /// key has none.
    ///
    /// When the key has a tile, that tile is returned, nothing changes and
    /// the builder is not called. Else the builder is called once, while
    /// the state is held, and what it made is inserted as
    /// [`WgpuAtlasState::insert_built`] says. The builder must not use the
    /// atlas.
    pub fn get_or_insert_with<F: FnOnce() -> Result<Option<(Size, Vec<u8>)>, BuildError>>(
        &mut self,
        key: &AtlasKey,
        build: F,
    ) -> (r: Result<Option<AtlasTile>, AtlasError>)
        requires
            old(self).wf(),
            !old(self)@.contains(*key) ==> build.requires(()),
        ensures
            final(self).wf(),
            old(self)@.contains(*key) ==> r == Ok::<Option<AtlasTile>, AtlasError>(
                Some(old(self)@.tile(*key)),
            ) && final(self)@ == old(self)@,
            !old(self)@.contains(*key) ==> exists|
                built: Result<Option<(Size, Vec<u8>)>, BuildError>,
            |
                build.ensures((), built) && r == old(self)@.built_result(*key, built)
                    && final(self)@ == old(self)@.built_state(*key, built),
    {
        match self.get(key) {
            Some(tile) => Ok(Some(tile)),
            None => {
                let built = build();
                let ghost made = built;
                let r = self.insert_built(key, built);
                proof {
                    assert(build.ensures((), made) && r == old(self)@.built_result(*key, made)
                        && final(self)@ == old(self)@.built_state(*key, made));
                }
                r
            },
        }
    }

    /// Removes a key. Its tile is gone and its region free; the texture of
    /// the tile counts one key less. Where the key was the texture's last
    /// one, the texture is destroyed, its slot becomes free, and what
    /// waited for it is dropped from the queues; its id is returned, so
    /// that the caller can let go of the image on the device. Nothing
    /// changes when the key has no tile.
    pub fn remove(&mut self, key: &AtlasKey) -> (destroyed: Option<AtlasTextureId>)
        requires
            old(self).wf(),
        ensures
            final(self).wf(),
            final(self)@ == old(self)@.removed(*key),
            destroyed == old(self)@.destroyed_by(*key),
            destroyed matches Some(id) ==> id.kind == key.kind && old(self)@.is_live(id)
                && !final(self)@.is_live(id),
    {
        let ghost before = self@;
        proof {
            before.lemma_removed(*key);
            if before.contains(*key) {
                before.lemma_tile(*key);
                before.storage(key.kind).lemma_removed(key.kind, before.limit, key.fingerprint);
            }
        }
        let removed = match key.kind {
            AtlasTextureKind::Monochrome => self.monochrome.remove(key.fingerprint),
            AtlasTextureKind::Polychrome => self.polychrome.remove(key.fingerprint),
        };
        let destroyed = match removed {
            Some((tile, true)) => {
                self.uploads = uploads_not_into(&self.uploads, tile.texture_id);
                self.initializations = ids_other_than(&self.initializations, tile.texture_id);
                Some(tile.texture_id)
            },
            _ => None,
        };
        proof {
            assert(self@ == before.removed(*key));
        }
        destroyed
    }

    /// Hands the queues to the frame that is about to be drawn: the
    /// textures to create, then the copies to encode, each in the order in
    /// which they were queued, and the staged bytes that the copies read.
    /// Afterwards nothing waits, and the staged bytes count as in flight
    /// until the frame ends.
    pub fn before_frame(&mut self) -> (r: FrameCommands)
        requires
            old(self).wf(),
        ensures
            final(self).wf(),
            final(self)@ == old(self)@.flushed(),
            r.initializations@ == old(self)@.frame_initializations(),
            r.uploads@ == old(self)@.uploads,
            r.staging@ == old(self)@.staging,
            r.wf(),
            forall|k: int|
                0 <= k < r.uploads@.len() ==> final(self)@.is_live((#[trigger] r.uploads@[k]).id)
                    && r.uploads@[k].bounds.within(final(self)@.texture(r.uploads@[k].id).size),
            forall|k: int|
                0 <= k < r.initializations@.len() ==> final(self)@.is_live(
                    (#[trigger] r.initializations@[k]).id,
                ) && r.initializations@[k].size == final(self)@.texture(
                    r.initializations@[k].id,
                ).size,
    {
        let ghost before = self@;
        proof {
            before.lemma_frame();
        }
        let mut initializations: Vec<TextureInit> = Vec::new();
        let n = self.initializations.len();
        let mut k: usize = 0;
        while k < n
            invariant
                k <= n,
                n == self.initializations@.len(),
                self.wf(),
                self@ == before,
                initializations@ == before.frame_initializations().take(k as int),
            decreases n - k,
        {
            let id = self.initializations[k];
            assert(before.is_live(before.initializations[k as int]));
            match self.texture_info(id) {
                Some(info) => {
                    initializations.push(TextureInit { id, size: info.size });
                },
                None => {
                    assert(false);
                },
            }
            proof {
                assert(before.frame_initializations().take(k + 1)
                    =~= before.frame_initializations().take(k as int).push(
                    before.frame_initializations()[k as int],
                ));
            }
            k += 1;
        }
        proof {
            assert(before.frame_initializations().take(n as int)
                =~= before.frame_initializations());
        }
        let mut uploads: Vec<PendingUpload> = Vec::new();
        std::mem::swap(&mut self.uploads, &mut uploads);
        let mut staging: Vec<u8> = Vec::new();
        std::mem::swap(&mut self.staging, &mut staging);
        self.in_flight = staging.len();
        self.initializations = Vec::new();
        proof {
            assert(self@ == before.flushed());
            assert forall|k: int| 0 <= k < uploads@.len() implies (#[trigger] uploads@[k]).offset
                + uploads@[k].len <= staging@.len() && !uploads@[k].bounds.size.is_empty()
                && self@.is_live(uploads@[k].id) && uploads@[k].bounds.within(
                self@.texture(uploads@[k].id).size,
            ) by {
                assert(before.upload_wf(before.uploads[k]));
            }
            assert forall|k: int| 0 <= k < initializations@.len() implies self@.is_live(
                (#[trigger] initializations@[k]).id,
            ) && initializations@[k].size == self@.texture(initializations@[k].id).size by {
                assert(before.is_live(before.initializations[k]));
            }
        }
        FrameCommands { initializations, uploads, staging }
    }

    /// Ends the frame: releases the staged bytes that were in flight, and
    /// returns how many they were. No tile, texture or queue changes.
    pub fn after_frame(&mut self) -> (released: usize)
        requires
            old(self).wf(),
        ensures
            final(self).wf(),
            final(self)@ == old(self)@.frame_ended(),
            released == old(self)@.in_flight,
    {
        proof {
            self@.lemma_frame();
        }
        let released = self.in_flight;
        self.in_flight = 0;
        released
    }

    /// The largest width and height of a backing texture.
    pub fn max_texture_size(&self) -> (r: u32)
        ensures
            r == self@.limit,
    {
        self.monochrome.max_texture_size()
    }
}

} // verus!
