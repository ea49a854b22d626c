//! What holds across the operations of the atlas, stated over its model and
//! proved from the definitions of the operations.

use crate::atlas_model::AtlasModel;
use crate::atlas_texture_list::{
    free_slots, is_next_slot, lemma_next_slot, next_slot, texture_size_for,
};
use crate::storage_model::lemma_next_slot_exists;
use crate::atlas_types::{
    AtlasKey, AtlasTextureId, AtlasTile, BuildError, PendingUpload, TextureInit,
};
use crate::geometry::{Bounds, Point, Size};
use crate::shelf_layout::{
    has_room, layout_after_allocate, layout_after_free, layout_wf, lemma_allocate_then_free,
    lemma_empty_layout_has_room, lemma_free, lemma_free_makes_room, live_regions, placement,
    ShelfModel,
};
use vstd::prelude::*;

verus! {

/// A key that was given a tile keeps it: after an insertion that returned a
/// tile, the key has that very tile, so that inserting the key again returns
/// the same tile, leaves the atlas as it is, and calls no builder.
pub proof fn law_inserted_key_keeps_its_tile(
    atlas: AtlasModel,
    key: AtlasKey,
    built: Result<Option<(Size, Vec<u8>)>, BuildError>,
)
    requires
        atlas.wf(),
        !atlas.contains(key),
        atlas.storage(key.kind).textures.len() <= usize::MAX,
        built matches Ok(Some(content)) ==> atlas.staging.len() + content.1@.len() <= usize::MAX,
    ensures
        atlas.built_state(key, built).wf(),
        atlas.built_result(key, built) matches Ok(Some(tile)) ==> atlas.built_state(
            key,
            built,
        ).lookup(key) == Some(tile),
        !(atlas.built_result(key, built) matches Ok(Some(tile))) ==> atlas.built_state(key, built)
            == atlas,
{
    match built {
        Ok(Some((size, bytes))) => {
            if !size.is_empty() && atlas.accepts(size) {
                atlas.lemma_inserted(key, size, bytes@);
            }
        },
        _ => {},
    }
}

/// The first tile of a kind makes the first texture of that kind and sits
/// in its top-left corner: where the table of the key's kind has no slot,
/// the tile goes to slot 0, starts at the origin and has the size of its
/// content; the texture is as large as [`texture_size_for`] says, counts one
/// key, and waits to be created.
pub proof fn law_first_tile_of_a_kind(atlas: AtlasModel, key: AtlasKey, size: Size, bytes: Seq<u8>)
    requires
        atlas.wf(),
        atlas.storage(key.kind).textures.len() == 0,
        !size.is_empty(),
        atlas.accepts(size),
        atlas.staging.len() + bytes.len() <= usize::MAX,
    ensures
        ({
            let id = AtlasTextureId { index: 0, kind: key.kind };
            let grown = atlas.inserted(key, size, bytes);
            &&& !atlas.contains(key)
            &&& grown.wf()
            &&& grown.lookup(key) == Some(
                AtlasTile { texture_id: id, bounds: Bounds { origin: Point { x: 0, y: 0 }, size }, padding: 0 },
            )
            &&& grown.is_live(id)
            &&& grown.texture(id).size == texture_size_for(size, atlas.limit)
            &&& grown.ref_count(id) == 1
            &&& grown.initializations == atlas.initializations.push(id)
        }),
{
    let storage = atlas.storage(key.kind);
    if atlas.contains(key) {
        assert(storage.tile_wf(key.kind, storage.tiles[key.fingerprint]));
    }
    assert(storage.needs_texture(size));
    lemma_next_slot(storage.textures, 0);
    storage.lemma_inserted(key.kind, atlas.limit, key.fingerprint, size);
    atlas.lemma_inserted(key, size, bytes);
    assert(atlas.inserted(key, size, bytes).storage(key.kind) == storage.inserted(
        key.kind,
        atlas.limit,
        key.fingerprint,
        size,
    ));
}

/// An atlas with nothing in it is in order, has no tile and no texture, and
/// nothing waits in it.
pub proof fn law_empty_atlas(limit: u32)
    ensures
        AtlasModel::empty(limit).wf(),
        is_settled(AtlasModel::empty(limit)),
        forall|key: AtlasKey| !AtlasModel::empty(limit).contains(key),
        forall|id: AtlasTextureId| !AtlasModel::empty(limit).is_live(id),
{
    AtlasModel::lemma_empty_wf(limit);
}

/// Removing a key that has a tile leaves the key without one and takes
/// exactly one from the count of its texture: the texture counted at least
/// one key, and afterwards it counts one less, or is gone when that makes
/// none.
pub proof fn law_remove_counts_one_less(atlas: AtlasModel, key: AtlasKey)
    requires
        atlas.wf(),
        atlas.contains(key),
    ensures
        atlas.removed(key).wf(),
        !atlas.removed(key).contains(key),
        atlas.is_live(atlas.tile(key).texture_id),
        atlas.ref_count(atlas.tile(key).texture_id) >= 1,
        atlas.ref_count(atlas.tile(key).texture_id) == 1 ==> !atlas.removed(key).is_live(
            atlas.tile(key).texture_id,
        ),
        atlas.ref_count(atlas.tile(key).texture_id) > 1 ==> atlas.removed(key).is_live(
            atlas.tile(key).texture_id,
        ) && atlas.removed(key).ref_count(atlas.tile(key).texture_id) == atlas.ref_count(
            atlas.tile(key).texture_id,
        ) - 1,
{
    atlas.lemma_removed(key);
    let storage = atlas.storage(key.kind);
    assert(storage.tile_wf(key.kind, storage.tiles[key.fingerprint]));
    let index = storage.tiles[key.fingerprint].texture_id.index as int;
    assert(storage.texture_wf(atlas.limit, index, storage.textures[index]->0));
    assert(atlas.removed(key).storage(key.kind) == storage.removed(key.fingerprint));
}

/// Inserting a key and removing it again leaves every key with the tile it
/// had, and the texture that took the tile counting what it counted before:
/// the insertion adds exactly one to the count and the removal takes it back.
pub proof fn law_insert_then_remove(atlas: AtlasModel, key: AtlasKey, size: Size, bytes: Seq<u8>)
    requires
        atlas.wf(),
        !atlas.contains(key),
        !size.is_empty(),
        atlas.accepts(size),
        atlas.storage(key.kind).textures.len() <= usize::MAX,
        atlas.staging.len() + bytes.len() <= usize::MAX,
    ensures
        ({
            let grown = atlas.inserted(key, size, bytes);
            let id = grown.tile(key).texture_id;
            let back = grown.removed(key);
            &&& grown.wf() && back.wf()
            &&& grown.contains(key) && !back.contains(key)
            &&& forall|other: AtlasKey| back.lookup(other) == atlas.lookup(other)
            &&& grown.is_live(id)
            &&& grown.ref_count(id) == (if atlas.is_live(id) {
                atlas.ref_count(id)
            } else {
                0
            }) + 1
            &&& atlas.is_live(id) ==> back.is_live(id) && back.ref_count(id) == atlas.ref_count(id)
            &&& !atlas.is_live(id) ==> !back.is_live(id)
        }),
{
    let grown = atlas.inserted(key, size, bytes);
    let id = grown.tile(key).texture_id;
    let back = grown.removed(key);
    let storage = atlas.storage(key.kind);
    atlas.lemma_inserted(key, size, bytes);
    storage.lemma_inserted(key.kind, atlas.limit, key.fingerprint, size);
    grown.lemma_removed(key);
    law_remove_counts_one_less(grown, key);
    assert(grown.storage(key.kind) == storage.inserted(
        key.kind,
        atlas.limit,
        key.fingerprint,
        size,
    ));
    assert forall|other: AtlasKey| back.lookup(other) == atlas.lookup(other) by {
        if other != key {
            assert(grown.lookup(other) == atlas.lookup(other));
        }
    }
    if atlas.is_live(id) {
        if storage.needs_texture(size) {
            assert(is_next_slot(storage.textures, id.index as int));
        }
        assert(storage.texture_wf(atlas.limit, id.index as int, storage.textures[id.index as int]->0));
    }
}

/// When the last key of a texture is removed, the texture's slot becomes
/// free, and the next texture made for that kind goes into a free slot, no
/// higher than the one just freed, instead of making the table longer.
pub proof fn law_freed_slot_is_used_again(atlas: AtlasModel, key: AtlasKey)
    requires
        atlas.wf(),
        atlas.contains(key),
        atlas.ref_count(atlas.tile(key).texture_id) == 1,
    ensures
        ({
            let index = atlas.tile(key).texture_id.index as int;
            let table = atlas.removed(key).storage(key.kind).textures;
            &&& table.len() == atlas.storage(key.kind).textures.len()
            &&& free_slots(table).contains(index)
            &&& is_next_slot(table, next_slot(table))
            &&& next_slot(table) <= index < table.len()
            &&& free_slots(table).contains(next_slot(table))
        }),
{
    let storage = atlas.storage(key.kind);
    let index = atlas.tile(key).texture_id.index as int;
    let table = atlas.removed(key).storage(key.kind).textures;
    assert(storage.tile_wf(key.kind, storage.tiles[key.fingerprint]));
    assert(atlas.removed(key).storage(key.kind) == storage.removed(key.fingerprint));
    assert(table[index] is None);
    lemma_next_slot_exists(table);
    let next = next_slot(table);
    if next > index {
        assert(table[index] is Some);
    }
}

/// The layout after `count` rounds of placing a region of the given size
/// and freeing it again.
pub open spec fn after_rounds(
    layout: Seq<ShelfModel>,
    extent: Size,
    size: Size,
    count: nat,
) -> Seq<ShelfModel>
    decreases count,
{
    if count == 0 {
        layout
    } else {
        let before = after_rounds(layout, extent, size, (count - 1) as nat);
        layout_after_free(
            layout_after_allocate(before, extent, size),
            placement(before, extent, size),
        )
    }
}

/// Placing a region and freeing it again, any number of times, never uses
/// the surface up: where there was room for the region at first, every
/// round finds room and leaves the layout as it was.
pub proof fn law_rounds_leak_nothing(
    layout: Seq<ShelfModel>,
    extent: Size,
    size: Size,
    count: nat,
)
    requires
        layout_wf(layout, extent),
        has_room(layout, extent, size),
    ensures
        after_rounds(layout, extent, size, count) == layout,
        has_room(after_rounds(layout, extent, size, count), extent, size),
    decreases count,
{
    if count > 0 {
        law_rounds_leak_nothing(layout, extent, size, (count - 1) as nat);
        lemma_allocate_then_free(layout, extent, size);
    }
}

/// Freeing a live region makes room for a region of the same size: the
/// layout after the release is well formed and can place such a region.
pub proof fn law_free_makes_room(layout: Seq<ShelfModel>, extent: Size, region: Bounds)
    requires
        layout_wf(layout, extent),
        live_regions(layout).contains(region),
    ensures
        layout_wf(layout_after_free(layout, region), extent),
        has_room(layout_after_free(layout, region), extent, region.size),
{
    lemma_free(layout, extent, region);
    lemma_free_makes_room(layout, extent, region);
}

/// On a texture with nothing in it, every region that is not empty and no
/// larger than the texture can be placed and freed again any number of times.
pub proof fn law_rounds_on_fresh_texture(extent: Size, size: Size, count: nat)
    requires
        !size.is_empty(),
        size.fits_in(extent),
    ensures
        has_room(after_rounds(Seq::empty(), extent, size, count), extent, size),
{
    lemma_empty_layout_has_room(extent, size);
    law_rounds_leak_nothing(Seq::empty(), extent, size, count);
}

/// True when nothing waits for the next frame and no byte is staged or in flight.
pub open spec fn is_settled(atlas: AtlasModel) -> bool {
    &&& atlas.initializations == Seq::<AtlasTextureId>::empty()
    &&& atlas.uploads == Seq::<PendingUpload>::empty()
    &&& atlas.staging == Seq::<u8>::empty()
    &&& atlas.in_flight == 0
}

/// A frame leaves the atlas settled, and a frame on a settled atlas encodes
/// nothing and changes nothing: with no insertion in between, the second of
/// two frames creates no texture and copies no pixel.
pub proof fn law_frame_without_insert_is_idle(atlas: AtlasModel)
    requires
        atlas.wf(),
    ensures
        is_settled(atlas.flushed().frame_ended()),
        atlas.flushed().frame_ended().frame_initializations() == Seq::<TextureInit>::empty(),
        atlas.flushed().frame_ended().uploads == Seq::<PendingUpload>::empty(),
        atlas.flushed().frame_ended().flushed().frame_ended() == atlas.flushed().frame_ended(),
        is_settled(atlas) ==> atlas.flushed().frame_ended() == atlas,
        forall|key: AtlasKey| atlas.flushed().frame_ended().lookup(key) == atlas.lookup(key),
        atlas.flushed().frame_ended().monochrome == atlas.monochrome,
        atlas.flushed().frame_ended().polychrome == atlas.polychrome,
{
    assert(atlas.flushed().frame_ended().frame_initializations() =~= Seq::<TextureInit>::empty());
}

} // verus!
