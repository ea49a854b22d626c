use gpui_atlas::atlas_state::WgpuAtlasState;
use gpui_atlas::atlas_types::{
    upload_row_bytes, AllocationError, AtlasError, AtlasKey, AtlasTextureId, AtlasTextureKind,
    AtlasTile, BuildError, PendingUpload, TextureInit, WgpuTextureInfo,
};
use gpui_atlas::geometry::{Bounds, Point, Size};
use std::cell::Cell;

fn size(width: u32, height: u32) -> Size {
    Size { width, height }
}

fn bounds(x: u32, y: u32, width: u32, height: u32) -> Bounds {
    Bounds { origin: Point { x, y }, size: size(width, height) }
}

fn mono(index: usize) -> AtlasTextureId {
    AtlasTextureId { index, kind: AtlasTextureKind::Monochrome }
}

fn poly(index: usize) -> AtlasTextureId {
    AtlasTextureId { index, kind: AtlasTextureKind::Polychrome }
}

fn mono_key(fingerprint: u64) -> AtlasKey {
    AtlasKey::new(fingerprint, AtlasTextureKind::Monochrome)
}

fn poly_key(fingerprint: u64) -> AtlasKey {
    AtlasKey::new(fingerprint, AtlasTextureKind::Polychrome)
}

fn tile(texture_id: AtlasTextureId, x: u32, y: u32, width: u32, height: u32) -> AtlasTile {
    AtlasTile { texture_id, bounds: bounds(x, y, width, height), padding: 0 }
}

fn pixels(s: Size, kind: AtlasTextureKind, value: u8) -> Vec<u8> {
    vec![value; (s.width * s.height * kind.bytes_per_pixel()) as usize]
}

fn insert(
    atlas: &mut WgpuAtlasState,
    key: AtlasKey,
    s: Size,
) -> Result<Option<AtlasTile>, AtlasError> {
    atlas.get_or_insert_with(&key, || Ok(Some((s, pixels(s, key.kind, 1)))))
}

#[test]
fn key_knows_its_kind() {
    let key = AtlasKey::new(7, AtlasTextureKind::Polychrome);
    assert_eq!(key.fingerprint, 7);
    assert_eq!(key.texture_kind(), AtlasTextureKind::Polychrome);
    assert_ne!(key, AtlasKey::new(7, AtlasTextureKind::Monochrome));
}

#[test]
fn new_atlas_is_empty() {
    let mut atlas = WgpuAtlasState::new(4096);
    assert_eq!(atlas.max_texture_size(), 4096);
    assert_eq!(atlas.get(&mono_key(1)), None);
    assert_eq!(atlas.texture_info(mono(0)), None);
    assert_eq!(atlas.live_keys(mono(0)), None);
    let commands = atlas.before_frame();
    assert!(commands.is_empty());
    assert!(commands.staging.is_empty());
    assert_eq!(atlas.after_frame(), 0);
}

#[test]
fn tiles_share_a_texture_and_free_its_slot_when_all_are_gone() {
    let mut atlas = WgpuAtlasState::new(8192);
    let a = mono_key(1);
    let b = mono_key(2);
    let c = mono_key(3);

    // A makes texture 0 and sits in its corner
    assert_eq!(insert(&mut atlas, a, size(64, 64)), Ok(Some(tile(mono(0), 0, 0, 64, 64))));
    assert_eq!(
        atlas.texture_info(mono(0)),
        Some(WgpuTextureInfo { id: mono(0), size: size(1024, 1024), bytes_per_pixel: 1 })
    );
    assert_eq!(atlas.live_keys(mono(0)), Some(1));

    // B finds room in texture 0
    assert_eq!(insert(&mut atlas, b, size(64, 64)), Ok(Some(tile(mono(0), 64, 0, 64, 64))));
    assert_eq!(atlas.live_keys(mono(0)), Some(2));
    assert_eq!(atlas.texture_info(mono(1)), None);

    // without A the texture counts one key less
    assert_eq!(atlas.remove(&a), None);
    assert_eq!(atlas.get(&a), None);
    assert_eq!(atlas.get(&b), Some(tile(mono(0), 64, 0, 64, 64)));
    assert_eq!(atlas.live_keys(mono(0)), Some(1));

    // without B it is gone
    assert_eq!(atlas.remove(&b), Some(mono(0)));
    assert_eq!(atlas.get(&b), None);
    assert_eq!(atlas.texture_info(mono(0)), None);
    assert_eq!(atlas.live_keys(mono(0)), None);

    // C makes a texture again, in the freed slot
    assert_eq!(insert(&mut atlas, c, size(64, 64)), Ok(Some(tile(mono(0), 0, 0, 64, 64))));
    assert_eq!(atlas.live_keys(mono(0)), Some(1));
    assert_eq!(atlas.texture_info(mono(1)), None);
}

#[test]
fn a_full_texture_makes_the_atlas_grow() {
    let mut atlas = WgpuAtlasState::new(8192);
    assert_eq!(
        insert(&mut atlas, mono_key(1), size(1024, 1024)),
        Ok(Some(tile(mono(0), 0, 0, 1024, 1024)))
    );
    assert_eq!(
        insert(&mut atlas, mono_key(2), size(64, 64)),
        Ok(Some(tile(mono(1), 0, 0, 64, 64)))
    );
    assert_eq!(
        insert(&mut atlas, mono_key(3), size(64, 64)),
        Ok(Some(tile(mono(1), 64, 0, 64, 64)))
    );
    assert_eq!(atlas.live_keys(mono(0)), Some(1));
    assert_eq!(atlas.live_keys(mono(1)), Some(2));
}

#[test]
fn a_new_texture_takes_the_lowest_freed_slot() {
    let mut atlas = WgpuAtlasState::new(8192);
    for k in 0..4u64 {
        assert_eq!(
            insert(&mut atlas, poly_key(k), size(1024, 1024)),
            Ok(Some(tile(poly(k as usize), 0, 0, 1024, 1024)))
        );
    }
    assert_eq!(atlas.remove(&poly_key(2)), Some(poly(2)));
    assert_eq!(atlas.remove(&poly_key(0)), Some(poly(0)));
    assert_eq!(atlas.remove(&poly_key(3)), Some(poly(3)));
    assert_eq!(atlas.texture_info(poly(0)), None);
    assert!(atlas.texture_info(poly(1)).is_some());
    assert_eq!(
        insert(&mut atlas, poly_key(10), size(1024, 1024)),
        Ok(Some(tile(poly(0), 0, 0, 1024, 1024)))
    );
    assert_eq!(
        insert(&mut atlas, poly_key(11), size(1024, 1024)),
        Ok(Some(tile(poly(2), 0, 0, 1024, 1024)))
    );
    assert_eq!(
        insert(&mut atlas, poly_key(12), size(1024, 1024)),
        Ok(Some(tile(poly(3), 0, 0, 1024, 1024)))
    );
    assert_eq!(
        insert(&mut atlas, poly_key(13), size(1024, 1024)),
        Ok(Some(tile(poly(4), 0, 0, 1024, 1024)))
    );
}

#[test]
fn kinds_have_tables_of_their_own() {
    let mut atlas = WgpuAtlasState::new(8192);
    assert_eq!(insert(&mut atlas, mono_key(1), size(8, 8)), Ok(Some(tile(mono(0), 0, 0, 8, 8))));
    assert_eq!(insert(&mut atlas, poly_key(1), size(8, 8)), Ok(Some(tile(poly(0), 0, 0, 8, 8))));
    assert_eq!(
        atlas.texture_info(poly(0)),
        Some(WgpuTextureInfo { id: poly(0), size: size(1024, 1024), bytes_per_pixel: 4 })
    );
    atlas.remove(&mono_key(1));
    assert_eq!(atlas.texture_info(mono(0)), None);
    assert_eq!(atlas.get(&poly_key(1)), Some(tile(poly(0), 0, 0, 8, 8)));
    assert_eq!(atlas.get_texture_info(poly(0)).size, size(1024, 1024));
}

#[test]
fn second_insert_returns_the_same_tile_and_builds_nothing() {
    let mut atlas = WgpuAtlasState::new(8192);
    let key = mono_key(9);
    let builds = Cell::new(0u32);
    let first = atlas.get_or_insert_with(&key, || {
        builds.set(builds.get() + 1);
        Ok(Some((size(20, 10), vec![0u8; 200])))
    });
    let second = atlas.get_or_insert_with(&key, || {
        builds.set(builds.get() + 1);
        Ok(Some((size(99, 99), vec![0u8; 9801])))
    });
    assert_eq!(first, Ok(Some(tile(mono(0), 0, 0, 20, 10))));
    assert_eq!(second, first);
    assert_eq!(builds.get(), 1);
    assert_eq!(atlas.live_keys(mono(0)), Some(1));
    let commands = atlas.before_frame();
    assert_eq!(commands.uploads.len(), 1);
    assert_eq!(commands.staging.len(), 200);
}

#[test]
fn a_hit_does_not_call_the_builder() {
    let mut atlas = WgpuAtlasState::new(8192);
    let key = poly_key(1);
    assert!(insert(&mut atlas, key, size(4, 4)).is_ok());
    let again = atlas.get_or_insert_with(&key, || panic!("the key has a tile"));
    assert_eq!(again, Ok(Some(tile(poly(0), 0, 0, 4, 4))));
}

#[test]
fn builder_error_is_handed_on_and_changes_nothing() {
    let mut atlas = WgpuAtlasState::new(8192);
    let key = mono_key(1);
    let error = BuildError { message: String::from("no such glyph") };
    let result = atlas.get_or_insert_with(&key, || Err(error.clone()));
    assert_eq!(result, Err(AtlasError::Build(error)));
    assert_eq!(atlas.get(&key), None);
    assert_eq!(atlas.texture_info(mono(0)), None);
    assert!(atlas.before_frame().is_empty());
    // the key can still be inserted
    assert_eq!(insert(&mut atlas, key, size(4, 4)), Ok(Some(tile(mono(0), 0, 0, 4, 4))));
}

#[test]
fn nothing_to_render_stores_nothing() {
    let mut atlas = WgpuAtlasState::new(8192);
    let key = mono_key(1);
    assert_eq!(atlas.get_or_insert_with(&key, || Ok(None)), Ok(None));
    assert_eq!(atlas.get(&key), None);
    assert_eq!(atlas.get_or_insert_with(&key, || Ok(Some((size(0, 5), Vec::new())))), Ok(None));
    assert_eq!(atlas.get_or_insert_with(&key, || Ok(Some((size(5, 0), vec![1, 2])))), Ok(None));
    assert_eq!(atlas.get(&key), None);
    assert_eq!(atlas.texture_info(mono(0)), None);
    let commands = atlas.before_frame();
    assert!(commands.is_empty());
    assert!(commands.staging.is_empty());
}

#[test]
fn content_larger_than_a_texture_can_be_is_an_allocation_error() {
    let mut atlas = WgpuAtlasState::new(2048);
    let key = mono_key(1);
    assert_eq!(
        insert(&mut atlas, key, size(2049, 1)),
        Err(AtlasError::Allocation(AllocationError { requested: size(2049, 1), limit: 2048 }))
    );
    assert_eq!(
        insert(&mut atlas, key, size(1, 5000)),
        Err(AtlasError::Allocation(AllocationError { requested: size(1, 5000), limit: 2048 }))
    );
    assert_eq!(atlas.get(&key), None);
    assert_eq!(atlas.texture_info(mono(0)), None);
    assert!(atlas.before_frame().is_empty());
    assert_eq!(insert(&mut atlas, key, size(2048, 2048)), Ok(Some(tile(mono(0), 0, 0, 2048, 2048))));
}

#[test]
fn a_new_texture_is_as_large_as_its_first_tile_needs() {
    let mut atlas = WgpuAtlasState::new(8192);
    assert!(insert(&mut atlas, mono_key(1), size(1500, 10)).is_ok());
    assert_eq!(atlas.get_texture_info(mono(0)).size, size(2048, 1024));
    assert!(insert(&mut atlas, mono_key(2), size(10, 5000)).is_ok());
    assert_eq!(atlas.get_texture_info(mono(1)).size, size(1024, 8192));

    let mut small = WgpuAtlasState::new(1500);
    assert!(insert(&mut small, mono_key(1), size(1200, 10)).is_ok());
    assert_eq!(small.get_texture_info(mono(0)).size, size(1500, 1024));

    let mut tiny = WgpuAtlasState::new(256);
    assert!(insert(&mut tiny, mono_key(1), size(10, 10)).is_ok());
    assert_eq!(tiny.get_texture_info(mono(0)).size, size(256, 256));
}

#[test]
fn removing_a_key_frees_its_region() {
    let mut atlas = WgpuAtlasState::new(8192);
    assert_eq!(insert(&mut atlas, mono_key(1), size(64, 64)), Ok(Some(tile(mono(0), 0, 0, 64, 64))));
    assert_eq!(insert(&mut atlas, mono_key(2), size(64, 64)), Ok(Some(tile(mono(0), 64, 0, 64, 64))));
    atlas.remove(&mono_key(1));
    assert_eq!(insert(&mut atlas, mono_key(3), size(64, 64)), Ok(Some(tile(mono(0), 0, 0, 64, 64))));
    assert_eq!(atlas.live_keys(mono(0)), Some(2));
}

#[test]
fn removing_an_absent_key_does_nothing() {
    let mut atlas = WgpuAtlasState::new(8192);
    assert_eq!(atlas.remove(&mono_key(1)), None);
    assert!(insert(&mut atlas, mono_key(1), size(64, 64)).is_ok());
    assert_eq!(atlas.remove(&mono_key(2)), None);
    assert_eq!(atlas.remove(&poly_key(1)), None);
    assert_eq!(atlas.get(&mono_key(1)), Some(tile(mono(0), 0, 0, 64, 64)));
    assert_eq!(atlas.live_keys(mono(0)), Some(1));
    let commands = atlas.before_frame();
    assert_eq!(commands.initializations.len(), 1);
    assert_eq!(commands.uploads.len(), 1);
}

#[test]
fn insert_then_remove_takes_the_count_back() {
    let mut atlas = WgpuAtlasState::new(8192);
    assert!(insert(&mut atlas, mono_key(1), size(64, 64)).is_ok());
    assert!(insert(&mut atlas, mono_key(2), size(64, 64)).is_ok());
    for round in 0..100u64 {
        let key = mono_key(100 + round);
        assert_eq!(atlas.live_keys(mono(0)), Some(2));
        assert_eq!(insert(&mut atlas, key, size(32, 64)), Ok(Some(tile(mono(0), 128, 0, 32, 64))));
        assert_eq!(atlas.live_keys(mono(0)), Some(3));
        assert_eq!(atlas.remove(&key), None);
        assert_eq!(atlas.get(&key), None);
        assert_eq!(atlas.live_keys(mono(0)), Some(2));
    }
}

#[test]
fn before_frame_hands_out_what_was_queued_in_order() {
    let mut atlas = WgpuAtlasState::new(8192);
    let a = mono_key(1);
    let b = poly_key(2);
    let c = mono_key(3);
    assert!(atlas.get_or_insert_with(&a, || Ok(Some((size(2, 2), vec![1, 2, 3, 4])))).is_ok());
    assert!(atlas.get_or_insert_with(&b, || Ok(Some((size(1, 2), vec![9; 8])))).is_ok());
    assert!(atlas.get_or_insert_with(&c, || Ok(Some((size(3, 1), vec![5, 6, 7])))).is_ok());
    let commands = atlas.before_frame();
    assert!(!commands.is_empty());
    assert_eq!(
        commands.initializations,
        vec![
            TextureInit { id: mono(0), size: size(1024, 1024) },
            TextureInit { id: poly(0), size: size(1024, 1024) },
        ]
    );
    assert_eq!(
        commands.uploads,
        vec![
            PendingUpload { id: mono(0), bounds: bounds(0, 0, 2, 2), offset: 0, len: 4 },
            PendingUpload { id: poly(0), bounds: bounds(0, 0, 1, 2), offset: 4, len: 8 },
            PendingUpload { id: mono(0), bounds: bounds(2, 0, 3, 1), offset: 12, len: 3 },
        ]
    );
    assert_eq!(commands.staging, vec![1, 2, 3, 4, 9, 9, 9, 9, 9, 9, 9, 9, 5, 6, 7]);
    assert_eq!(atlas.after_frame(), 15);
    assert_eq!(atlas.after_frame(), 0);
}

#[test]
fn a_frame_without_inserts_encodes_nothing() {
    let mut atlas = WgpuAtlasState::new(8192);
    assert!(insert(&mut atlas, mono_key(1), size(8, 8)).is_ok());
    let first = atlas.before_frame();
    assert_eq!(first.uploads.len(), 1);
    assert_eq!(atlas.after_frame(), 64);
    for _ in 0..3 {
        let idle = atlas.before_frame();
        assert!(idle.is_empty());
        assert!(idle.initializations.is_empty());
        assert!(idle.uploads.is_empty());
        assert!(idle.staging.is_empty());
        assert_eq!(atlas.after_frame(), 0);
    }
    assert_eq!(atlas.get(&mono_key(1)), Some(tile(mono(0), 0, 0, 8, 8)));
    assert_eq!(atlas.live_keys(mono(0)), Some(1));
}

#[test]
fn uploads_after_a_frame_start_at_offset_zero() {
    let mut atlas = WgpuAtlasState::new(8192);
    assert!(insert(&mut atlas, mono_key(1), size(8, 8)).is_ok());
    atlas.before_frame();
    assert!(insert(&mut atlas, mono_key(2), size(4, 8)).is_ok());
    let commands = atlas.before_frame();
    assert!(commands.initializations.is_empty());
    assert_eq!(
        commands.uploads,
        vec![PendingUpload { id: mono(0), bounds: bounds(8, 0, 4, 8), offset: 0, len: 32 }]
    );
    assert_eq!(commands.staging.len(), 32);
    assert_eq!(atlas.after_frame(), 32);
}

#[test]
fn a_destroyed_texture_takes_what_waited_for_it_along() {
    let mut atlas = WgpuAtlasState::new(8192);
    assert!(insert(&mut atlas, mono_key(1), size(8, 8)).is_ok());
    assert!(insert(&mut atlas, poly_key(1), size(8, 8)).is_ok());
    assert!(insert(&mut atlas, mono_key(2), size(8, 8)).is_ok());
    atlas.remove(&mono_key(1));
    atlas.remove(&mono_key(2));
    assert_eq!(atlas.texture_info(mono(0)), None);
    let commands = atlas.before_frame();
    assert_eq!(commands.initializations, vec![TextureInit { id: poly(0), size: size(1024, 1024) }]);
    assert_eq!(
        commands.uploads,
        vec![PendingUpload { id: poly(0), bounds: bounds(0, 0, 8, 8), offset: 64, len: 256 }]
    );
    assert_eq!(commands.staging.len(), 64 + 256 + 64);
}

#[test]
fn a_texture_made_again_in_a_slot_is_initialized_once() {
    let mut atlas = WgpuAtlasState::new(8192);
    assert!(insert(&mut atlas, mono_key(1), size(8, 8)).is_ok());
    atlas.remove(&mono_key(1));
    assert!(insert(&mut atlas, mono_key(2), size(2000, 8)).is_ok());
    let commands = atlas.before_frame();
    assert_eq!(commands.initializations, vec![TextureInit { id: mono(0), size: size(2048, 1024) }]);
    assert_eq!(
        commands.uploads,
        vec![PendingUpload { id: mono(0), bounds: bounds(0, 0, 2000, 8), offset: 64, len: 16000 }]
    );
}

#[test]
fn a_removed_tile_of_a_living_texture_keeps_its_upload() {
    let mut atlas = WgpuAtlasState::new(8192);
    assert!(insert(&mut atlas, mono_key(1), size(8, 8)).is_ok());
    assert!(insert(&mut atlas, mono_key(2), size(8, 8)).is_ok());
    atlas.remove(&mono_key(1));
    assert!(insert(&mut atlas, mono_key(3), size(8, 8)).is_ok());
    let commands = atlas.before_frame();
    // the copy for key 3 comes after the one for key 1 and overwrites it
    assert_eq!(
        commands.uploads,
        vec![
            PendingUpload { id: mono(0), bounds: bounds(0, 0, 8, 8), offset: 0, len: 64 },
            PendingUpload { id: mono(0), bounds: bounds(8, 0, 8, 8), offset: 64, len: 64 },
            PendingUpload { id: mono(0), bounds: bounds(0, 0, 8, 8), offset: 128, len: 64 },
        ]
    );
}

#[test]
fn insert_built_takes_what_a_builder_made() {
    let mut atlas = WgpuAtlasState::new(8192);
    let key = poly_key(5);
    assert_eq!(atlas.insert_built(&key, Ok(None)), Ok(None));
    let error = BuildError { message: String::from("broken image") };
    assert_eq!(atlas.insert_built(&key, Err(error.clone())), Err(AtlasError::Build(error)));
    assert_eq!(
        atlas.insert_built(&key, Ok(Some((size(3, 2), vec![7; 24])))),
        Ok(Some(tile(poly(0), 0, 0, 3, 2)))
    );
    assert_eq!(atlas.get(&key), Some(tile(poly(0), 0, 0, 3, 2)));
    // a key that has a tile keeps it, whatever is built for it
    assert_eq!(atlas.insert_built(&key, Ok(None)), Ok(Some(tile(poly(0), 0, 0, 3, 2))));
    assert_eq!(
        atlas.insert_built(&key, Ok(Some((size(9, 9), vec![1; 324])))),
        Ok(Some(tile(poly(0), 0, 0, 3, 2)))
    );
    assert_eq!(atlas.live_keys(poly(0)), Some(1));
    assert_eq!(atlas.before_frame().uploads.len(), 1);
}

#[test]
fn tiles_of_one_texture_never_overlap() {
    let mut atlas = WgpuAtlasState::new(1024);
    let mut live: Vec<(AtlasKey, AtlasTile)> = Vec::new();
    let mut seed: u32 = 99;
    for step in 0..1_500u64 {
        seed = seed.wrapping_mul(1664525).wrapping_add(1013904223);
        let kind = if seed & 1 == 0 { AtlasTextureKind::Monochrome } else { AtlasTextureKind::Polychrome };
        if step % 4 == 3 && !live.is_empty() {
            let k = (seed as usize >> 5) % live.len();
            let (key, _) = live.swap_remove(k);
            atlas.remove(&key);
            assert_eq!(atlas.get(&key), None);
        } else {
            let key = AtlasKey::new(step, kind);
            let s = size(1 + (seed >> 8) % 300, 1 + (seed >> 20) % 300);
            let placed = atlas
                .get_or_insert_with(&key, || Ok(Some((s, Vec::new()))))
                .unwrap()
                .unwrap();
            assert_eq!(placed.bounds.size, s);
            assert_eq!(placed.texture_id.kind, kind);
            let info = atlas.get_texture_info(placed.texture_id);
            assert!(placed.bounds.origin.x + s.width <= info.size.width);
            assert!(placed.bounds.origin.y + s.height <= info.size.height);
            for (_, other) in &live {
                if other.texture_id == placed.texture_id {
                    let a = placed.bounds;
                    let b = other.bounds;
                    let apart = a.origin.x + a.size.width <= b.origin.x
                        || b.origin.x + b.size.width <= a.origin.x
                        || a.origin.y + a.size.height <= b.origin.y
                        || b.origin.y + b.size.height <= a.origin.y;
                    assert!(apart);
                }
            }
            live.push((key, placed));
        }
        if step % 50 == 0 {
            let commands = atlas.before_frame();
            for upload in &commands.uploads {
                assert!(upload.offset + upload.len <= commands.staging.len());
            }
            atlas.after_frame();
        }
    }
    for (key, placed) in &live {
        assert_eq!(atlas.get(key), Some(*placed));
    }
    // the count of each texture is the number of keys that live in it
    for (_, placed) in &live {
        let expected = live.iter().filter(|(_, t)| t.texture_id == placed.texture_id).count();
        assert_eq!(atlas.live_keys(placed.texture_id), Some(expected));
    }
    for (key, _) in &live {
        atlas.remove(key);
    }
    for index in 0..64 {
        assert_eq!(atlas.texture_info(mono(index)), None);
        assert_eq!(atlas.texture_info(poly(index)), None);
    }
}

#[test]
fn upload_row_bytes_is_width_times_bytes_per_pixel() {
    let upload = |id: AtlasTextureId, width: u32, height: u32, len: usize| PendingUpload {
        id,
        bounds: bounds(3, 5, width, height),
        offset: 7,
        len,
    };
    assert_eq!(upload_row_bytes(&upload(mono(0), 8, 8, 64)), Some(8));
    assert_eq!(upload_row_bytes(&upload(mono(0), 8, 8, 100)), Some(8));
    assert_eq!(upload_row_bytes(&upload(poly(2), 8, 2, 64)), Some(32));
    assert_eq!(upload_row_bytes(&upload(poly(2), 1, 1, 4)), Some(4));
}

#[test]
fn upload_row_bytes_refuses_content_that_is_too_short() {
    let upload = |id: AtlasTextureId, width: u32, height: u32, len: usize| PendingUpload {
        id,
        bounds: bounds(0, 0, width, height),
        offset: 0,
        len,
    };
    assert_eq!(upload_row_bytes(&upload(mono(0), 8, 8, 63)), None);
    assert_eq!(upload_row_bytes(&upload(poly(0), 8, 2, 63)), None);
    assert_eq!(upload_row_bytes(&upload(poly(0), 1, 1, 3)), None);
    assert_eq!(upload_row_bytes(&upload(mono(0), 1, 1, 0)), None);
    // a rectangle without pixels needs no bytes
    assert_eq!(upload_row_bytes(&upload(mono(0), 0, 9, 0)), Some(0));
    assert_eq!(upload_row_bytes(&upload(poly(0), 9, 0, 0)), Some(36));
}

#[test]
fn upload_row_bytes_refuses_rows_longer_than_32_bits() {
    let upload = |id: AtlasTextureId, width: u32, height: u32, len: usize| PendingUpload {
        id,
        bounds: bounds(0, 0, width, height),
        offset: 0,
        len,
    };
    assert_eq!(upload_row_bytes(&upload(mono(0), u32::MAX, 0, 0)), Some(u32::MAX));
    assert_eq!(upload_row_bytes(&upload(poly(0), 0x3fff_ffff, 0, 0)), Some(0xffff_fffc));
    assert_eq!(upload_row_bytes(&upload(poly(0), 0x4000_0000, 0, 0)), None);
    assert_eq!(upload_row_bytes(&upload(poly(0), u32::MAX, 0, usize::MAX)), None);
    assert_eq!(upload_row_bytes(&upload(mono(0), u32::MAX, u32::MAX, 10)), None);
}

#[test]
fn uploads_of_whole_tiles_have_rows() {
    let mut atlas = WgpuAtlasState::new(8192);
    assert!(insert(&mut atlas, mono_key(1), size(20, 10)).is_ok());
    assert!(insert(&mut atlas, poly_key(1), size(20, 10)).is_ok());
    let commands = atlas.before_frame();
    assert_eq!(upload_row_bytes(&commands.uploads[0]), Some(20));
    assert_eq!(upload_row_bytes(&commands.uploads[1]), Some(80));
}

#[test]
fn content_with_a_zero_side_is_empty_whatever_its_other_side() {
    let mut atlas = WgpuAtlasState::new(2048);
    let key = mono_key(1);
    assert_eq!(atlas.get_or_insert_with(&key, || Ok(Some((size(0, 9000), Vec::new())))), Ok(None));
    assert_eq!(atlas.get_or_insert_with(&key, || Ok(Some((size(9000, 0), Vec::new())))), Ok(None));
    assert_eq!(atlas.get(&key), None);
    assert!(atlas.before_frame().is_empty());
}
