use gpui_atlas::atlas::WgpuAtlas;
use gpui_atlas::atlas_types::{
    AllocationError, AtlasError, AtlasKey, AtlasTextureId, AtlasTextureKind, AtlasTile,
    BuildError, PendingUpload, TextureInit, WgpuTextureInfo,
};
use gpui_atlas::geometry::{Bounds, Point, Size};
use std::sync::Arc;

fn shared_size(width: u32, height: u32) -> Size {
    Size { width, height }
}

fn shared_tile(index: usize, x: u32, y: u32, width: u32, height: u32) -> AtlasTile {
    AtlasTile {
        texture_id: AtlasTextureId { index, kind: AtlasTextureKind::Monochrome },
        bounds: Bounds { origin: Point { x, y }, size: shared_size(width, height) },
        padding: 0,
    }
}

#[test]
fn shared_atlas_serves_all_its_owners() {
    let painter = Arc::new(WgpuAtlas::new(8192));
    let renderer = Arc::clone(&painter);
    let key = AtlasKey::new(1, AtlasTextureKind::Monochrome);

    let placed = painter.get_or_insert_with(&key, || Ok(Some((shared_size(64, 64), vec![3; 4096]))));
    assert_eq!(placed, Ok(Some(shared_tile(0, 0, 0, 64, 64))));
    assert_eq!(renderer.get(&key), Some(shared_tile(0, 0, 0, 64, 64)));

    let commands = renderer.before_frame();
    assert_eq!(
        commands.initializations,
        vec![TextureInit { id: shared_tile(0, 0, 0, 0, 0).texture_id, size: shared_size(1024, 1024) }]
    );
    assert_eq!(
        commands.uploads,
        vec![PendingUpload {
            id: shared_tile(0, 0, 0, 0, 0).texture_id,
            bounds: shared_tile(0, 0, 0, 64, 64).bounds,
            offset: 0,
            len: 4096,
        }]
    );
    assert_eq!(commands.staging, vec![3u8; 4096]);
    assert_eq!(
        renderer.get_texture_info(placed.unwrap().unwrap().texture_id),
        Some(WgpuTextureInfo {
            id: shared_tile(0, 0, 0, 0, 0).texture_id,
            size: shared_size(1024, 1024),
            bytes_per_pixel: 1,
        })
    );
    assert_eq!(renderer.after_frame(), 4096);

    assert_eq!(painter.remove(&key), Some(shared_tile(0, 0, 0, 0, 0).texture_id));
    assert_eq!(painter.remove(&key), None);
    assert_eq!(renderer.get(&key), None);
    assert_eq!(renderer.get_texture_info(shared_tile(0, 0, 0, 0, 0).texture_id), None);
    assert!(renderer.before_frame().is_empty());
    assert_eq!(renderer.after_frame(), 0);
}

#[test]
fn shared_atlas_builds_a_key_once() {
    let atlas = WgpuAtlas::new(8192);
    let key = AtlasKey::new(4, AtlasTextureKind::Monochrome);
    let first = atlas.get_or_insert_with(&key, || Ok(Some((shared_size(10, 10), vec![0; 100]))));
    let second = atlas.get_or_insert_with(&key, || panic!("the key has a tile"));
    assert_eq!(first, Ok(Some(shared_tile(0, 0, 0, 10, 10))));
    assert_eq!(second, first);
}

#[test]
fn shared_atlas_hands_errors_on() {
    let atlas = WgpuAtlas::new(512);
    let key = AtlasKey::new(4, AtlasTextureKind::Monochrome);
    let error = BuildError { message: String::from("no pixels") };
    assert_eq!(
        atlas.get_or_insert_with(&key, || Err(error.clone())),
        Err(AtlasError::Build(error))
    );
    assert_eq!(atlas.get_or_insert_with(&key, || Ok(None)), Ok(None));
    assert_eq!(
        atlas.get_or_insert_with(&key, || Ok(Some((shared_size(513, 2), Vec::new())))),
        Err(AtlasError::Allocation(AllocationError { requested: shared_size(513, 2), limit: 512 }))
    );
    assert_eq!(atlas.get(&key), None);
    assert!(atlas.before_frame().is_empty());
    atlas.remove(&key);
    assert_eq!(
        atlas.get_or_insert_with(&key, || Ok(Some((shared_size(512, 2), Vec::new())))),
        Ok(Some(shared_tile(0, 0, 0, 512, 2)))
    );
}

#[test]
fn shared_atlas_keeps_its_state_between_calls() {
    let atlas = WgpuAtlas::new(8192);
    for k in 0..40u64 {
        let key = AtlasKey::new(k, AtlasTextureKind::Monochrome);
        let placed = atlas
            .get_or_insert_with(&key, || Ok(Some((shared_size(64, 64), Vec::new()))))
            .unwrap();
        let column = (k % 16) as u32;
        let row = (k / 16) as u32;
        assert_eq!(placed, Some(shared_tile(0, 64 * column, 64 * row, 64, 64)));
    }
    for k in 0..40u64 {
        atlas.remove(&AtlasKey::new(k, AtlasTextureKind::Monochrome));
    }
    assert_eq!(atlas.get_texture_info(shared_tile(0, 0, 0, 0, 0).texture_id), None);
}
