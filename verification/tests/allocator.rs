use gpui_atlas::geometry::{Bounds, Point, Size};
use gpui_atlas::region_allocator::RegionAllocator;

fn size(width: u32, height: u32) -> Size {
    Size { width, height }
}

fn bounds(x: u32, y: u32, width: u32, height: u32) -> Bounds {
    Bounds { origin: Point { x, y }, size: size(width, height) }
}

fn overlap(a: Bounds, b: Bounds) -> bool {
    let ax = a.origin.x as u64;
    let ay = a.origin.y as u64;
    let bx = b.origin.x as u64;
    let by = b.origin.y as u64;
    ax < bx + b.size.width as u64
        && bx < ax + a.size.width as u64
        && ay < by + b.size.height as u64
        && by < ay + a.size.height as u64
}

#[test]
fn first_region_sits_in_the_top_left_corner() {
    let mut allocator = RegionAllocator::new(size(1024, 1024));
    assert_eq!(allocator.size(), size(1024, 1024));
    assert!(allocator.is_empty());
    assert_eq!(allocator.allocate(size(64, 64)), Some(bounds(0, 0, 64, 64)));
    assert!(!allocator.is_empty());
}

#[test]
fn regions_of_one_height_fill_a_shelf_from_the_left() {
    let mut allocator = RegionAllocator::new(size(1024, 1024));
    for k in 0..16u32 {
        assert_eq!(allocator.allocate(size(64, 64)), Some(bounds(64 * k, 0, 64, 64)));
    }
    assert_eq!(allocator.allocate(size(64, 64)), Some(bounds(0, 64, 64, 64)));
}

#[test]
fn shelf_height_is_the_size_class_of_the_first_region() {
    let mut allocator = RegionAllocator::new(size(1024, 1024));
    // 10 rows are of the class of 16 rows: the next shelf starts at row 16.
    assert_eq!(allocator.allocate(size(1024, 10)), Some(bounds(0, 0, 1024, 10)));
    // 30 rows are of the class of 32 rows.
    assert_eq!(allocator.allocate(size(1024, 30)), Some(bounds(0, 16, 1024, 30)));
    // 130 rows are of the class of 160 rows.
    assert_eq!(allocator.allocate(size(1024, 130)), Some(bounds(0, 48, 1024, 130)));
    // 600 rows are of the class of 640 rows.
    assert_eq!(allocator.allocate(size(1024, 600)), Some(bounds(0, 208, 1024, 600)));
    assert_eq!(allocator.allocate(size(1, 1)), Some(bounds(0, 848, 1, 1)));
}

#[test]
fn a_region_goes_only_into_a_shelf_of_its_size_class() {
    let mut allocator = RegionAllocator::new(size(1024, 1024));
    assert_eq!(allocator.allocate(size(64, 64)), Some(bounds(0, 0, 64, 64)));
    // 60 rows are of the class of 64 rows: the shelf suits.
    assert_eq!(allocator.allocate(size(10, 60)), Some(bounds(64, 0, 10, 60)));
    // 30 rows are of the class of 32 rows: the shelf is too tall.
    assert_eq!(allocator.allocate(size(10, 30)), Some(bounds(0, 64, 10, 30)));
    // 70 rows do not fit into a shelf of 64 rows.
    assert_eq!(allocator.allocate(size(10, 70)), Some(bounds(0, 96, 10, 70)));
}

#[test]
fn a_freed_slot_is_used_again() {
    let mut allocator = RegionAllocator::new(size(1024, 1024));
    let a = allocator.allocate(size(64, 64)).unwrap();
    let b = allocator.allocate(size(64, 64)).unwrap();
    assert_eq!(b, bounds(64, 0, 64, 64));
    assert!(allocator.free(a));
    assert_eq!(allocator.allocate(size(64, 64)), Some(a));
    assert!(allocator.free(a));
    // a narrower region fits into the freed slot too
    assert_eq!(allocator.allocate(size(32, 64)), Some(bounds(0, 0, 32, 64)));
    // a wider one does not, and goes to the end of the shelf
    assert_eq!(allocator.allocate(size(65, 64)), Some(bounds(128, 0, 65, 64)));
}

#[test]
fn freeing_the_last_slot_gives_its_columns_back() {
    let mut allocator = RegionAllocator::new(size(1024, 1024));
    let _a = allocator.allocate(size(64, 64)).unwrap();
    let b = allocator.allocate(size(64, 64)).unwrap();
    assert!(allocator.free(b));
    assert_eq!(allocator.allocate(size(100, 64)), Some(bounds(64, 0, 100, 64)));
}

#[test]
fn freeing_everything_gives_the_whole_surface_back() {
    let mut allocator = RegionAllocator::new(size(256, 256));
    let a = allocator.allocate(size(64, 64)).unwrap();
    let b = allocator.allocate(size(64, 30)).unwrap();
    let c = allocator.allocate(size(64, 64)).unwrap();
    assert!(allocator.free(a));
    assert!(allocator.free(c));
    assert!(!allocator.is_empty());
    assert!(allocator.free(b));
    assert!(allocator.is_empty());
    assert_eq!(allocator.allocate(size(256, 256)), Some(bounds(0, 0, 256, 256)));
}

#[test]
fn free_of_what_is_not_live_changes_nothing() {
    let mut allocator = RegionAllocator::new(size(1024, 1024));
    let a = allocator.allocate(size(64, 64)).unwrap();
    assert!(!allocator.free(bounds(64, 0, 64, 64)));
    assert!(!allocator.free(bounds(0, 0, 64, 63)));
    assert!(!allocator.free(bounds(0, 0, 63, 64)));
    assert!(!allocator.free(bounds(0, 1, 64, 64)));
    assert!(allocator.free(a));
    assert!(!allocator.free(a));
}

#[test]
fn allocate_fails_when_the_surface_is_full() {
    let mut allocator = RegionAllocator::new(size(64, 64));
    assert_eq!(allocator.allocate(size(64, 64)), Some(bounds(0, 0, 64, 64)));
    assert_eq!(allocator.allocate(size(1, 1)), None);
    assert_eq!(allocator.allocate(size(64, 64)), None);
}

#[test]
fn allocate_refuses_empty_and_oversized_regions() {
    let mut allocator = RegionAllocator::new(size(64, 64));
    assert_eq!(allocator.allocate(size(0, 10)), None);
    assert_eq!(allocator.allocate(size(10, 0)), None);
    assert_eq!(allocator.allocate(size(65, 1)), None);
    assert_eq!(allocator.allocate(size(1, 65)), None);
    assert!(allocator.is_empty());
    assert_eq!(allocator.allocate(size(64, 64)), Some(bounds(0, 0, 64, 64)));
}

#[test]
fn the_last_shelf_takes_the_rows_that_are_left() {
    let mut allocator = RegionAllocator::new(size(100, 100));
    // 90 rows are of the class of 96 rows
    assert_eq!(allocator.allocate(size(10, 90)), Some(bounds(0, 0, 10, 90)));
    // 4 rows are of the class of 8 rows, but only 4 rows are left
    assert_eq!(allocator.allocate(size(10, 4)), Some(bounds(0, 96, 10, 4)));
    assert_eq!(allocator.allocate(size(10, 5)), None);
    assert_eq!(allocator.allocate(size(10, 4)), Some(bounds(10, 96, 10, 4)));
}

#[test]
fn allocate_and_free_of_one_size_never_use_the_surface_up() {
    let mut allocator = RegionAllocator::new(size(128, 128));
    let kept = allocator.allocate(size(128, 64)).unwrap();
    for _ in 0..10_000 {
        let region = allocator.allocate(size(128, 64)).unwrap();
        assert_eq!(region, bounds(0, 64, 128, 64));
        assert!(allocator.free(region));
    }
    assert!(allocator.free(kept));
    for _ in 0..1_000 {
        let region = allocator.allocate(size(128, 128)).unwrap();
        assert_eq!(region, bounds(0, 0, 128, 128));
        assert!(allocator.free(region));
    }
    assert!(allocator.is_empty());
}

#[test]
fn a_free_makes_room_for_the_same_size() {
    let mut allocator = RegionAllocator::new(size(256, 64));
    let mut live = Vec::new();
    let sizes = [size(50, 64), size(70, 60), size(30, 64), size(100, 50)];
    for s in sizes {
        live.push(allocator.allocate(s).unwrap());
    }
    assert_eq!(allocator.allocate(size(7, 64)), None);
    for k in 0..live.len() {
        let region = live[k];
        assert!(allocator.free(region));
        let again = allocator.allocate(region.size).unwrap();
        assert_eq!(again.size, region.size);
        live[k] = again;
    }
}

#[test]
fn live_regions_never_overlap_and_stay_on_the_surface() {
    let extent = size(300, 200);
    let mut allocator = RegionAllocator::new(extent);
    let mut live: Vec<Bounds> = Vec::new();
    let mut seed: u32 = 12345;
    for step in 0..2_000u32 {
        seed = seed.wrapping_mul(1664525).wrapping_add(1013904223);
        let w = 1 + (seed >> 8) % 90;
        let h = 1 + (seed >> 16) % 70;
        if step % 3 == 2 && !live.is_empty() {
            let k = (seed as usize >> 4) % live.len();
            let gone = live.swap_remove(k);
            assert!(allocator.free(gone));
        } else if let Some(region) = allocator.allocate(size(w, h)) {
            assert_eq!(region.size, size(w, h));
            assert!(region.origin.x + region.size.width <= extent.width);
            assert!(region.origin.y + region.size.height <= extent.height);
            for other in &live {
                assert!(!overlap(region, *other));
            }
            live.push(region);
        }
    }
    for region in live {
        assert!(allocator.free(region));
    }
    assert!(allocator.is_empty());
}

#[test]
fn size_tests() {
    assert!(size(0, 3).is_empty());
    assert!(size(3, 0).is_empty());
    assert!(!size(1, 1).is_empty());
    assert!(size(3, 4).fits_in(size(3, 4)));
    assert!(!size(4, 4).fits_in(size(3, 4)));
    assert!(!size(3, 5).fits_in(size(3, 4)));
}
