use gpui_atlas::display::{display_uuid, DisplayError, DisplayId};
use gpui_atlas::surface::{extent, plan_batch, AlphaMode, BatchKind, BlendMode, DrawCall, SurfaceState};
use gpui_atlas::vertex::{can_map_attributes, map_attributes, VertexAttribute};
use gpui_atlas::window::{
    appearance, window_bounds, WindowAppearance, WindowBounds, WindowTheme,
    WinitWindowCreationInfo, WinitWindowParams,
};

#[test]
fn display_uuid_is_the_version_5_uuid_of_the_name() {
    assert_eq!(display_uuid(Some("example.org")), Ok(0xaad03681_8b63_5304_89e0_8ca8f49461b5));
    assert_eq!(display_uuid(Some("python.org")), Ok(0x886313e1_3b8a_5372_9b90_0c9aee199e5d));
    let expected = uuid::Uuid::new_v5(&uuid::Uuid::NAMESPACE_DNS, "DP-1".as_bytes());
    assert_eq!(display_uuid(Some("DP-1")), Ok(expected.as_u128()));
    assert_eq!(uuid::Uuid::from_u128(display_uuid(Some("DP-1")).unwrap()), expected);
    assert_ne!(display_uuid(Some("DP-1")), display_uuid(Some("DP-2")));
    assert_eq!(display_uuid(Some("DP-1")), display_uuid(Some("DP-1")));
}

#[test]
fn display_without_a_name_has_no_uuid() {
    assert_eq!(display_uuid(None), Err(DisplayError::MissingName));
    assert_eq!(DisplayError::MissingName.message(), "Failed to get monitor name");
}

#[test]
fn window_params_carry_the_display() {
    assert_eq!(WinitWindowParams::new(None).display_id(), None);
    assert_eq!(WinitWindowParams::new(Some(DisplayId(3))).display_id(), Some(DisplayId(3)));
    let info = WinitWindowCreationInfo { executor: 7u8 };
    assert_eq!(info.executor, 7);
}

#[test]
fn window_bounds_prefer_fullscreen_over_maximized() {
    assert_eq!(window_bounds((1, 2), true, true), WindowBounds::Fullscreen((1, 2)));
    assert_eq!(window_bounds((1, 2), true, false), WindowBounds::Fullscreen((1, 2)));
    assert_eq!(window_bounds((1, 2), false, true), WindowBounds::Maximized((1, 2)));
    assert_eq!(window_bounds((1, 2), false, false), WindowBounds::Windowed((1, 2)));
}

#[test]
fn appearance_follows_the_theme() {
    assert_eq!(appearance(Some(WindowTheme::Light)), WindowAppearance::Light);
    assert_eq!(appearance(Some(WindowTheme::Dark)), WindowAppearance::Dark);
    assert_eq!(appearance(None), WindowAppearance::Light);
    assert_eq!(WindowAppearance::fallback(), WindowAppearance::Light);
}

#[test]
fn map_attributes_moves_every_attribute() {
    let inner = [
        VertexAttribute { format: 'a', offset: 0, shader_location: 0 },
        VertexAttribute { format: 'b', offset: 16, shader_location: 1 },
    ];
    assert!(can_map_attributes(&inner, 4, 24));
    assert_eq!(
        map_attributes(&inner, 4, 24),
        vec![
            VertexAttribute { format: 'a', offset: 24, shader_location: 4 },
            VertexAttribute { format: 'b', offset: 40, shader_location: 5 },
        ]
    );
    assert_eq!(map_attributes(&inner, 0, 0), inner.to_vec());
    let none: [VertexAttribute<u8>; 0] = [];
    assert!(can_map_attributes(&none, u32::MAX, u64::MAX));
    assert_eq!(map_attributes(&none, u32::MAX, u64::MAX), Vec::new());
}

#[test]
fn map_attributes_reaches_the_ends_of_the_ranges() {
    let edge = [VertexAttribute { format: 0u8, offset: 10, shader_location: 5 }];
    assert!(can_map_attributes(&edge, u32::MAX - 5, u64::MAX - 10));
    assert_eq!(
        map_attributes(&edge, u32::MAX - 5, u64::MAX - 10),
        vec![VertexAttribute { format: 0u8, offset: u64::MAX, shader_location: u32::MAX }]
    );
    assert!(!can_map_attributes(&edge, u32::MAX - 4, 0));
    assert!(!can_map_attributes(&edge, 0, u64::MAX - 9));
}

#[test]
fn alpha_mode_decides_blending() {
    assert_eq!(AlphaMode::for_transparency(true), AlphaMode::PreMultiplied);
    assert_eq!(AlphaMode::for_transparency(false), AlphaMode::Opaque);
    assert_eq!(AlphaMode::PreMultiplied.blend_mode(), BlendMode::PremultipliedAlpha);
    assert_eq!(AlphaMode::PreMultiplied.premultiplied_alpha(), 1);
    for mode in [AlphaMode::Auto, AlphaMode::Opaque, AlphaMode::PostMultiplied, AlphaMode::Inherit] {
        assert_eq!(mode.blend_mode(), BlendMode::Alpha);
        assert_eq!(mode.premultiplied_alpha(), 0);
    }
}

#[test]
fn surface_state_takes_over_size_and_transparency() {
    let mut surface = SurfaceState { width: 1, height: 2, alpha_mode: AlphaMode::Auto };
    surface.update_drawable_size(800, 600);
    assert_eq!(surface, SurfaceState { width: 800, height: 600, alpha_mode: AlphaMode::Auto });
    surface.update_transparency(true);
    assert_eq!(surface, SurfaceState { width: 800, height: 600, alpha_mode: AlphaMode::PreMultiplied });
    surface.update_transparency(false);
    assert_eq!(surface.alpha_mode, AlphaMode::Opaque);
    surface.update_drawable_size(-1, i32::MIN);
    assert_eq!(surface.width, u32::MAX);
    assert_eq!(surface.height, 0x8000_0000);
}

#[test]
fn extent_wraps_negative_pixels() {
    assert_eq!(extent(0), 0);
    assert_eq!(extent(i32::MAX), 0x7fff_ffff);
    assert_eq!(extent(-1), u32::MAX);
    assert_eq!(extent(-2), -2i32 as u32);
}

#[test]
fn only_quads_are_drawn() {
    assert_eq!(plan_batch(BatchKind::Quads, 0), Some(DrawCall { vertices: 4, instances: 0 }));
    assert_eq!(plan_batch(BatchKind::Quads, 17), Some(DrawCall { vertices: 4, instances: 17 }));
    for kind in [
        BatchKind::Shadows,
        BatchKind::Paths,
        BatchKind::Underlines,
        BatchKind::MonochromeSprites,
        BatchKind::PolychromeSprites,
        BatchKind::Surfaces,
    ] {
        assert_eq!(plan_batch(kind, 17), None);
    }
}
