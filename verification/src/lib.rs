//! A texture atlas manager: many small bitmap tiles packed into a few large
//! backing textures, with per-tile lifetimes, slot reuse and uploads that are
//! staged now and handed to the renderer once per frame.
//!
//! The atlas never touches the device. It says where each tile lies, which
//! textures are to be created and which pixels are to be copied where; the
//! renderer does the creating and copying.
//!
//! From the bottom up:
//! - [`geometry`]: points, sizes and rectangles in device pixels;
//! - [`shelf_layout`] and [`region_allocator`]: packing rectangles into one
//!   texture, and proofs that live rectangles never overlap;
//! - [`atlas_texture`] and [`atlas_texture_list`]: one backing texture, and
//!   the table of the textures of one kind with its free slots;
//! - [`storage_model`]: the tiles of one kind together with their textures;
//! - [`atlas_model`] and [`atlas_state`]: the whole atlas and its operations;
//! - [`atlas_laws`]: what holds across operations;
//! - [`atlas`]: the atlas behind a lock, for shared use.
//!
//! Beside the atlas stand the small decisions of the platform layer:
//! [`display`], [`window`], [`surface`] and [`vertex`].

pub mod atlas;
pub mod atlas_laws;
pub mod atlas_model;
pub mod atlas_state;
mod atlas_storage;
pub mod atlas_texture;
pub mod atlas_texture_list;
pub mod atlas_types;
pub mod display;
pub mod geometry;
pub mod region_allocator;
pub mod shelf_layout;
pub mod storage_model;
pub mod surface;
pub mod vertex;
pub mod window;
