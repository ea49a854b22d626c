//! The plain data of the atlas: keys, texture ids, tiles, errors, and what is
//! queued for the next frame.

use crate::geometry::{Bounds, Size};
use vstd::prelude::*;

verus! {

/// The pixel format family of a tile, which decides the backing textures it
/// can live in.
#[derive(Clone, Copy, Debug, PartialEq, Eq, Hash, Structural)]
pub enum AtlasTextureKind {
    /// One channel per pixel.
    Monochrome,
    /// Four channels per pixel.
    Polychrome,
}

impl AtlasTextureKind {
    /// The number of bytes that one pixel takes in a texture of this kind.
    pub open spec fn spec_bytes_per_pixel(&self) -> u32 {
        match self {
            AtlasTextureKind::Monochrome => 1,
            AtlasTextureKind::Polychrome => 4,
        }
    }

    #[verifier::when_used_as_spec(spec_bytes_per_pixel)]
    pub fn bytes_per_pixel(&self) -> (r: u32)
        ensures
            r == self.spec_bytes_per_pixel(),
    {
        match self {
            AtlasTextureKind::Monochrome => 1,
            AtlasTextureKind::Polychrome => 4,
        }
    }
}

/// What a tile shows: a fingerprint of its content and the kind of texture
/// it needs. Two keys are the same tile exactly when both fields are equal.
#[derive(Clone, Copy, Debug, PartialEq, Eq, Hash, Structural)]
pub struct AtlasKey {
    pub fingerprint: u64,
    pub kind: AtlasTextureKind,
}

impl AtlasKey {
    pub fn new(fingerprint: u64, kind: AtlasTextureKind) -> (r: Self)
        ensures
            r == (AtlasKey { fingerprint, kind }),
    {
        AtlasKey { fingerprint, kind }
    }

    /// The kind of texture in which the tile of this key lives.
    pub fn texture_kind(&self) -> (r: AtlasTextureKind)
        ensures
            r == self.kind,
    {
        self.kind
    }
}

/// One backing texture: a slot of the table of its kind. The index is stable
/// while the texture lives and is used again after the texture is gone.
#[derive(Clone, Copy, Debug, PartialEq, Eq, Hash, Structural)]
pub struct AtlasTextureId {
    pub index: usize,
    pub kind: AtlasTextureKind,
}

/// Where a tile is: a rectangle of a backing texture. A tile is plain data
/// and owns nothing.
#[derive(Clone, Copy, Debug, PartialEq, Eq, Structural)]
pub struct AtlasTile {
    pub texture_id: AtlasTextureId,
    pub bounds: Bounds,
    /// Pixels left blank around the content inside `bounds`; none for tiles
    /// that the atlas places.
    pub padding: u32,
}

/// The content of a tile could not be produced.
#[derive(Clone, Debug, PartialEq, Eq)]
pub struct BuildError {
    pub message: String,
}

/// A tile is larger than a backing texture can be.
#[derive(Clone, Copy, Debug, PartialEq, Eq, Structural)]
pub struct AllocationError {
    /// The size that was asked for.
    pub requested: Size,
    /// The largest width and height of a backing texture.
    pub limit: u32,
}

/// Why a tile could not be inserted.
#[derive(Clone, Debug, PartialEq, Eq)]
pub enum AtlasError {
    Build(BuildError),
    Allocation(AllocationError),
}

/// Pixels waiting to be copied into a backing texture: `len` bytes of the
/// staging area, starting at `offset`, go to the rectangle `bounds` of the
/// texture `id`.
#[derive(Clone, Copy, Debug, PartialEq, Eq, Structural)]
pub struct PendingUpload {
    pub id: AtlasTextureId,
    pub bounds: Bounds,
    pub offset: usize,
    pub len: usize,
}

impl PendingUpload {
    /// The number of bytes that one row of the rectangle takes in its texture.
    pub open spec fn row_bytes(&self) -> int {
        self.bounds.size.width * self.id.kind.bytes_per_pixel()
    }

    /// The number of bytes that the whole rectangle takes in its texture.
    pub open spec fn needed_bytes(&self) -> int {
        self.row_bytes() * self.bounds.size.height
    }
}

/// The length in bytes of one row of an upload, as a copy into the texture
/// needs it: `None` when a row is longer than 32 bits can say, or when the
/// staged bytes of the upload do not cover its rectangle.
pub fn upload_row_bytes(upload: &PendingUpload) -> (r: Option<u32>)
    ensures
        r == if upload.row_bytes() <= u32::MAX && upload.needed_bytes() <= upload.len {
            Some(upload.row_bytes() as u32)
        } else {
            None
        },
{
    let width = upload.bounds.size.width as u64;
    let height = upload.bounds.size.height as u64;
    let row = width * (upload.id.kind.bytes_per_pixel() as u64);
    if row > u32::MAX as u64 {
        return None;
    }
    assert(row * height <= u64::MAX) by (nonlinear_arith)
        requires
            row <= u32::MAX,
            height <= u32::MAX,
    ;
    if row * height > upload.len as u64 {
        return None;
    }
    Some(row as u32)
}

/// A backing texture waiting to be created on the device.
#[derive(Clone, Copy, Debug, PartialEq, Eq, Structural)]
pub struct TextureInit {
    pub id: AtlasTextureId,
    pub size: Size,
}

/// What the renderer has to encode before it draws a frame: first the
/// textures to create, then the copies into them, both in order. The copies
/// read their pixels from `staging`.
#[derive(Debug)]
pub struct FrameCommands {
    pub initializations: Vec<TextureInit>,
    pub uploads: Vec<PendingUpload>,
    pub staging: Vec<u8>,
}

impl FrameCommands {
    /// Every copy reads bytes that `staging` holds and fills a rectangle
    /// that is not empty.
    pub open spec fn wf(&self) -> bool {
        forall|k: int|
            0 <= k < self.uploads@.len() ==> {
                &&& (#[trigger] self.uploads@[k]).offset + self.uploads@[k].len
                    <= self.staging@.len()
                &&& !self.uploads@[k].bounds.size.is_empty()
            }
    }

    /// True when there is nothing to encode.
    pub fn is_empty(&self) -> (r: bool)
        ensures
            r == (self.initializations@.len() == 0 && self.uploads@.len() == 0),
    {
        self.initializations.len() == 0 && self.uploads.len() == 0
    }
}

/// What a renderer needs to bind a backing texture.
#[derive(Clone, Copy, Debug, PartialEq, Eq, Structural)]
pub struct WgpuTextureInfo {
    pub id: AtlasTextureId,
    pub size: Size,
    pub bytes_per_pixel: u32,
}

} // verus!
