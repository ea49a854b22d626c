//! What the renderer decides about the surface it draws on: how large it
//! is, how its pixels blend with what lies behind the window, and which
//! batches of a scene it draws.

use vstd::prelude::*;

verus! {

/// How the alpha channel of a surface is read when the surface is laid
/// over what lies behind the window.
#[derive(Clone, Copy, Debug, PartialEq, Eq, Structural)]
pub enum AlphaMode {
    Auto,
    Opaque,
    PreMultiplied,
    PostMultiplied,
    Inherit,
}

/// How a fragment is blended with the pixel it is drawn over.
#[derive(Clone, Copy, Debug, PartialEq, Eq, Structural)]
pub enum BlendMode {
    /// The colour is multiplied by its alpha while it is blended.
    Alpha,
    /// The colour has been multiplied by its alpha already.
    PremultipliedAlpha,
}

impl AlphaMode {
    /// The alpha mode of a window that is transparent, or is not.
    pub fn for_transparency(transparent: bool) -> (r: AlphaMode)
        ensures
            r == if transparent {
                AlphaMode::PreMultiplied
            } else {
                AlphaMode::Opaque
            },
    {
        if transparent {
            AlphaMode::PreMultiplied
        } else {
            AlphaMode::Opaque
        }
    }

    /// The blending of the pipelines that draw on a surface of this mode.
    pub fn blend_mode(&self) -> (r: BlendMode)
        ensures
            r == if *self == AlphaMode::PreMultiplied {
                BlendMode::PremultipliedAlpha
            } else {
                BlendMode::Alpha
            },
    {
        match self {
            AlphaMode::PreMultiplied => BlendMode::PremultipliedAlpha,
            _ => BlendMode::Alpha,
        }
    }

    /// What the shaders are told of the mode: 1 when colours are to be
    /// multiplied by their alpha beforehand, else 0.
    pub fn premultiplied_alpha(&self) -> (r: u32)
        ensures
            r == if *self == AlphaMode::PreMultiplied {
                1u32
            } else {
                0u32
            },
    {
        match self {
            AlphaMode::PreMultiplied => 1,
            _ => 0,
        }
    }
}

/// The size and the alpha mode with which a surface is configured.
#[derive(Clone, Copy, Debug, PartialEq, Eq, Structural)]
pub struct SurfaceState {
    pub width: u32,
    pub height: u32,
    pub alpha_mode: AlphaMode,
}

/// A count of device pixels as the extent of a surface: the same number
/// where it is not negative, else the number plus 2 to the power of 32.
pub open spec fn spec_extent(pixels: i32) -> u32 {
    if pixels >= 0 {
        pixels as u32
    } else {
        (pixels + 0x1_0000_0000) as u32
    }
}

#[verifier::when_used_as_spec(spec_extent)]
pub fn extent(pixels: i32) -> (r: u32)
    ensures
        r == spec_extent(pixels),
{
    if pixels >= 0 {
        pixels as u32
    } else {
        let wrapped: i64 = pixels as i64 + 0x1_0000_0000;
        wrapped as u32
    }
}

impl SurfaceState {
    /// Takes over a new size of the drawable, given in device pixels.
    pub fn update_drawable_size(&mut self, width: i32, height: i32)
        ensures
            *final(self) == (SurfaceState {
                width: extent(width),
                height: extent(height),
                alpha_mode: old(self).alpha_mode,
            }),
    {
        self.width = extent(width);
        self.height = extent(height);
    }

    /// Takes over whether the window is transparent.
    pub fn update_transparency(&mut self, transparent: bool)
        ensures
            *final(self) == (SurfaceState {
                alpha_mode: if transparent {
                    AlphaMode::PreMultiplied
                } else {
                    AlphaMode::Opaque
                },
                ..*old(self)
            }),
    {
        self.alpha_mode = AlphaMode::for_transparency(transparent);
    }
}

/// The kinds of batches of primitives that a scene is made of.
#[derive(Clone, Copy, Debug, PartialEq, Eq, Structural)]
pub enum BatchKind {
    Shadows,
    Quads,
    Paths,
    Underlines,
    MonochromeSprites,
    PolychromeSprites,
    Surfaces,
}

/// One instanced draw: `vertices` vertices for each of `instances` instances.
#[derive(Clone, Copy, Debug, PartialEq, Eq, Structural)]
pub struct DrawCall {
    pub vertices: u32,
    pub instances: u32,
}

/// The draw that a batch of `len` primitives takes: four vertices for each
/// quad, and nothing for the kinds that are not drawn. The number of
/// instances is `len` as far as 32 bits hold it.
pub fn plan_batch(kind: BatchKind, len: usize) -> (r: Option<DrawCall>)
    ensures
        r == if kind == BatchKind::Quads {
            Some(DrawCall { vertices: 4, instances: (len as int % 0x1_0000_0000) as u32 })
        } else {
            None
        },
{
    match kind {
        BatchKind::Quads => Some(
            DrawCall { vertices: 4, instances: (len as u64 % 0x1_0000_0000) as u32 },
        ),
        _ => None,
    }
}

} // verus!
