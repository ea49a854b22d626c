//! Integer geometry in device pixels: points, sizes and axis-aligned rectangles.

use vstd::prelude::*;

verus! {

/// A position in device pixels, measured from the top-left corner of a surface.
#[derive(Clone, Copy, Debug, PartialEq, Eq, Structural)]
pub struct Point {
    pub x: u32,
    pub y: u32,
}

/// A width and a height in device pixels.
#[derive(Clone, Copy, Debug, PartialEq, Eq, Structural)]
pub struct Size {
    pub width: u32,
    pub height: u32,
}

/// An axis-aligned rectangle: the pixels `(x, y)` with
/// `origin.x <= x < origin.x + size.width` and `origin.y <= y < origin.y + size.height`.
#[derive(Clone, Copy, Debug, PartialEq, Eq, Structural)]
pub struct Bounds {
    pub origin: Point,
    pub size: Size,
}

impl Size {
    /// True when the size covers no pixel at all.
    pub open spec fn spec_is_empty(&self) -> bool {
        self.width == 0 || self.height == 0
    }

    /// True when a rectangle of this size can be laid inside one of size `outer`.
    pub open spec fn spec_fits_in(&self, outer: Size) -> bool {
        self.width <= outer.width && self.height <= outer.height
    }

    /// The number of pixels covered.
    pub open spec fn area(&self) -> nat {
        (self.width * self.height) as nat
    }

    #[verifier::when_used_as_spec(spec_is_empty)]
    pub fn is_empty(&self) -> (r: bool)
        ensures
            r == self.spec_is_empty(),
    {
        self.width == 0 || self.height == 0
    }

    #[verifier::when_used_as_spec(spec_fits_in)]
    pub fn fits_in(&self, outer: Size) -> (r: bool)
        ensures
            r == self.spec_fits_in(outer),
    {
        self.width <= outer.width && self.height <= outer.height
    }
}

impl Bounds {
    /// One past the right-most column, as a mathematical integer.
    pub open spec fn right(&self) -> int {
        self.origin.x + self.size.width
    }

    /// One past the bottom-most row, as a mathematical integer.
    pub open spec fn bottom(&self) -> int {
        self.origin.y + self.size.height
    }

    /// True when the pixel `(x, y)` belongs to the rectangle.
    pub open spec fn has_pixel(&self, x: int, y: int) -> bool {
        self.origin.x <= x < self.right() && self.origin.y <= y < self.bottom()
    }

    /// True when every pixel of the rectangle lies on a surface of size `extent`.
    pub open spec fn within(&self, extent: Size) -> bool {
        self.right() <= extent.width && self.bottom() <= extent.height
    }

    /// True when the two rectangles share at least one pixel.
    pub open spec fn overlaps(&self, other: Bounds) -> bool {
        &&& self.origin.x < self.right() && self.origin.x < other.right()
        &&& other.origin.x < self.right() && other.origin.x < other.right()
        &&& self.origin.y < self.bottom() && self.origin.y < other.bottom()
        &&& other.origin.y < self.bottom() && other.origin.y < other.bottom()
    }

    /// Two rectangles overlap exactly when some pixel belongs to both.
    pub proof fn law_overlap_is_a_shared_pixel(a: Bounds, b: Bounds)
        ensures
            a.overlaps(b) <==> exists|x: int, y: int| a.has_pixel(x, y) && b.has_pixel(x, y),
    {
        if a.overlaps(b) {
            let x = if a.origin.x >= b.origin.x { a.origin.x as int } else { b.origin.x as int };
            let y = if a.origin.y >= b.origin.y { a.origin.y as int } else { b.origin.y as int };
            assert(a.has_pixel(x, y) && b.has_pixel(x, y));
        }
    }
}

} // verus!
