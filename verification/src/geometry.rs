//! Plain integer geometry: sizes and axis-aligned regions.
//!
//! Coordinates are `i64` layout units. A [`Region`] is stored by its two
//! corners, `(x0, y0)` at the top left and `(x1, y1)` at the bottom right;
//! its width and height are corner differences, saturated into `i64`.

use vstd::prelude::*;

use crate::arith::{add_sat, sat_add, sat_sub, sub_sat};

verus! {

/// A width/height pair in layout units.
#[derive(Clone, Copy, Debug, PartialEq, Eq, Structural)]
pub struct Size {
    pub width: i64,
    pub height: i64,
}

impl Size {
    pub fn new(width: i64, height: i64) -> (s: Size)
        ensures
            s == (Size { width, height }),
    {
        Size { width, height }
    }
}

impl Default for Size {
    fn default() -> (s: Size)
        ensures
            s == (Size { width: 0, height: 0 }),
    {
        Size { width: 0, height: 0 }
    }
}

/// A two-dimensional displacement, used for scroll offsets.
#[derive(Clone, Copy, Debug, PartialEq, Eq, Structural)]
pub struct Vec2 {
    pub x: i64,
    pub y: i64,
}

impl Default for Vec2 {
    fn default() -> (v: Vec2)
        ensures
            v == (Vec2 { x: 0i64, y: 0i64 }),
    {
        Vec2 { x: 0, y: 0 }
    }
}

/// An axis-aligned rectangle assigned to a node by the layout pass.
#[derive(Clone, Copy, Debug, PartialEq, Eq, Structural)]
pub struct Region {
    pub x0: i64,
    pub y0: i64,
    pub x1: i64,
    pub y1: i64,
}

impl Region {
    /// The region with corner `(x, y)`, the given width and the given
    /// height; the far corner saturates at the ends of the coordinate range.
    pub fn new(x: i64, y: i64, width: i64, height: i64) -> (r: Region)
        ensures
            r.x0 == x,
            r.y0 == y,
            r.x1 as int == sat_add(x as int, width as int),
            r.y1 as int == sat_add(y as int, height as int),
    {
        Region { x0: x, y0: y, x1: add_sat(x, width), y1: add_sat(y, height) }
    }

    /// The all-zero region, the value every cache slot starts from.
    pub open spec fn spec_zero() -> Region {
        Region { x0: 0, y0: 0, x1: 0, y1: 0 }
    }

    pub fn zero() -> (r: Region)
        ensures
            r == Region::spec_zero(),
    {
        Region { x0: 0, y0: 0, x1: 0, y1: 0 }
    }

    /// The width as a mathematical integer (corner difference, no saturation).
    pub open spec fn spec_width(self) -> int {
        self.x1 - self.x0
    }

    /// The height as a mathematical integer (corner difference, no saturation).
    pub open spec fn spec_height(self) -> int {
        self.y1 - self.y0
    }

    pub fn width(&self) -> (w: i64)
        ensures
            w as int == sat_sub(self.x1 as int, self.x0 as int),
    {
        sub_sat(self.x1, self.x0)
    }

    pub fn height(&self) -> (h: i64)
        ensures
            h as int == sat_sub(self.y1 as int, self.y0 as int),
    {
        sub_sat(self.y1, self.y0)
    }

    pub fn size(&self) -> (s: Size)
        ensures
            s.width as int == sat_sub(self.x1 as int, self.x0 as int),
            s.height as int == sat_sub(self.y1 as int, self.y0 as int),
    {
        Size { width: self.width(), height: self.height() }
    }
}

impl Default for Region {
    fn default() -> (r: Region)
        ensures
            r == (Region { x0: 0i64, y0: 0i64, x1: 0i64, y1: 0i64 }),
    {
        Region::zero()
    }
}

} // verus!
