//! Integer pixel geometry for the schedule widget: positions and
//! rectangles. Coordinates grow rightwards and downwards.

use vstd::prelude::*;

verus! {

/// Largest pixel coordinate the engine works with; keeps every product of
/// two coordinates inside an `i64`.
pub const PX_MAX: i64 = 0x2000_0000;

/// A point in pixel space.
#[derive(Clone, Copy, Debug, PartialEq, Eq, Structural)]
pub struct Pos {
    pub x: i64,
    pub y: i64,
}

/// An axis-aligned rectangle `[x0, x1) x [y0, y1)` in pixel space.
#[derive(Clone, Copy, Debug, PartialEq, Eq, Structural)]
pub struct Rect {
    pub x0: i64,
    pub y0: i64,
    pub x1: i64,
    pub y1: i64,
}

impl Pos {
    /// The coordinates lie in the working range.
    pub open spec fn bounded(self) -> bool {
        -PX_MAX <= self.x <= PX_MAX && -PX_MAX <= self.y <= PX_MAX
    }
}

impl Rect {
    /// The corners lie in the working range (the rectangle may be empty).
    pub open spec fn bounded(self) -> bool {
        &&& -PX_MAX <= self.x0 <= PX_MAX
        &&& -PX_MAX <= self.y0 <= PX_MAX
        &&& -PX_MAX <= self.x1 <= PX_MAX
        &&& -PX_MAX <= self.y1 <= PX_MAX
    }

    /// Whether the point lies inside the rectangle.
    pub open spec fn spec_contains(self, p: Pos) -> bool {
        self.x0 <= p.x < self.x1 && self.y0 <= p.y < self.y1
    }

    /// Decide whether the point lies inside the rectangle.
    pub fn contains(&self, p: Pos) -> (r: bool)
        ensures
            r == self.spec_contains(p),
    {
        self.x0 <= p.x && p.x < self.x1 && self.y0 <= p.y && p.y < self.y1
    }

    /// Whether the two rectangles share a point.
    pub open spec fn spec_intersects(self, other: Rect) -> bool {
        &&& (if self.x0 >= other.x0 {
            self.x0
        } else {
            other.x0
        }) < (if self.x1 <= other.x1 {
            self.x1
        } else {
            other.x1
        })
        &&& (if self.y0 >= other.y0 {
            self.y0
        } else {
            other.y0
        }) < (if self.y1 <= other.y1 {
            self.y1
        } else {
            other.y1
        })
    }

    /// Decide whether the two rectangles share a point.
    pub fn intersects(&self, other: &Rect) -> (r: bool)
        ensures
            r == self.spec_intersects(*other),
    {
        let lx: i64 = if self.x0 >= other.x0 {
            self.x0
        } else {
            other.x0
        };
        let hx: i64 = if self.x1 <= other.x1 {
            self.x1
        } else {
            other.x1
        };
        let ly: i64 = if self.y0 >= other.y0 {
            self.y0
        } else {
            other.y0
        };
        let hy: i64 = if self.y1 <= other.y1 {
            self.y1
        } else {
            other.y1
        };
        lx < hx && ly < hy
    }
}

} // verus!
