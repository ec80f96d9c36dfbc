//! Axis-aligned collision boxes. A collider carries only its size; the
//! owner's world position is supplied at every query, never baked in.

use vstd::prelude::*;

use crate::geom::{Point, Rect, COORD_LIMIT};

verus! {

/// A rectangular collision box in the owner's local frame.
#[derive(Clone, Copy, PartialEq, Eq, Structural, Debug)]
pub struct Collider {
    pub width: i64,
    pub height: i64,
}

impl Collider {
    /// Non-negative sides within the world bound.
    pub open spec fn wf(self) -> bool {
        0 <= self.width <= COORD_LIMIT && 0 <= self.height <= COORD_LIMIT
    }

    /// The box placed at world position `at`.
    pub open spec fn spec_rect(self, at: Point) -> Rect {
        Rect { x: at.x, y: at.y, w: self.width, h: self.height }
    }

    pub fn new(width: i64, height: i64) -> (c: Collider)
        requires
            0 <= width <= COORD_LIMIT,
            0 <= height <= COORD_LIMIT,
        ensures
            c == (Collider { width, height }),
            c.wf(),
    {
        Collider { width, height }
    }

    /// The bounding box of this collider for an owner standing at `at`.
    pub fn rect(&self, at: Point) -> (r: Rect)
        ensures
            r == self.spec_rect(at),
    {
        Rect { x: at.x, y: at.y, w: self.width, h: self.height }
    }

    /// The middle of the box for an owner standing at `at`.
    pub fn center(&self, at: Point) -> (p: Point)
        requires
            self.wf(),
            at.in_bounds(),
        ensures
            p.x == at.x + self.width / 2,
            p.y == at.y + self.height / 2,
    {
        Point { x: at.x + self.width / 2, y: at.y + self.height / 2 }
    }

    /// Degenerate boxes take part in nothing collision-related.
    pub fn is_zero(&self) -> (r: bool)
        requires
            self.wf(),
        ensures
            r == (self.width + self.height < 1),
    {
        self.width + self.height < 1
    }
}

} // verus!
