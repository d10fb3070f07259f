use vstd::prelude::*;

verus! {

/// A point of the world coordinate plane.
///
/// The core works on integer world coordinates; the view transform
/// that produces them from pixel positions lives outside the model.
#[derive(Debug, PartialEq, Eq, Structural, Copy, Clone)]
pub struct WorldPoint {
    pub x: i32,
    pub y: i32,
}

impl WorldPoint {
    /// The point with the given coordinates.
    pub fn new(x: i32, y: i32) -> (p: WorldPoint)
        ensures
            p == (WorldPoint { x, y }),
    {
        WorldPoint { x, y }
    }
}

/// An axis-aligned rectangle of the world plane, given by its two
/// corners with `left <= right` and `top <= bottom` for a non-empty
/// area.
#[derive(Debug, PartialEq, Eq, Structural, Copy, Clone)]
pub struct Rectangle2 {
    pub left: i32,
    pub top: i32,
    pub right: i32,
    pub bottom: i32,
}

/// Whether a rectangle contains a point, borders included.
pub open spec fn rect_contains(r: Rectangle2, x: int, y: int) -> bool {
    r.left <= x && x <= r.right && r.top <= y && y <= r.bottom
}

impl Rectangle2 {
    /// The rectangle with the given corners.
    pub fn new(left: i32, top: i32, right: i32, bottom: i32) -> (r: Rectangle2)
        ensures
            r == (Rectangle2 { left, top, right, bottom }),
    {
        Rectangle2 { left, top, right, bottom }
    }

    /// Whether the rectangle contains the point, borders included.
    pub fn contains(&self, x: i32, y: i32) -> (r: bool)
        ensures
            r == rect_contains(*self, x as int, y as int),
    {
        self.left <= x && x <= self.right && self.top <= y && y <= self.bottom
    }
}

} // verus!
