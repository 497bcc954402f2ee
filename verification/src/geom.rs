//! Axis-aligned rectangles with half-open extents, and the
//! best-short-side-fit heuristic used to score candidate placements.

use vstd::prelude::*;

verus! {

/// An axis-aligned rectangle over unsigned coordinates, half-open on both
/// axes: a point equal to `min` lies inside, a point equal to `max` does not.
#[derive(Clone, Copy, Debug, PartialEq, Eq)]
pub struct Rectangle {
    pub min: (u32, u32),
    pub max: (u32, u32),
}

/// A rectangle is well formed when its minimum corner does not exceed its
/// maximum corner on either axis.
pub open spec fn rect_wf(r: Rectangle) -> bool {
    r.min.0 <= r.max.0 && r.min.1 <= r.max.1
}

/// Strict intersection of two half-open rectangles: rectangles that merely
/// touch along an edge do not intersect.
pub open spec fn rects_intersect(a: Rectangle, b: Rectangle) -> bool {
    &&& a.min.0 < b.max.0
    &&& a.min.1 < b.max.1
    &&& a.max.0 > b.min.0
    &&& a.max.1 > b.min.1
}

/// Non-strict containment: `a` covers all of `b` (equal rectangles contain
/// each other).
pub open spec fn rect_supersets(a: Rectangle, b: Rectangle) -> bool {
    &&& a.min.0 <= b.min.0
    &&& a.min.1 <= b.min.1
    &&& a.max.0 >= b.max.0
    &&& a.max.1 >= b.max.1
}

/// Whether the integer point `(x, y)` lies inside the half-open rectangle.
pub open spec fn point_in(r: Rectangle, x: int, y: int) -> bool {
    r.min.0 <= x < r.max.0 && r.min.1 <= y < r.max.1
}

/// Whether a free rectangle's extent dominates the requested size on both
/// axes, so that the size can be placed at the rectangle's minimum corner.
pub open spec fn fits(f: Rectangle, width: u32, height: u32) -> bool {
    f.max.0 - f.min.0 >= width && f.max.1 - f.min.1 >= height
}

/// The best-short-side-fit score of placing a `width` by `height` item into
/// the free rectangle `f`: the smaller of the two leftover extents. Lower is
/// better; meaningful only when `fits(f, width, height)` holds.
pub open spec fn fit_score(f: Rectangle, width: u32, height: u32) -> int {
    vstd::math::min(f.max.0 - f.min.0 - width, f.max.1 - f.min.1 - height)
}

impl Rectangle {
    /// Builds the rectangle `[min, max)`.
    pub fn new(min: (u32, u32), max: (u32, u32)) -> (r: Rectangle)
        ensures
            r == (Rectangle { min, max }),
    {
        Rectangle { min, max }
    }

    /// Whether this rectangle coincides with another, field for field.
    pub fn same_as(&self, other: &Rectangle) -> (r: bool)
        ensures
            r == (*self == *other),
    {
        self.min.0 == other.min.0 && self.min.1 == other.min.1 && self.max.0 == other.max.0
            && self.max.1 == other.max.1
    }

    /// Whether this rectangle strictly intersects another.
    pub fn intersects(&self, other: &Rectangle) -> (r: bool)
        ensures
            r == rects_intersect(*self, *other),
    {
        self.min.0 < other.max.0 && self.min.1 < other.max.1 && self.max.0 > other.min.0
            && self.max.1 > other.min.1
    }

    /// Whether this rectangle contains all of another rectangle.
    pub fn supersets(&self, other: &Rectangle) -> (r: bool)
        ensures
            r == rect_supersets(*self, *other),
    {
        self.min.0 <= other.min.0 && self.min.1 <= other.min.1 && self.max.0 >= other.max.0
            && self.max.1 >= other.max.1
    }

    /// The width and height of the rectangle.
    pub fn dimensions(&self) -> (d: (u32, u32))
        requires
            rect_wf(*self),
        ensures
            d.0 == self.max.0 - self.min.0,
            d.1 == self.max.1 - self.min.1,
    {
        (self.max.0 - self.min.0, self.max.1 - self.min.1)
    }
}

/// The best-short-side heuristic: the score of fitting an extent `sub` into
/// an extent `sup`, or `None` when `sup` does not dominate `sub` on both axes.
pub fn bssf(sup: &(u32, u32), sub: &(u32, u32)) -> (r: Option<u32>)
    ensures
        sup.0 >= sub.0 && sup.1 >= sub.1 ==> r == Some(
            (vstd::math::min(sup.0 - sub.0, sup.1 - sub.1)) as u32,
        ),
        !(sup.0 >= sub.0 && sup.1 >= sub.1) ==> r is None,
{
    if sup.0 >= sub.0 && sup.1 >= sub.1 {
        let a = sup.0 - sub.0;
        let b = sup.1 - sub.1;
        if a <= b {
            Some(a)
        } else {
            Some(b)
        }
    } else {
        None
    }
}

} // verus!
