//! Axis-aligned rectangles: room candidates on the 0-indexed grid.

use vstd::prelude::*;

verus! {

/// A rectangle on the map, used to characterise a room. Top-left corner
/// inclusive, bottom-right corner exclusive, derived from an origin plus a
/// width and a height.
#[derive(Clone, Copy, Debug, PartialEq, Eq, Structural)]
pub struct Rect {
    pub x1: i32,
    pub y1: i32,
    pub x2: i32,
    pub y2: i32,
}

impl Rect {
    /// A well-formed room candidate: non-empty on both axes, placed on the
    /// 0-indexed grid.
    pub open spec fn wf(self) -> bool {
        0 <= self.x1 < self.x2 && 0 <= self.y1 < self.y2
    }

    /// The integer-truncated midpoint.
    pub open spec fn center_spec(self) -> (int, int) {
        ((self.x1 + self.x2) / 2, (self.y1 + self.y2) / 2)
    }

    /// The standard axis-aligned bounding-box overlap test with inclusive
    /// bounds: true when the projections overlap on both axes. Rooms whose
    /// borders merely touch count as overlapping.
    pub open spec fn overlaps(self, other: Rect) -> bool {
        self.x1 <= other.x2 && self.x2 >= other.x1 && self.y1 <= other.y2 && self.y2 >= other.y1
    }

    /// Strictly inside the rectangle: the border rows and columns themselves
    /// are excluded, so carving an interior never touches the border.
    pub open spec fn interior_contains(self, x: int, y: int) -> bool {
        self.x1 < x < self.x2 && self.y1 < y < self.y2
    }

    /// Whole rectangle within a `width × height` grid. The bottom-right
    /// corner is exclusive, so `x2 == width` still fits.
    pub open spec fn fits(self, width: int, height: int) -> bool {
        0 <= self.x1 && self.x2 <= width && 0 <= self.y1 && self.y2 <= height
    }

    /// Build the rectangle from its top-left origin and its extent.
    pub fn new(x: i32, y: i32, w: i32, h: i32) -> (r: Rect)
        requires
            0 <= x,
            0 <= y,
            0 < w,
            0 < h,
            x + w <= i32::MAX,
            y + h <= i32::MAX,
        ensures
            r == (Rect { x1: x, y1: y, x2: (x + w) as i32, y2: (y + h) as i32 }),
            r.wf(),
    {
        Rect { x1: x, y1: y, x2: x + w, y2: y + h }
    }

    /// The integer-truncated midpoint of the rectangle.
    pub fn center(&self) -> (c: (i32, i32))
        requires
            self.wf(),
            self.x1 + self.x2 <= i32::MAX,
            self.y1 + self.y2 <= i32::MAX,
        ensures
            (c.0 as int, c.1 as int) == self.center_spec(),
    {
        let center_x = (self.x1 + self.x2) / 2;
        let center_y = (self.y1 + self.y2) / 2;
        (center_x, center_y)
    }

    /// True if this rectangle intersects with another one, border contact
    /// included; used purely for placement rejection.
    pub fn intersects_with(&self, other: &Rect) -> (r: bool)
        ensures
            r == self.overlaps(*other),
    {
        (self.x1 <= other.x2) && (self.x2 >= other.x1) && (self.y1 <= other.y2)
            && (self.y2 >= other.y1)
    }

    /// The midpoint of a room at least two cells wide and two cells tall lies
    /// strictly inside it, so a carved room always has a floor cell at its
    /// center.
    pub proof fn lemma_center_in_interior(self)
        requires
            self.wf(),
            self.x2 - self.x1 >= 2,
            self.y2 - self.y1 >= 2,
        ensures
            self.interior_contains(self.center_spec().0, self.center_spec().1),
    {
        let cx = (self.x1 + self.x2) / 2;
        let cy = (self.y1 + self.y2) / 2;
        assert(self.x1 < cx < self.x2);
        assert(self.y1 < cy < self.y2);
    }
}

} // verus!
