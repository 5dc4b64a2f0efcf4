use vstd::prelude::*;

verus! {

/// An axis-aligned rectangle on the map grid, given by its two corners.
#[derive(PartialEq, Eq, Structural, Clone, Copy, Debug)]
pub struct Rect {
    pub x1: i32,
    pub x2: i32,
    pub y1: i32,
    pub y2: i32,
}

/// Whether the two closed rectangles `a` and `b` share at least one cell.
pub open spec fn rects_overlap(a: Rect, b: Rect) -> bool {
    a.x1 <= b.x2 && a.x2 >= b.x1 && a.y1 <= b.y2 && a.y2 >= b.y1
}

/// Integer division of `a` by two, rounding towards zero as Rust does.
pub open spec fn half(a: int) -> int {
    if a >= 0 { a / 2 } else { -((-a) / 2) }
}

/// The cell in the middle of the rectangle.
pub open spec fn rect_center(r: Rect) -> (int, int) {
    (half(r.x1 + r.x2), half(r.y1 + r.y2))
}

impl Rect {
    /// Builds the rectangle whose top-left corner is `(x, y)`, `w` wide and `h` high.
    pub fn new(x: i32, y: i32, w: i32, h: i32) -> (r: Rect)
        requires
            i32::MIN <= x + w <= i32::MAX,
            i32::MIN <= y + h <= i32::MAX,
        ensures
            r.x1 == x,
            r.y1 == y,
            r.x2 == x + w,
            r.y2 == y + h,
    {
        Rect { x1: x, y1: y, x2: x + w, y2: y + h }
    }

    /// Returns true if this rectangle overlaps with `other`.
    pub fn intersect(&self, other: &Rect) -> (b: bool)
        ensures
            b == rects_overlap(*self, *other),
    {
        self.x1 <= other.x2 && self.x2 >= other.x1 && self.y1 <= other.y2 && self.y2 >= other.y1
    }

    /// The middle cell of the rectangle.
    pub fn center(&self) -> (c: (i32, i32))
        requires
            i32::MIN <= self.x1 + self.x2 <= i32::MAX,
            i32::MIN <= self.y1 + self.y2 <= i32::MAX,
        ensures
            c.0 == rect_center(*self).0,
            c.1 == rect_center(*self).1,
    {
        ((self.x1 + self.x2) / 2, (self.y1 + self.y2) / 2)
    }
}

/// Law: overlapping is symmetric.
pub proof fn lemma_overlap_symmetric(a: Rect, b: Rect)
    ensures
        rects_overlap(a, b) == rects_overlap(b, a),
{
}

/// Law: a rectangle overlaps itself, and the centre of a rectangle lies within it.
pub proof fn lemma_center_inside(r: Rect)
    requires
        r.x1 <= r.x2,
        r.y1 <= r.y2,
    ensures
        rects_overlap(r, r),
        r.x1 <= rect_center(r).0 <= r.x2,
        r.y1 <= rect_center(r).1 <= r.y2,
{
}

} // verus!
