//! Points and axis-aligned rectangles on the integer plane.

use vstd::prelude::*;

verus! {

/// An integer position `(x, y)`.
#[derive(Clone, Copy, Debug, PartialEq, Eq, Structural)]
pub struct Point {
    pub x: i32,
    pub y: i32,
}

impl Point {
    /// The point `(x, y)`.
    pub open spec fn at(x: i32, y: i32) -> Point {
        Point { x, y }
    }

    /// The point `(x, y)`.
    pub fn new(x: i32, y: i32) -> (p: Point)
        ensures
            p == Point::at(x, y),
            p.x == x,
            p.y == y,
    {
        Point { x, y }
    }
}

/// The midpoint of `a` and `b`, rounded down.
pub open spec fn midpoint(a: int, b: int) -> int {
    (a + b) / 2
}

/// An axis-aligned rectangle covering the cells `(x, y)` with
/// `x1 <= x < x2` and `y1 <= y < y2`.
#[derive(Clone, Copy, Debug, PartialEq, Eq, Structural)]
pub struct Rect {
    pub x1: i32,
    pub x2: i32,
    pub y1: i32,
    pub y2: i32,
}

impl Rect {
    /// The rectangle with origin `(x, y)`, width `w` and height `h`.
    pub open spec fn sized(x: int, y: int, w: int, h: int) -> Rect {
        Rect { x1: x as i32, x2: (x + w) as i32, y1: y as i32, y2: (y + h) as i32 }
    }

    /// Whether the rectangle has positive width and height.
    pub open spec fn is_proper(&self) -> bool {
        self.x1 < self.x2 && self.y1 < self.y2
    }

    /// Whether `p` is one of the cells the rectangle covers.
    pub open spec fn contains(&self, p: Point) -> bool {
        self.x1 <= p.x < self.x2 && self.y1 <= p.y < self.y2
    }

    /// Overlap test with inclusive edges: rectangles that merely touch
    /// count as intersecting.
    pub open spec fn spec_intersect(&self, other: &Rect) -> bool {
        self.x1 <= other.x2 && self.x2 >= other.x1 && self.y1 <= other.y2 && self.y2 >= other.y1
    }

    pub open spec fn spec_center(&self) -> Point {
        Point {
            x: midpoint(self.x1 as int, self.x2 as int) as i32,
            y: midpoint(self.y1 as int, self.y2 as int) as i32,
        }
    }

    pub fn with_size(x: i32, y: i32, w: i32, h: i32) -> (r: Rect)
        requires
            i32::MIN <= x + w <= i32::MAX,
            i32::MIN <= y + h <= i32::MAX,
        ensures
            r == Rect::sized(x as int, y as int, w as int, h as int),
            r.x1 == x,
            r.x2 == x + w,
            r.y1 == y,
            r.y2 == y + h,
    {
        Rect { x1: x, x2: x + w, y1: y, y2: y + h }
    }

    #[verifier::when_used_as_spec(spec_intersect)]
    pub fn intersect(&self, other: &Rect) -> (hit: bool)
        ensures
            hit == self.spec_intersect(other),
    {
        self.x1 <= other.x2 && self.x2 >= other.x1 && self.y1 <= other.y2 && self.y2 >= other.y1
    }

    #[verifier::when_used_as_spec(spec_center)]
    pub fn center(&self) -> (c: Point)
        ensures
            c == self.spec_center(),
            c.x == midpoint(self.x1 as int, self.x2 as int),
            c.y == midpoint(self.y1 as int, self.y2 as int),
    {
        Point { x: halfway(self.x1, self.x2), y: halfway(self.y1, self.y2) }
    }
}

/// The center of a rectangle of positive width and height is one of the
/// cells it covers.
pub proof fn lemma_center_inside(r: Rect)
    requires
        r.is_proper(),
    ensures
        r.contains(r.spec_center()),
{
}

/// Intersecting does not depend on the order of the two rectangles.
pub proof fn lemma_intersect_symmetric(a: Rect, b: Rect)
    ensures
        a.spec_intersect(&b) == b.spec_intersect(&a),
{
}

/// Rectangles that do not intersect share no cell, whatever their shape.
pub proof fn lemma_apart_share_no_cell(a: Rect, b: Rect, p: Point)
    requires
        !a.spec_intersect(&b),
    ensures
        !(a.contains(p) && b.contains(p)),
{
}

/// The midpoint of two coordinates, rounded down, computed without overflow.
fn halfway(a: i32, b: i32) -> (m: i32)
    ensures
        m == midpoint(a as int, b as int),
{
    let sum: i64 = a as i64 + b as i64;
    if sum >= 0 {
        (sum / 2) as i32
    } else {
        (-((1 - sum) / 2)) as i32
    }
}

} // verus!
