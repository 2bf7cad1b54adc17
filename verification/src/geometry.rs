//! Integer points and axis-aligned rectangles on the grid.

use vstd::prelude::*;

verus! {

/// A grid coordinate.
#[derive(Clone, Copy, Debug, PartialEq, Eq, Structural, Hash)]
pub struct Point {
    pub x: i32,
    pub y: i32,
}

impl Point {
    pub fn new(x: i32, y: i32) -> (p: Point)
        ensures
            p.x == x,
            p.y == y,
    {
        Point { x, y }
    }

    pub fn zero() -> (p: Point)
        ensures
            p.x == 0,
            p.y == 0,
    {
        Point { x: 0, y: 0 }
    }

    /// The point moved by `delta`, component by component.
    pub open spec fn offset(self, delta: Point) -> Point
        recommends
            self.can_offset(delta),
    {
        Point { x: (self.x + delta.x) as i32, y: (self.y + delta.y) as i32 }
    }

    /// Both component sums are representable.
    pub open spec fn can_offset(self, delta: Point) -> bool {
        &&& i32::MIN <= self.x + delta.x <= i32::MAX
        &&& i32::MIN <= self.y + delta.y <= i32::MAX
    }

    /// Adds `delta` to this point, or returns `None` if a coordinate would
    /// leave the `i32` range.
    pub fn checked_add(self, delta: Point) -> (r: Option<Point>)
        ensures
            self.can_offset(delta) ==> r == Some(self.offset(delta)),
            !self.can_offset(delta) ==> r.is_none(),
    {
        let x = self.x.checked_add(delta.x);
        let y = self.y.checked_add(delta.y);
        match (x, y) {
            (Some(x), Some(y)) => Some(Point { x, y }),
            _ => None,
        }
    }

    /// Squared straight-line distance between two points.
    pub open spec fn distance_squared(self, other: Point) -> int {
        (self.x - other.x) * (self.x - other.x) + (self.y - other.y) * (self.y - other.y)
    }

    /// Whether `other` lies strictly farther than `radius` from this point in
    /// straight-line distance, decided exactly over the integers.
    pub fn farther_than(self, other: Point, radius: u16) -> (b: bool)
        ensures
            b == (self.distance_squared(other) > radius * radius),
    {
        let dx: i64 = self.x as i64 - other.x as i64;
        let dy: i64 = self.y as i64 - other.y as i64;
        let r: i128 = radius as i128;
        assert(-0x1_0000_0000 < dx < 0x1_0000_0000);
        assert(-0x1_0000_0000 < dy < 0x1_0000_0000);
        assert(0 <= dx * dx <= 0x1_0000_0000 * 0x1_0000_0000) by (nonlinear_arith)
            requires
                -0x1_0000_0000 < dx < 0x1_0000_0000,
        ;
        assert(0 <= dy * dy <= 0x1_0000_0000 * 0x1_0000_0000) by (nonlinear_arith)
            requires
                -0x1_0000_0000 < dy < 0x1_0000_0000,
        ;
        assert(0 <= r * r <= 0x1_0000 * 0x1_0000) by (nonlinear_arith)
            requires
                0 <= r < 0x1_0000,
        ;
        let dx2: i128 = (dx as i128) * (dx as i128);
        let dy2: i128 = (dy as i128) * (dy as i128);
        dx2 + dy2 > r * r
    }
}

/// An axis-aligned rectangle covering the cells `x1 <= x < x2`, `y1 <= y < y2`.
#[derive(Clone, Copy, Debug, PartialEq, Eq, Structural)]
pub struct Rect {
    pub x1: i32,
    pub x2: i32,
    pub y1: i32,
    pub y2: i32,
}

/// Half of `s`, rounded toward zero.
pub open spec fn half_toward_zero(s: int) -> int {
    if s >= 0 {
        s / 2
    } else {
        -((-s) / 2)
    }
}

impl Rect {
    /// The rectangle with corner `(x, y)`, width `w` and height `h`.
    pub fn with_size(x: i32, y: i32, w: i32, h: i32) -> (r: Rect)
        requires
            i32::MIN <= x + w <= i32::MAX,
            i32::MIN <= y + h <= i32::MAX,
        ensures
            r.x1 == x,
            r.y1 == y,
            r.x2 == x + w,
            r.y2 == y + h,
    {
        Rect { x1: x, y1: y, x2: x + w, y2: y + h }
    }

    /// Two rectangles overlap when their spans meet on both axes; touching
    /// edges count as overlap.
    pub open spec fn overlaps(self, other: Rect) -> bool {
        &&& self.x1 <= other.x2
        &&& self.x2 >= other.x1
        &&& self.y1 <= other.y2
        &&& self.y2 >= other.y1
    }

    pub fn intersect(&self, other: &Rect) -> (b: bool)
        ensures
            b == self.overlaps(*other),
    {
        self.x1 <= other.x2 && self.x2 >= other.x1 && self.y1 <= other.y2 && self.y2 >= other.y1
    }

    /// The midpoint of the two corners, each coordinate rounded toward zero.
    pub open spec fn spec_center(self) -> Point {
        Point {
            x: half_toward_zero(self.x1 + self.x2) as i32,
            y: half_toward_zero(self.y1 + self.y2) as i32,
        }
    }

    pub fn center(&self) -> (p: Point)
        ensures
            p == self.spec_center(),
    {
        Point { x: midpoint(self.x1, self.x2), y: midpoint(self.y1, self.y2) }
    }

    /// Whether the cell `p` lies inside the rectangle.
    pub open spec fn contains(self, p: Point) -> bool {
        self.x1 <= p.x < self.x2 && self.y1 <= p.y < self.y2
    }

    pub fn point_in_rect(&self, p: Point) -> (b: bool)
        ensures
            b == self.contains(p),
    {
        p.x >= self.x1 && p.x < self.x2 && p.y >= self.y1 && p.y < self.y2
    }
}

fn midpoint(a: i32, b: i32) -> (m: i32)
    ensures
        m == half_toward_zero(a + b),
{
    let s: i64 = a as i64 + b as i64;
    if s >= 0 {
        (s / 2) as i32
    } else {
        (-((-s) / 2)) as i32
    }
}

} // verus!
