use vstd::prelude::*;

verus! {

/// An axis-aligned rectangle from corner `(x1, y1)` to corner `(x2, y2)`.
#[derive(PartialEq, Eq, Structural, Copy, Clone, Debug)]
pub struct Rect {
    pub x1: i32,
    pub x2: i32,
    pub y1: i32,
    pub y2: i32,
}

impl Rect {
    pub fn new(x: i32, y: i32, w: i32, h: i32) -> (r: Rect)
        requires
            x + w <= i32::MAX,
            y + h <= i32::MAX,
            x + w >= i32::MIN,
            y + h >= i32::MIN,
        ensures
            r.x1 == x && r.y1 == y && r.x2 == x + w && r.y2 == y + h,
    {
        Rect { x1: x, y1: y, x2: x + w, y2: y + h }
    }

    /// The two rectangles overlap or touch.
    pub fn intersect(&self, other: &Rect) -> (r: bool)
        ensures
            r == (self.x1 <= other.x2 && self.x2 >= other.x1 && self.y1 <= other.y2 && self.y2
                >= other.y1),
    {
        self.x1 <= other.x2 && self.x2 >= other.x1 && self.y1 <= other.y2 && self.y2 >= other.y1
    }

    /// The middle point, rounded down.
    pub fn center(&self) -> (r: (i32, i32))
        requires
            0 <= self.x1 && 0 <= self.x2 && 0 <= self.y1 && 0 <= self.y2,
        ensures
            r.0 == (self.x1 as int + self.x2 as int) / 2,
            r.1 == (self.y1 as int + self.y2 as int) / 2,
    {
        (((self.x1 as i64 + self.x2 as i64) / 2) as i32, ((self.y1 as i64 + self.y2 as i64) / 2) as i32)
    }
}

} // verus!
