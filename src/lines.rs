use vstd::prelude::*;
use bracket_geometry::prelude::{line2d_bresenham, Point as GeoPoint};

verus! {

pub open spec fn between(v: int, a: int, b: int) -> bool {
    (a <= v && v <= b) || (b <= v && v <= a)
}

/// Relies on bracket_geometry's `line2d_bresenham`: the points of a
/// Bresenham line that starts at the start point and ends with the end
/// point, all inside the box the two points span.
#[verifier::external_body]
pub(crate) fn bresenham_line(x1: i32, y1: i32, x2: i32, y2: i32) -> (r: Vec<(i32, i32)>)
    requires
        0 <= x1 <= 1000000000,
        0 <= y1 <= 1000000000,
        0 <= x2 <= 1000000000,
        0 <= y2 <= 1000000000,
    ensures
        r@.len() >= 1,
        r@[0] == (x1, y1),
        r@.last() == (x2, y2),
        forall|k: int|
            0 <= k < r@.len() ==> between((#[trigger] r@[k]).0 as int, x1 as int, x2 as int) && between(
                r@[k].1 as int,
                y1 as int,
                y2 as int,
            ),
{
    line2d_bresenham(GeoPoint::new(x1, y1), GeoPoint::new(x2, y2)).iter().map(|p| (p.x, p.y)).collect()
}

} // verus!
