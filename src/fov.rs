use vstd::prelude::*;
use crate::map::TileMap;
use crate::tiletype::opaque;

verus! {

/// A grid coordinate.
#[derive(PartialEq, Eq, Structural, Copy, Clone, Debug)]
pub struct Point {
    pub x: i32,
    pub y: i32,
}

/// Maps an octant's local (column, row) offsets onto absolute (dx, dy) offsets.
struct Transform {
    xx: i32,
    xy: i32,
    yx: i32,
    yy: i32,
}

impl Transform {
    /// A signed permutation of the two axes.
    spec fn wf(&self) -> bool {
        ||| (self.xx == 0 && self.yy == 0 && (self.xy == 1 || self.xy == -1) && (self.yx == 1
            || self.yx == -1))
        ||| (self.xy == 0 && self.yx == 0 && (self.xx == 1 || self.xx == -1) && (self.yy == 1
            || self.yy == -1))
    }
}

/// Where the viewer stands and how far they see.
struct Viewer {
    x: i32,
    y: i32,
    radius: i32,
}

/// The exact slope `num / den` of a line through the viewer.
#[derive(Copy, Clone)]
struct Slope {
    num: i64,
    den: i64,
}

const SLOPE_BOUND: i64 = 100000;

spec fn slope_ok(s: Slope) -> bool {
    -SLOPE_BOUND <= s.num <= SLOPE_BOUND && 1 <= s.den <= SLOPE_BOUND
}

spec fn slope_lt(a: Slope, b: Slope) -> bool {
    a.num * b.den < b.num * a.den
}

fn less(a: Slope, b: Slope) -> (r: bool)
    requires
        slope_ok(a),
        slope_ok(b),
    ensures
        r == slope_lt(a, b),
{
    proof {
        assert(-10000000000 <= a.num * b.den <= 10000000000) by (nonlinear_arith)
            requires slope_ok(a), slope_ok(b);
        assert(-10000000000 <= b.num * a.den <= 10000000000) by (nonlinear_arith)
            requires slope_ok(a), slope_ok(b);
    }
    a.num * b.den < b.num * a.den
}

/// A radius whose square fits in an `i32`.
pub open spec fn radius_ok(radius: int) -> bool {
    0 <= radius && radius * radius <= i32::MAX
}

/// `p` lies on the map and is the viewer's own tile or closer than `radius`
/// (squared Euclidean distance).
pub open spec fn in_view_range(map: &TileMap, x: int, y: int, radius: int, p: Point) -> bool {
    &&& map.in_bounds(p.x as int, p.y as int)
    &&& ((p.x == x && p.y == y) || (p.x - x) * (p.x - x) + (p.y - y) * (p.y - y) < radius
        * radius)
}

spec fn all_in_range(map: &TileMap, v: &Viewer, s: Seq<Point>) -> bool {
    forall|k: int|
        0 <= k < s.len() ==> in_view_range(map, v.x as int, v.y as int, v.radius as int, #[trigger] s[k])
}

spec fn extends(old_s: Seq<Point>, new_s: Seq<Point>) -> bool {
    old_s.len() <= new_s.len() && forall|k: int| 0 <= k < old_s.len() ==> new_s[k] == old_s[k]
}

/// The map tile an octant offset `(dx, dy)` lands on.
spec fn target(v: &Viewer, t: &Transform, dx: int, dy: int) -> (int, int) {
    (v.x + dx * t.xx + dy * t.xy, v.y + dx * t.yx + dy * t.yy)
}

/// No tile of the map blocks sight.
pub open spec fn clear(map: &TileMap) -> bool {
    forall|i: int| 0 <= i < map.tiles@.len() ==> !opaque(#[trigger] map.tiles@[i])
}

/// The cell `dx` of row `i` of the octant `t` is in `s` when it is on the
/// map and inside the radius.
spec fn cell_seen(map: &TileMap, v: &Viewer, t: &Transform, s: Seq<Point>, i: int, dx: int) -> bool {
    let (ax, ay) = target(v, t, dx, -i);
    map.in_bounds(ax, ay) && dx * dx + i * i < v.radius * v.radius ==> s.contains(Point { x: ax as i32, y: ay as i32 })
}

/// The whole first call of an octant: every row from `row` on, every cell
/// of each row seen.
spec fn rows_seen(map: &TileMap, v: &Viewer, t: &Transform, s: Seq<Point>, row: int, upto: int) -> bool {
    forall|i: int, dx: int| row <= i < upto && -i <= dx <= 0 ==> #[trigger] cell_seen(map, v, t, s, i, dx)
}

spec fn is_first_call(row: i32, start_slope: Slope, end_slope: Slope) -> bool {
    row == 1 && start_slope.num == 1 && start_slope.den == 1 && end_slope.num == 0 && end_slope.den == 1
}

proof fn lemma_extends_keeps(a: Seq<Point>, b: Seq<Point>, p: Point)
    requires
        extends(a, b),
        a.contains(p),
    ensures
        b.contains(p),
{
    let k = choose|k: int| 0 <= k < a.len() && a[k] == p;
    assert(b[k] == p);
}

/// What was seen stays seen as the list grows.
proof fn lemma_rows_seen_grow(map: &TileMap, v: &Viewer, t: &Transform, a: Seq<Point>, b: Seq<Point>, row: int, upto: int)
    requires
        rows_seen(map, v, t, a, row, upto),
        extends(a, b),
    ensures
        rows_seen(map, v, t, b, row, upto),
{
    assert forall|i: int, dx: int| row <= i < upto && -i <= dx <= 0 implies #[trigger] cell_seen(map, v, t, b, i, dx) by {
        assert(cell_seen(map, v, t, a, i, dx));
        let (ax, ay) = target(v, t, dx, -i);
        if map.in_bounds(ax, ay) && dx * dx + i * i < v.radius * v.radius {
            lemma_extends_keeps(a, b, Point { x: ax as i32, y: ay as i32 });
        }
    }
}

/// After visiting cell `dx` of row `i`, the cells of the row up to it are seen.
proof fn lemma_seen_grows(map: &TileMap, v: &Viewer, t: &Transform, a: Seq<Point>, b: Seq<Point>, row: int, i: int, dx: int)
    requires
        extends(a, b),
        rows_seen(map, v, t, a, row, i),
        forall|d: int| -i <= d < dx ==> #[trigger] cell_seen(map, v, t, a, i, d),
        ({
            let (ax, ay) = target(v, t, dx, -i);
            map.in_bounds(ax, ay) && dx * dx + i * i < v.radius * v.radius ==> b.contains(Point { x: ax as i32, y: ay as i32 })
        }),
    ensures
        rows_seen(map, v, t, b, row, i),
        forall|d: int| -i <= d < dx + 1 ==> #[trigger] cell_seen(map, v, t, b, i, d),
{
    lemma_rows_seen_grow(map, v, t, a, b, row, i);
    assert forall|d: int| -i <= d < dx + 1 implies #[trigger] cell_seen(map, v, t, b, i, d) by {
        if d < dx {
            assert(cell_seen(map, v, t, a, i, d));
            let (ax, ay) = target(v, t, d, -i);
            if map.in_bounds(ax, ay) && d * d + i * i < v.radius * v.radius {
                lemma_extends_keeps(a, b, Point { x: ax as i32, y: ay as i32 });
            }
        }
    }
}

/// Looks at the octant cell `(dx, dy)`: `None` off the map; otherwise
/// whether it is opaque, having added it to `visible` when it lies within
/// the radius.
fn visit(visible: &mut Vec<Point>, map: &TileMap, viewer: &Viewer, transform: &Transform, dx: i32, dy: i32, radius_sq: i64) -> (r: Option<bool>)
    requires
        map.wf(),
        map.in_bounds(viewer.x as int, viewer.y as int),
        radius_ok(viewer.radius as int),
        viewer.radius <= 46341,
        radius_sq == viewer.radius * viewer.radius,
        transform.wf(),
        -46341 <= dx <= 0,
        -46341 <= dy <= 0,
        all_in_range(map, viewer, old(visible)@),
    ensures
        all_in_range(map, viewer, final(visible)@),
        extends(old(visible)@, final(visible)@),
        ({
            let (ax, ay) = target(viewer, transform, dx as int, dy as int);
            &&& (r is None <==> !map.in_bounds(ax, ay))
            &&& r matches Some(o) ==> o == opaque(map.at(ax, ay))
            &&& map.in_bounds(ax, ay) && dx * dx + dy * dy < viewer.radius * viewer.radius ==> final(visible)@ == old(visible)@.push(Point { x: ax as i32, y: ay as i32 })
            &&& !(map.in_bounds(ax, ay) && dx * dx + dy * dy < viewer.radius * viewer.radius) ==> final(visible)@ == old(visible)@
        }),
{
    let sax: i32 = dx * transform.xx + dy * transform.xy;
    let say: i32 = dx * transform.yx + dy * transform.yy;
    if (sax < 0 && -sax > viewer.x) || (say < 0 && -say > viewer.y) {
        return None;
    }
    let ax64: i64 = viewer.x as i64 + sax as i64;
    let ay64: i64 = viewer.y as i64 + say as i64;
    if ax64 >= map.width as i64 || ay64 >= map.height as i64 {
        return None;
    }
    let ax = ax64 as i32;
    let ay = ay64 as i32;
    let dx64 = dx as i64;
    let dy64 = dy as i64;
    proof {
        assert(0 <= dx64 * dx64 <= 46341 * 46341) by (nonlinear_arith)
            requires -46341 <= dx64 <= 0;
        assert(0 <= dy64 * dy64 <= 46341 * 46341) by (nonlinear_arith)
            requires -46341 <= dy64 <= 0;
    }
    let d2: i64 = dx64 * dx64 + dy64 * dy64;
    if d2 < radius_sq {
        proof {
            assert(sax * sax + say * say == dx * dx + dy * dy) by (nonlinear_arith)
                requires
                    transform.wf(),
                    sax == dx * transform.xx + dy * transform.xy,
                    say == dx * transform.yx + dy * transform.yy;
        }
        let p = Point { x: ax, y: ay };
        visible.push(p);
        proof {
            assert(in_view_range(map, viewer.x as int, viewer.y as int, viewer.radius as int, p));
            assert(all_in_range(map, viewer, visible@)) by {
                assert forall|k: int| 0 <= k < visible@.len() implies
                    in_view_range(map, viewer.x as int, viewer.y as int, viewer.radius as int, #[trigger] visible@[k]) by {
                    if k == visible@.len() - 1 {
                        assert(visible@[k] == p);
                    }
                }
            }
        }
    }
    Some(map.is_opaque(map.xy_idx(ax, ay)))
}

/// A cell that the first call of octant `t` covers and that lies on the map
/// within the radius is in `s`.
proof fn lemma_cover(map: &TileMap, v: &Viewer, t: &Transform, s: Seq<Point>, i: int, dx: int, px: int, py: int)
    requires
        rows_seen(map, v, t, s, 1, v.radius + 1),
        0 <= v.radius,
        1 <= i,
        -i <= dx <= 0,
        target(v, t, dx, -i) == (px, py),
        map.in_bounds(px, py),
        dx * dx + i * i < v.radius * v.radius,
    ensures
        s.contains(Point { x: px as i32, y: py as i32 }),
{
    assert(i <= v.radius) by (nonlinear_arith)
        requires dx * dx + i * i < v.radius * v.radius, 1 <= i, 0 <= v.radius;
    assert(cell_seen(map, v, t, s, i, dx));
}

proof fn lemma_radius_bound(r: int)
    requires
        radius_ok(r),
    ensures
        r <= 46341,
{
    if r > 46341 {
        assert(r * r > 46341 * 46341) by (nonlinear_arith)
            requires r > 46341;
    }
}

/// Computes the points visible from `(x, y)` within `radius` by recursive
/// shadowcasting over the eight octants around the viewer. The viewer's own
/// tile comes first; a point on the border of two octants may appear twice.
pub fn field_of_view(x: i32, y: i32, radius: i32, map: &TileMap) -> (r: Vec<Point>)
    requires
        map.wf(),
        map.in_bounds(x as int, y as int),
        radius_ok(radius as int),
    ensures
        r@.len() >= 1,
        r@[0] == (Point { x, y }),
        forall|k: int|
            0 <= k < r@.len() ==> in_view_range(map, x as int, y as int, radius as int, #[trigger] r@[k]),
        clear(map) ==> forall|px: int, py: int|
            map.in_bounds(px, py) && (px - x) * (px - x) + (py - y) * (py - y) < radius * radius ==> #[trigger] r@.contains(
                Point { x: px as i32, y: py as i32 },
            ),
{
    let transforms: Vec<Transform> = vec![
        Transform { xx: 1, xy: 0, yx: 0, yy: 1 },
        Transform { xx: 0, xy: 1, yx: 1, yy: 0 },
        Transform { xx: 0, xy: -1, yx: 1, yy: 0 },
        Transform { xx: -1, xy: 0, yx: 0, yy: 1 },
        Transform { xx: -1, xy: 0, yx: 0, yy: -1 },
        Transform { xx: 0, xy: -1, yx: -1, yy: 0 },
        Transform { xx: 0, xy: 1, yx: -1, yy: 0 },
        Transform { xx: 1, xy: 0, yx: 0, yy: -1 },
    ];
    let viewer = Viewer { x, y, radius };
    let mut visible: Vec<Point> = Vec::new();
    visible.push(Point { x, y });
    let mut t: usize = 0;
    while t < transforms.len()
        invariant
            map.wf(),
            map.in_bounds(x as int, y as int),
            radius_ok(radius as int),
            viewer.x == x && viewer.y == y && viewer.radius == radius,
            forall|j: int| 0 <= j < transforms@.len() ==> (#[trigger] transforms@[j]).wf(),
            visible@.len() >= 1,
            visible@[0] == (Point { x, y }),
            all_in_range(map, &viewer, visible@),
            t <= transforms@.len(),
            transforms@.len() == 8,
            clear(map) ==> forall|j: int| 0 <= j < t ==> #[trigger] rows_seen(map, &viewer, &transforms@[j], visible@, 1, radius + 1),
        decreases transforms.len() - t,
    {
        let ghost before = visible@;
        cast_light(
            &mut visible,
            map,
            &viewer,
            1,
            Slope { num: 1, den: 1 },
            Slope { num: 0, den: 1 },
            &transforms[t],
        );
        proof {
            if clear(map) {
                assert forall|j: int| 0 <= j < t + 1 implies #[trigger] rows_seen(map, &viewer, &transforms@[j], visible@, 1, radius + 1) by {
                    if j < t {
                        lemma_rows_seen_grow(map, &viewer, &transforms@[j], before, visible@, 1, radius + 1);
                    }
                }
            }
        }
        t += 1;
    }
    proof {
        if clear(map) {
            assert forall|px: int, py: int|
                map.in_bounds(px, py) && (px - x) * (px - x) + (py - y) * (py - y) < radius * radius implies #[trigger] visible@.contains(
                    Point { x: px as i32, y: py as i32 },
                ) by {
                let ox = px - x;
                let oy = py - y;
                let v = &viewer;
                let s = visible@;
                assert(ox * ox == (-ox) * (-ox) && oy * oy == (-oy) * (-oy)) by (nonlinear_arith);
                if ox == 0 && oy == 0 {
                    assert(s[0] == Point { x: px as i32, y: py as i32 });
                } else if oy < 0 && oy <= ox && ox <= 0 {
                    let tr = transforms@[0];
                    assert(tr.xx == 1 && tr.xy == 0 && tr.yx == 0 && tr.yy == 1);
                    assert((ox) * tr.xx + (-(-oy)) * tr.xy == ox && (ox) * tr.yx + (-(-oy)) * tr.yy == oy) by (nonlinear_arith)
                        requires tr.xx == 1, tr.xy == 0, tr.yx == 0, tr.yy == 1;
                    lemma_cover(map, v, &transforms@[0], s, -oy, ox, px, py);
                } else if ox < 0 && ox <= oy && oy <= 0 {
                    let tr = transforms@[1];
                    assert(tr.xx == 0 && tr.xy == 1 && tr.yx == 1 && tr.yy == 0);
                    assert((oy) * tr.xx + (-(-ox)) * tr.xy == ox && (oy) * tr.yx + (-(-ox)) * tr.yy == oy) by (nonlinear_arith)
                        requires tr.xx == 0, tr.xy == 1, tr.yx == 1, tr.yy == 0;
                    lemma_cover(map, v, &transforms@[1], s, -ox, oy, px, py);
                } else if ox > 0 && -ox <= oy && oy <= 0 {
                    lemma_cover(map, v, &transforms@[2], s, ox, oy, px, py);
                } else if oy < 0 && 0 <= ox && ox <= -oy {
                    lemma_cover(map, v, &transforms@[3], s, -oy, -ox, px, py);
                } else if oy > 0 && 0 <= ox && ox <= oy {
                    lemma_cover(map, v, &transforms@[4], s, oy, -ox, px, py);
                } else if ox > 0 && 0 <= oy && oy <= ox {
                    lemma_cover(map, v, &transforms@[5], s, ox, -oy, px, py);
                } else if ox < 0 && 0 <= oy && oy <= -ox {
                    let tr = transforms@[6];
                    assert(tr.xx == 0 && tr.xy == 1 && tr.yx == -1 && tr.yy == 0);
                    assert((-oy) * tr.xx + (-(-ox)) * tr.xy == ox && (-oy) * tr.yx + (-(-ox)) * tr.yy == oy) by (nonlinear_arith)
                        requires tr.xx == 0, tr.xy == 1, tr.yx == -1, tr.yy == 0;
                    lemma_cover(map, v, &transforms@[6], s, -ox, -oy, px, py);
                } else {
                    lemma_cover(map, v, &transforms@[7], s, oy, ox, px, py);
                }
            }
        }
    }
    visible
}

/// Scans the rows of one octant from `row` outwards, inside the cone between
/// `start_slope` and `end_slope`, and recurses past each run of opaque tiles.
fn cast_light(
    visible: &mut Vec<Point>,
    map: &TileMap,
    viewer: &Viewer,
    row: i32,
    start_slope: Slope,
    end_slope: Slope,
    transform: &Transform,
)
    requires
        map.wf(),
        map.in_bounds(viewer.x as int, viewer.y as int),
        radius_ok(viewer.radius as int),
        transform.wf(),
        slope_ok(start_slope),
        slope_ok(end_slope),
        1 <= row <= viewer.radius + 1,
        all_in_range(map, viewer, old(visible)@),
    ensures
        all_in_range(map, viewer, final(visible)@),
        extends(old(visible)@, final(visible)@),
        slope_lt(start_slope, end_slope) ==> final(visible)@ == old(visible)@,
        clear(map) && is_first_call(row, start_slope, end_slope) ==> rows_seen(
            map,
            viewer,
            transform,
            final(visible)@,
            row as int,
            viewer.radius + 1,
        ),
    decreases viewer.radius + 1 - row,
{
    if less(start_slope, end_slope) {
        proof {
            let (a, b, c, d) = (start_slope.num, start_slope.den, end_slope.num, end_slope.den);
            assert(a == 1 && b == 1 && c == 0 && d == 1 ==> !(a * d < c * b)) by (nonlinear_arith);
        }
        return;
    }
    proof {
        lemma_radius_bound(viewer.radius as int);
    }
    let radius_sq: i64 = (viewer.radius as i64) * (viewer.radius as i64);
    let ghost v0 = visible@;
    let ghost open = clear(map);
    let ghost first = is_first_call(row, start_slope, end_slope);
    let mut start_slope = start_slope;
    let mut next_start_slope = start_slope;
    let mut i: i32 = row;
    while i <= viewer.radius
        invariant
            map.wf(),
            map.in_bounds(viewer.x as int, viewer.y as int),
            radius_ok(viewer.radius as int),
            viewer.radius <= 46341,
            radius_sq == viewer.radius * viewer.radius,
            transform.wf(),
            slope_ok(start_slope),
            slope_ok(next_start_slope),
            slope_ok(end_slope),
            1 <= row <= i <= viewer.radius + 1,
            all_in_range(map, viewer, visible@),
            extends(v0, visible@),
            open == clear(map),
            open && first ==> start_slope.num == 1 && start_slope.den == 1 && end_slope.num == 0 && end_slope.den == 1,
            open && first ==> rows_seen(map, viewer, transform, visible@, row as int, i as int),
        ensures
            open && first ==> i == viewer.radius + 1,
            1 <= row <= i <= viewer.radius + 1,
            all_in_range(map, viewer, visible@),
            extends(v0, visible@),
            open && first ==> rows_seen(map, viewer, transform, visible@, row as int, i as int),
        decreases viewer.radius + 1 - i,
    {
        let mut blocked = false;
        let dy: i32 = -i;
        let mut dx: i32 = -i;
        while dx <= 0
            invariant
                map.wf(),
                map.in_bounds(viewer.x as int, viewer.y as int),
                radius_ok(viewer.radius as int),
                viewer.radius <= 46341,
                radius_sq == viewer.radius * viewer.radius,
                transform.wf(),
                slope_ok(start_slope),
                slope_ok(next_start_slope),
                slope_ok(end_slope),
                1 <= row <= i <= viewer.radius,
                dy == -i,
                -i <= dx <= 1,
                all_in_range(map, viewer, visible@),
                extends(v0, visible@),
                open == clear(map),
                open && first ==> start_slope.num == 1 && start_slope.den == 1 && end_slope.num == 0 && end_slope.den == 1 && !blocked,
                open && first ==> rows_seen(map, viewer, transform, visible@, row as int, i as int),
                open && first ==> forall|d: int| -i <= d < dx ==> #[trigger] cell_seen(map, viewer, transform, visible@, i as int, d),
            ensures
                open && first ==> dx == 1,
            decreases 1 - dx,
        {
            let left_slope = Slope { num: (1 - 2 * dx) as i64, den: (2 * i - 1) as i64 };
            let right_slope = Slope { num: (0 - 2 * dx - 1) as i64, den: (2 * i + 1) as i64 };
            if less(start_slope, right_slope) {
                // still short of the cone
                proof {
                    assert(!(open && first));
                }
            } else if less(left_slope, end_slope) {
                proof {
                    assert(!(open && first));
                }
                break;
            } else {
                let ghost before = visible@;
                let seen = visit(visible, map, viewer, transform, dx, dy, radius_sq);
                proof {
                    if open && first {
                        let (ax, ay) = target(viewer, transform, dx as int, -i as int);
                        assert(dy * dy == i * i) by (nonlinear_arith)
                            requires dy == -i;
                        if map.in_bounds(ax, ay) {
                            crate::map::lemma_index_in_range(map.width as int, map.height as int, ax, ay);
                            if dx * dx + i * i < viewer.radius * viewer.radius {
                                assert(visible@[before.len() as int] == Point { x: ax as i32, y: ay as i32 });
                            }
                        }
                        lemma_seen_grows(map, viewer, transform, before, visible@, row as int, i as int, dx as int);
                    }
                }
                match seen {
                    None => {},
                    Some(opaque_here) => {
                        if blocked {
                            if opaque_here {
                                next_start_slope = right_slope;
                            } else {
                                blocked = false;
                                start_slope = next_start_slope;
                            }
                        } else if opaque_here {
                            blocked = true;
                            next_start_slope = right_slope;
                            cast_light(visible, map, viewer, row + 1, start_slope, left_slope, transform);
                        }
                    },
                }
            }
            dx += 1;
        }
        if blocked {
            break;
        }
        proof {
            if open && first {
                assert forall|a: int, d: int| row <= a < i + 1 && -a <= d <= 0 implies #[trigger] cell_seen(map, viewer, transform, visible@, a, d) by {
                    if a < i {
                        assert(rows_seen(map, viewer, transform, visible@, row as int, i as int));
                    }
                }
            }
        }
        i += 1;
    }
}

} // verus!
