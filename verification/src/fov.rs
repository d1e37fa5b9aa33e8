//! Field of view over the map's opacity predicate: a cell is visible when it
//! is inside the grid, within the sight radius, and the interpolated sight
//! line from the viewer reaches it without crossing a wall.

use vstd::prelude::*;
use vstd::arithmetic::div_mod::lemma_fundamental_div_mod_converse;
use vstd::math::abs;
use crate::components::Point;
use crate::map::{GameMap, TileType};

verus! {

/// Rounded division `a / n` to the nearest integer, halves away from zero.
pub open spec fn rnd_div(a: int, n: int) -> int
    recommends
        1 <= n,
{
    if a >= 0 {
        (2 * a + n) / (2 * n)
    } else {
        -((2 * (-a) + n) / (2 * n))
    }
}

/// Number of interpolation steps of the sight line: the larger coordinate
/// distance (Chebyshev), so consecutive line points touch.
pub open spec fn line_len(x0: int, y0: int, x1: int, y1: int) -> int {
    if abs(x1 - x0) >= abs(y1 - y0) {
        abs(x1 - x0) as int
    } else {
        abs(y1 - y0) as int
    }
}

/// The `i`-th point of the sight line from `(x0, y0)` to `(x1, y1)`.
pub open spec fn line_point(x0: int, y0: int, x1: int, y1: int, i: int) -> (int, int)
    recommends
        1 <= line_len(x0, y0, x1, y1),
{
    let n = line_len(x0, y0, x1, y1);
    (x0 + rnd_div(i * (x1 - x0), n), y0 + rnd_div(i * (y1 - y0), n))
}

/// Sight cannot pass `(x, y)`: the cell is off the grid or a wall.
pub open spec fn tile_opaque(tiles: Seq<TileType>, w: int, h: int, x: int, y: int) -> bool {
    !(0 <= x < w && 0 <= y < h) || tiles[y * w + x] is Wall
}

/// Step `i` of the sight line from `(x0, y0)` to `(x1, y1)` is see-through.
pub open spec fn clear_at_step(
    tiles: Seq<TileType>,
    w: int,
    h: int,
    x0: int,
    y0: int,
    x1: int,
    y1: int,
    i: int,
) -> bool {
    !tile_opaque(
        tiles,
        w,
        h,
        line_point(x0, y0, x1, y1, i).0,
        line_point(x0, y0, x1, y1, i).1,
    )
}

/// Every cell strictly between the endpoints of the sight line is
/// see-through.
pub open spec fn sight_line_clear(
    tiles: Seq<TileType>,
    w: int,
    h: int,
    x0: int,
    y0: int,
    x1: int,
    y1: int,
) -> bool {
    forall|i: int|
        1 <= i < line_len(x0, y0, x1, y1) ==> clear_at_step(tiles, w, h, x0, y0, x1, y1, i)
}

/// Cell `(x, y)` is visible from `(ox, oy)` within `range`: in the grid, no
/// farther than `range` (Euclidean), with a clear sight line.
pub open spec fn cell_visible(
    tiles: Seq<TileType>,
    w: int,
    h: int,
    ox: int,
    oy: int,
    range: int,
    x: int,
    y: int,
) -> bool {
    &&& 0 <= range
    &&& 0 <= x < w
    &&& 0 <= y < h
    &&& (x - ox) * (x - ox) + (y - oy) * (y - oy) <= range * range
    &&& sight_line_clear(tiles, w, h, ox, oy, x, y)
}

/// `a` comes strictly before `b` in row-major order.
pub open spec fn point_before(a: Point, b: Point) -> bool {
    a.y < b.y || (a.y == b.y && a.x < b.x)
}

/// Rounded division of an exact multiple is exact.
pub proof fn lemma_rnd_div_exact(m: int, n: int)
    requires
        1 <= n,
    ensures
        rnd_div(m * n, n) == m,
{
    if m >= 0 {
        assert(m * n >= 0 && 2 * (m * n) + n == m * (2 * n) + n) by (nonlinear_arith)
            requires 1 <= n, 0 <= m,
        {}
        lemma_fundamental_div_mod_converse(2 * (m * n) + n, 2 * n, m, n);
    } else {
        assert(m * n < 0 && -(m * n) == (-m) * n && 2 * ((-m) * n) + n == (-m) * (2 * n) + n)
            by (nonlinear_arith)
            requires 1 <= n, m < 0,
        {}
        lemma_fundamental_div_mod_converse(2 * ((-m) * n) + n, 2 * n, -m, n);
    }
}

/// A cell straight behind an opaque cell, along one of the eight step
/// directions from the viewer, is never visible: the sight line passes
/// exactly through the opaque cell.
pub proof fn lemma_wall_blocks_straight(
    tiles: Seq<TileType>,
    w: int,
    h: int,
    ox: int,
    oy: int,
    dx: int,
    dy: int,
    j: int,
    k: int,
    range: int,
)
    requires
        -1 <= dx <= 1,
        -1 <= dy <= 1,
        !(dx == 0 && dy == 0),
        1 <= j < k,
        tile_opaque(tiles, w, h, ox + j * dx, oy + j * dy),
    ensures
        !cell_visible(tiles, w, h, ox, oy, range, ox + k * dx, oy + k * dy),
{
    let x1 = ox + k * dx;
    let y1 = oy + k * dy;
    assert(x1 - ox == k * dx && y1 - oy == k * dy);
    assert(abs(k * dx) == k * abs(dx) && abs(k * dy) == k * abs(dy)) by (nonlinear_arith)
        requires 1 <= k, -1 <= dx <= 1, -1 <= dy <= 1,
    {}
    assert(line_len(ox, oy, x1, y1) == k);
    assert(j * (k * dx) == (j * dx) * k) by (nonlinear_arith) {}
    assert(j * (k * dy) == (j * dy) * k) by (nonlinear_arith) {}
    lemma_rnd_div_exact(j * dx, k);
    lemma_rnd_div_exact(j * dy, k);
    assert(line_point(ox, oy, x1, y1, j) == (ox + j * dx, oy + j * dy));
    assert(!clear_at_step(tiles, w, h, ox, oy, x1, y1, j));
}

/// A cell farther than `range` is never visible, clear line of sight or
/// not.
pub proof fn lemma_range_excludes(
    tiles: Seq<TileType>,
    w: int,
    h: int,
    ox: int,
    oy: int,
    range: int,
    x: int,
    y: int,
)
    requires
        (x - ox) * (x - ox) + (y - oy) * (y - oy) > range * range,
    ensures
        !cell_visible(tiles, w, h, ox, oy, range, x, y),
{
}

/// A visible cell lies within the square of side `2 * range` around the
/// viewer.
pub proof fn lemma_visible_in_box(
    tiles: Seq<TileType>,
    w: int,
    h: int,
    ox: int,
    oy: int,
    range: int,
    x: int,
    y: int,
)
    requires
        cell_visible(tiles, w, h, ox, oy, range, x, y),
    ensures
        ox - range <= x <= ox + range,
        oy - range <= y <= oy + range,
{
    assert(ox - range <= x <= ox + range && oy - range <= y <= oy + range) by (nonlinear_arith)
        requires
            (x - ox) * (x - ox) + (y - oy) * (y - oy) <= range * range,
            0 <= range,
    {}
}

/// Rounded division, executable mirror of `rnd_div`.
fn rnd_div_exec(a: i64, n: i64) -> (r: i64)
    requires
        1 <= n <= 0x10000,
        -0x100000000 <= a <= 0x100000000,
    ensures
        r == rnd_div(a as int, n as int),
{
    if a >= 0 {
        (2 * a + n) / (2 * n)
    } else {
        -((2 * (-a) + n) / (2 * n))
    }
}

/// Whether every cell strictly between `(x0, y0)` and `(x1, y1)` is
/// see-through.
fn line_clear_exec(map: &GameMap, x0: i32, y0: i32, x1: i32, y1: i32) -> (r: bool)
    requires
        map.wf(),
        map.in_grid(x0 as int, y0 as int),
        map.in_grid(x1 as int, y1 as int),
    ensures
        r == sight_line_clear(
            map.tiles@,
            map.width as int,
            map.height as int,
            x0 as int,
            y0 as int,
            x1 as int,
            y1 as int,
        ),
{
    let ghost gw = map.width as int;
    let ghost gh = map.height as int;
    let dx = x1 as i64 - x0 as i64;
    let dy = y1 as i64 - y0 as i64;
    let adx = if dx >= 0 { dx } else { -dx };
    let ady = if dy >= 0 { dy } else { -dy };
    let n = if adx >= ady { adx } else { ady };
    assert(n == line_len(x0 as int, y0 as int, x1 as int, y1 as int));
    let mut i: i64 = 1;
    while i < n
        invariant
            1 <= i <= n || (i == 1 && n < 1),
            dx == x1 as int - x0 as int,
            dy == y1 as int - y0 as int,
            -4096 <= dx <= 4096,
            -4096 <= dy <= 4096,
            n <= 4096,
            n == line_len(x0 as int, y0 as int, x1 as int, y1 as int),
            map.wf(),
            map.in_grid(x0 as int, y0 as int),
            map.in_grid(x1 as int, y1 as int),
            gw == map.width as int,
            gh == map.height as int,
            forall|j: int|
                1 <= j < i ==> clear_at_step(
                    map.tiles@,
                    gw,
                    gh,
                    x0 as int,
                    y0 as int,
                    x1 as int,
                    y1 as int,
                    j,
                ),
        decreases n - i,
    {
        proof {
            assert(-0x100000000 <= i * dx <= 0x100000000 && -0x100000000 <= i * dy
                <= 0x100000000) by (nonlinear_arith)
                requires 1 <= i <= 4096, -4096 <= dx <= 4096, -4096 <= dy <= 4096,
            {}
        }
        let px_off = rnd_div_exec(i * dx, n);
        let py_off = rnd_div_exec(i * dy, n);
        let px = x0 as i64 + px_off;
        let py = y0 as i64 + py_off;
        proof {
            assert((i * dx) as int == i as int * (x1 - x0));
            assert((i * dy) as int == i as int * (y1 - y0));
            assert(line_point(x0 as int, y0 as int, x1 as int, y1 as int, i as int) == (
                px as int,
                py as int,
            ));
        }
        if px < 0 || px >= map.width as i64 || py < 0 || py >= map.height as i64 {
            proof {
                assert(tile_opaque(map.tiles@, gw, gh, px as int, py as int));
                assert(!clear_at_step(
                    map.tiles@,
                    gw,
                    gh,
                    x0 as int,
                    y0 as int,
                    x1 as int,
                    y1 as int,
                    i as int,
                ));
            }
            return false;
        }
        let index = map.xy_index(px as i32, py as i32);
        let t = map.tiles[index];
        if t == TileType::Wall {
            proof {
                assert(tile_opaque(map.tiles@, gw, gh, px as int, py as int));
                assert(!clear_at_step(
                    map.tiles@,
                    gw,
                    gh,
                    x0 as int,
                    y0 as int,
                    x1 as int,
                    y1 as int,
                    i as int,
                ));
            }
            return false;
        }
        proof {
            assert(clear_at_step(
                map.tiles@,
                gw,
                gh,
                x0 as int,
                y0 as int,
                x1 as int,
                y1 as int,
                i as int,
            ));
        }
        i = i + 1;
    }
    true
}

/// All cells visible from `(ox, oy)` within `range`, in row-major order
/// without duplicates.
pub fn field_of_view(map: &GameMap, ox: i32, oy: i32, range: i32) -> (r: Vec<Point>)
    requires
        map.wf(),
        map.in_grid(ox as int, oy as int),
    ensures
        forall|j: int|
            0 <= j < r@.len() ==> cell_visible(
                map.tiles@,
                map.width as int,
                map.height as int,
                ox as int,
                oy as int,
                range as int,
                r@[j].x as int,
                r@[j].y as int,
            ),
        forall|x: int, y: int|
            cell_visible(
                map.tiles@,
                map.width as int,
                map.height as int,
                ox as int,
                oy as int,
                range as int,
                x,
                y,
            ) ==> exists|j: int| 0 <= j < r@.len() && r@[j].x == x && r@[j].y == y,
        forall|j: int, k: int| 0 <= j < k < r@.len() ==> point_before(r@[j], r@[k]),
    {
    let ghost gw = map.width as int;
    let ghost gh = map.height as int;
    let ghost gt = map.tiles@;
    let mut out: Vec<Point> = Vec::new();
    if range < 0 {
        return out;
    }
    let ylo: i32 = if oy as i64 - range as i64 > 0 { oy - range } else { 0 };
    let yhi: i32 = if (oy as i64 + range as i64) < map.height as i64 - 1 { oy + range } else {
        map.height - 1
    };
    let xlo: i32 = if ox as i64 - range as i64 > 0 { ox - range } else { 0 };
    let xhi: i32 = if (ox as i64 + range as i64) < map.width as i64 - 1 { ox + range } else {
        map.width - 1
    };
    proof {
        assert forall|x: int, y: int|
            cell_visible(gt, gw, gh, ox as int, oy as int, range as int, x, y) implies ylo <= y
            <= yhi && xlo <= x <= xhi by {
            lemma_visible_in_box(gt, gw, gh, ox as int, oy as int, range as int, x, y);
        }
    }
    let mut cy = ylo;
    while cy <= yhi
        invariant
            map.wf(),
            map.in_grid(ox as int, oy as int),
            gt == map.tiles@,
            gw == map.width as int,
            gh == map.height as int,
            forall|x: int, y: int|
                cell_visible(gt, gw, gh, ox as int, oy as int, range as int, x, y) ==> ylo <= y
                    <= yhi && xlo <= x <= xhi,
            0 <= range,
            ylo <= cy <= yhi + 1,
            0 <= ylo,
            yhi <= map.height - 1,
            ylo <= oy as int - range || ylo == 0,
            oy as int + range <= yhi || yhi == map.height - 1,
            0 <= xlo,
            xhi <= map.width - 1,
            xlo <= ox as int - range || xlo == 0,
            ox as int + range <= xhi || xhi == map.width - 1,
            forall|j: int|
                0 <= j < out@.len() ==> cell_visible(
                    gt,
                    gw,
                    gh,
                    ox as int,
                    oy as int,
                    range as int,
                    #[trigger] out@[j].x as int,
                    out@[j].y as int,
                ),
            forall|x: int, y: int|
                cell_visible(gt, gw, gh, ox as int, oy as int, range as int, x, y) && y < cy
                    ==> exists|j: int| 0 <= j < out@.len() && out@[j].x == x && out@[j].y == y,
            forall|j: int| 0 <= j < out@.len() ==> (#[trigger] out@[j].y as int) < cy,
            forall|j: int, k: int| 0 <= j < k < out@.len() ==> point_before(out@[j], out@[k]),
        decreases yhi + 1 - cy,
    {
        let mut cx = xlo;
        while cx <= xhi
            invariant
                map.wf(),
                map.in_grid(ox as int, oy as int),
                gt == map.tiles@,
                gw == map.width as int,
                gh == map.height as int,
                forall|x: int, y: int|
                    cell_visible(gt, gw, gh, ox as int, oy as int, range as int, x, y) ==> ylo <= y
                        <= yhi && xlo <= x <= xhi,
                0 <= range,
                ylo <= cy <= yhi,
                0 <= ylo,
                yhi <= map.height - 1,
                xlo <= cx <= xhi + 1,
                0 <= xlo,
                xhi <= map.width - 1,
                xlo <= ox as int - range || xlo == 0,
                ox as int + range <= xhi || xhi == map.width - 1,
                forall|j: int|
                    0 <= j < out@.len() ==> cell_visible(
                        gt,
                        gw,
                        gh,
                        ox as int,
                        oy as int,
                        range as int,
                        #[trigger] out@[j].x as int,
                        out@[j].y as int,
                    ),
                forall|x: int, y: int|
                    cell_visible(gt, gw, gh, ox as int, oy as int, range as int, x, y) && (y < cy
                        || (y == cy && x < cx)) ==> exists|j: int|
                        0 <= j < out@.len() && out@[j].x == x && out@[j].y == y,
                forall|j: int|
                    0 <= j < out@.len() ==> ((#[trigger] out@[j].y as int) < cy || (out@[j].y == cy
                        && out@[j].x < cx)),
                forall|j: int, k: int| 0 <= j < k < out@.len() ==> point_before(out@[j], out@[k]),
            decreases xhi + 1 - cx,
        {
            let ddx = cx as i64 - ox as i64;
            let ddy = cy as i64 - oy as i64;
            proof {
                assert(0 <= ddx * ddx <= 0x1000000 && 0 <= ddy * ddy
                    <= 0x1000000) by (nonlinear_arith)
                    requires -4096 <= ddx <= 4096, -4096 <= ddy <= 4096,
                {}
                assert(0 <= (range as i64) * (range as i64) < 0x4000000000000000)
                    by (nonlinear_arith)
                    requires 0 <= (range as i64) < 0x80000000,
                {}
            }
            let dist2 = ddx * ddx + ddy * ddy;
            let r2 = range as i64 * range as i64;
            let visible_now: bool = if dist2 <= r2 {
                line_clear_exec(map, ox, oy, cx, cy)
            } else {
                false
            };
            proof {
                assert(visible_now == cell_visible(
                    gt,
                    gw,
                    gh,
                    ox as int,
                    oy as int,
                    range as int,
                    cx as int,
                    cy as int,
                ));
            }
            let ghost out_prev = out@;
            if visible_now {
                out.push(Point { x: cx, y: cy });
            }
            proof {
                assert forall|x: int, y: int|
                    cell_visible(gt, gw, gh, ox as int, oy as int, range as int, x, y) && (y
                        < cy || (y == cy && x < cx + 1)) implies exists|j: int|
                    0 <= j < out@.len() && out@[j].x == x && out@[j].y == y by {
                    if y == cy && x == cx {
                        assert(visible_now);
                        assert(out@[out@.len() - 1].x == x && out@[out@.len() - 1].y == y);
                    } else {
                        let jj = choose|j: int|
                            0 <= j < out_prev.len() && out_prev[j].x == x && out_prev[j].y == y;
                        assert(out@[jj].x == x && out@[jj].y == y);
                    }
                }
            }
            cx = cx + 1;
        }
        proof {
            assert forall|x: int, y: int|
                cell_visible(gt, gw, gh, ox as int, oy as int, range as int, x, y) && y < cy
                    + 1 implies exists|j: int|
                0 <= j < out@.len() && out@[j].x == x && out@[j].y == y by {
                if y == cy {
                    lemma_visible_in_box(gt, gw, gh, ox as int, oy as int, range as int, x, y);
                    assert(xlo <= x <= xhi);
                }
            }
        }
        cy = cy + 1;
    }
    proof {
        assert forall|x: int, y: int|
            cell_visible(gt, gw, gh, ox as int, oy as int, range as int, x, y) implies exists|
            j: int,
        |
            0 <= j < out@.len() && out@[j].x == x && out@[j].y == y by {
            lemma_visible_in_box(gt, gw, gh, ox as int, oy as int, range as int, x, y);
            assert(ylo <= y <= yhi);
        }
    }
    out
}

} // verus!
