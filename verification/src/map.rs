//! The level map: a row-major tile grid with its derived masks, plus the
//! dungeon generator that carves non-overlapping rooms joined by L-shaped
//! corridors.

use vstd::prelude::*;
use vstd::math::{max, min};
use crate::rect::{rect_center, rects_intersect, Rect};
use crate::rng::Rng;
use crate::world::Entity;

verus! {

/// One grid cell's terrain.
#[derive(Clone, Copy, PartialEq, Eq, Structural, Debug)]
pub enum TileType {
    Wall,
    Floor,
}

/// Largest accepted grid side, so every index computation fits comfortably
/// in the machine integer types.
pub const MAX_DIM: i32 = 4096;

/// The level map. `blocked` and `tile_content` are derived state, rebuilt
/// wholesale by the spatial index once per simulation step.
pub struct GameMap {
    pub tiles: Vec<TileType>,
    pub rooms: Vec<Rect>,
    pub width: i32,
    pub height: i32,
    pub revealed_tiles: Vec<bool>,
    pub visible_tiles: Vec<bool>,
    pub blocked: Vec<bool>,
    pub tile_content: Vec<Vec<Entity>>,
}

/// `0 <= y*w + x < w*h` for any in-grid cell.
pub proof fn lemma_idx_in_range(w: int, h: int, x: int, y: int)
    requires
        0 <= x < w,
        0 <= y < h,
    ensures
        0 <= y * w + x < w * h,
{
    assert(0 <= y * w + x < w * h) by (nonlinear_arith)
        requires 0 <= x < w, 0 <= y < h,
    {}
}

/// Distinct in-grid cells have distinct row-major indices.
pub proof fn lemma_idx_unique(w: int, h: int, x1: int, y1: int, x2: int, y2: int)
    requires
        0 <= x1 < w,
        0 <= y1 < h,
        0 <= x2 < w,
        0 <= y2 < h,
        !(x1 == x2 && y1 == y2),
    ensures
        y1 * w + x1 != y2 * w + x2,
{
    assert(y1 * w + x1 != y2 * w + x2) by (nonlinear_arith)
        requires 0 <= x1 < w, 0 <= y1 < h, 0 <= x2 < w, 0 <= y2 < h, !(x1 == x2 && y1 == y2),
    {}
}

/// A grid within the side cap has fewer cells than any machine word holds.
pub proof fn lemma_area_bound(w: int, h: int)
    requires
        0 < w <= MAX_DIM,
        0 < h <= MAX_DIM,
    ensures
        0 < w * h <= 16777216,
{
    assert(0 < w * h <= 16777216) by (nonlinear_arith)
        requires 0 < w <= 4096, 0 < h <= 4096,
    {}
}

/// Cell `(x, y)` lies in the carved interior of room `r`.
pub open spec fn in_rect_interior(r: Rect, x: int, y: int) -> bool {
    r.x1 + 1 <= x <= r.x2 && r.y1 + 1 <= y <= r.y2
}

/// `b` is one orthogonal step away from `a`.
pub open spec fn step_adjacent(a: (int, int), b: (int, int)) -> bool {
    ||| a.0 == b.0 && (b.1 == a.1 + 1 || b.1 == a.1 - 1)
    ||| a.1 == b.1 && (b.0 == a.0 + 1 || b.0 == a.0 - 1)
}

/// Cell `(x, y)` is inside a `w` by `h` grid of `tiles` and holds floor.
pub open spec fn floor_at(tiles: Seq<TileType>, w: int, h: int, x: int, y: int) -> bool {
    0 <= x < w && 0 <= y < h && tiles[y * w + x] is Floor
}

/// `p` walks over floor cells, each one orthogonal step from the last.
pub open spec fn is_floor_path(tiles: Seq<TileType>, w: int, h: int, p: Seq<(int, int)>) -> bool {
    &&& p.len() >= 1
    &&& forall|k: int| 0 <= k < p.len() ==> floor_at(tiles, w, h, p[k].0, p[k].1)
    &&& forall|k: int| 0 <= k < p.len() - 1 ==> step_adjacent(#[trigger] p[k], p[k + 1])
}

/// Some floor path leads from `a` to `b`.
pub open spec fn floor_connected(tiles: Seq<TileType>, w: int, h: int, a: (int, int), b: (
    int,
    int,
)) -> bool {
    exists|p: Seq<(int, int)>|
        is_floor_path(tiles, w, h, p) && p.first() == a && p.last() == b
}

/// Every floor cell of `t1` is still floor in `t2`. Carving only ever turns
/// wall into floor, so it preserves this.
pub open spec fn floors_kept(t1: Seq<TileType>, t2: Seq<TileType>, w: int, h: int) -> bool {
    forall|x: int, y: int| floor_at(t1, w, h, x, y) ==> floor_at(t2, w, h, x, y)
}

/// A floor path survives any change that keeps its floor cells.
pub proof fn lemma_path_kept(t1: Seq<TileType>, t2: Seq<TileType>, w: int, h: int, p: Seq<(
    int,
    int,
)>)
    requires
        is_floor_path(t1, w, h, p),
        floors_kept(t1, t2, w, h),
    ensures
        is_floor_path(t2, w, h, p),
{
    assert forall|k: int| 0 <= k < p.len() implies floor_at(t2, w, h, p[k].0, p[k].1) by {
        assert(floor_at(t1, w, h, p[k].0, p[k].1));
    }
}

/// Connectivity survives any change that keeps floor cells.
pub proof fn lemma_connected_kept(
    t1: Seq<TileType>,
    t2: Seq<TileType>,
    w: int,
    h: int,
    a: (int, int),
    b: (int, int),
)
    requires
        floor_connected(t1, w, h, a, b),
        floors_kept(t1, t2, w, h),
    ensures
        floor_connected(t2, w, h, a, b),
{
    let p = choose|p: Seq<(int, int)>|
        is_floor_path(t1, w, h, p) && p.first() == a && p.last() == b;
    lemma_path_kept(t1, t2, w, h, p);
    assert(is_floor_path(t2, w, h, p) && p.first() == a && p.last() == b);
}

/// A floor cell is connected to itself.
pub proof fn lemma_connected_refl(tiles: Seq<TileType>, w: int, h: int, a: (int, int))
    requires
        floor_at(tiles, w, h, a.0, a.1),
    ensures
        floor_connected(tiles, w, h, a, a),
{
    let p: Seq<(int, int)> = seq![a];
    assert(is_floor_path(tiles, w, h, p) && p.first() == a && p.last() == a);
}

/// Chain a path from `a` to `b` with one from `b` to `c`.
pub proof fn lemma_connected_trans(
    tiles: Seq<TileType>,
    w: int,
    h: int,
    a: (int, int),
    b: (int, int),
    c: (int, int),
)
    requires
        floor_connected(tiles, w, h, a, b),
        floor_connected(tiles, w, h, b, c),
    ensures
        floor_connected(tiles, w, h, a, c),
{
    let p1 = choose|p: Seq<(int, int)>|
        is_floor_path(tiles, w, h, p) && p.first() == a && p.last() == b;
    let p2 = choose|p: Seq<(int, int)>|
        is_floor_path(tiles, w, h, p) && p.first() == b && p.last() == c;
    let p = p1 + p2.subrange(1, p2.len() as int);
    if p2.len() == 1 {
        assert(p =~= p1);
        assert(is_floor_path(tiles, w, h, p) && p.first() == a && p.last() == c);
    } else {
        assert forall|k: int| 0 <= k < p.len() implies floor_at(tiles, w, h, p[k].0, p[k].1) by {
            if k < p1.len() {
                assert(p[k] == p1[k]);
            } else {
                assert(p[k] == p2[k - p1.len() + 1]);
            }
        }
        assert forall|k: int| 0 <= k < p.len() - 1 implies step_adjacent(#[trigger] p[k], p[k + 1]) by {
            if k + 1 < p1.len() {
                assert(p[k] == p1[k] && p[k + 1] == p1[k + 1]);
            } else if k + 1 == p1.len() {
                assert(p[k] == p1[k] && p1[k] == b);
                assert(p[k + 1] == p2[1]);
                assert(step_adjacent(p2[0], p2[1]));
            } else {
                assert(p[k] == p2[k - p1.len() + 1] && p[k + 1] == p2[k - p1.len() + 2]);
                assert(step_adjacent(p2[k - p1.len() + 1], p2[k - p1.len() + 2]));
            }
        }
        assert(p.last() == p2.last());
        assert(is_floor_path(tiles, w, h, p) && p.first() == a && p.last() == c);
    }
}

/// Connectivity is symmetric: walk the path backwards.
pub proof fn lemma_connected_sym(tiles: Seq<TileType>, w: int, h: int, a: (int, int), b: (
    int,
    int,
))
    requires
        floor_connected(tiles, w, h, a, b),
    ensures
        floor_connected(tiles, w, h, b, a),
{
    let p = choose|p: Seq<(int, int)>|
        is_floor_path(tiles, w, h, p) && p.first() == a && p.last() == b;
    let q = Seq::new(p.len(), |k: int| p[p.len() - 1 - k]);
    assert forall|k: int| 0 <= k < q.len() - 1 implies step_adjacent(#[trigger] q[k], q[k + 1]) by {
        assert(step_adjacent(p[p.len() - 2 - k], p[p.len() - 1 - k]));
    }
    assert(is_floor_path(tiles, w, h, q) && q.first() == b && q.last() == a);
}

/// A row of floor cells joins its two ends.
pub proof fn lemma_horizontal_run(tiles: Seq<TileType>, w: int, h: int, y: int, xa: int, xb: int)
    requires
        xa <= xb,
        forall|x: int| xa <= x <= xb ==> floor_at(tiles, w, h, x, y),
    ensures
        floor_connected(tiles, w, h, (xa, y), (xb, y)),
    decreases xb - xa,
{
    if xa == xb {
        lemma_connected_refl(tiles, w, h, (xa, y));
    } else {
        lemma_horizontal_run(tiles, w, h, y, xa, xb - 1);
        let q: Seq<(int, int)> = seq![((xb - 1) as int, y), (xb, y)];
        assert(is_floor_path(tiles, w, h, q) && q.first() == ((xb - 1) as int, y) && q.last() == (
        xb,
        y,
        ));
        lemma_connected_trans(tiles, w, h, (xa, y), ((xb - 1) as int, y), (xb, y));
    }
}

/// A column of floor cells joins its two ends.
pub proof fn lemma_vertical_run(tiles: Seq<TileType>, w: int, h: int, x: int, ya: int, yb: int)
    requires
        ya <= yb,
        forall|y: int| ya <= y <= yb ==> floor_at(tiles, w, h, x, y),
    ensures
        floor_connected(tiles, w, h, (x, ya), (x, yb)),
    decreases yb - ya,
{
    if ya == yb {
        lemma_connected_refl(tiles, w, h, (x, ya));
    } else {
        lemma_vertical_run(tiles, w, h, x, ya, yb - 1);
        let q: Seq<(int, int)> = seq![(x, (yb - 1) as int), (x, yb)];
        assert(is_floor_path(tiles, w, h, q) && q.first() == (x, (yb - 1) as int) && q.last() == (
        x,
        yb,
        ));
        lemma_connected_trans(tiles, w, h, (x, ya), (x, (yb - 1) as int), (x, yb));
    }
}

/// A row of floor cells joins its ends in either direction.
pub proof fn lemma_horizontal_link(
    tiles: Seq<TileType>,
    w: int,
    h: int,
    y: int,
    x_from: int,
    x_to: int,
)
    requires
        forall|x: int| min(x_from, x_to) <= x <= max(x_from, x_to) ==> floor_at(tiles, w, h, x, y),
    ensures
        floor_connected(tiles, w, h, (x_from, y), (x_to, y)),
{
    if x_from <= x_to {
        lemma_horizontal_run(tiles, w, h, y, x_from, x_to);
    } else {
        lemma_horizontal_run(tiles, w, h, y, x_to, x_from);
        lemma_connected_sym(tiles, w, h, (x_to, y), (x_from, y));
    }
}

/// A column of floor cells joins its ends in either direction.
pub proof fn lemma_vertical_link(
    tiles: Seq<TileType>,
    w: int,
    h: int,
    x: int,
    y_from: int,
    y_to: int,
)
    requires
        forall|y: int| min(y_from, y_to) <= y <= max(y_from, y_to) ==> floor_at(tiles, w, h, x, y),
    ensures
        floor_connected(tiles, w, h, (x, y_from), (x, y_to)),
{
    if y_from <= y_to {
        lemma_vertical_run(tiles, w, h, x, y_from, y_to);
    } else {
        lemma_vertical_run(tiles, w, h, x, y_to, y_from);
        lemma_connected_sym(tiles, w, h, (x, y_to), (x, y_from));
    }
}

impl GameMap {
    /// Number of cells.
    pub open spec fn area(self) -> int {
        self.width * self.height
    }

    /// All masks cover the whole grid and the grid's sides are positive and
    /// small enough for index arithmetic.
    pub open spec fn wf(self) -> bool {
        &&& 0 < self.width <= MAX_DIM
        &&& 0 < self.height <= MAX_DIM
        &&& self.tiles@.len() == self.area()
        &&& self.revealed_tiles@.len() == self.area()
        &&& self.visible_tiles@.len() == self.area()
        &&& self.blocked@.len() == self.area()
        &&& self.tile_content@.len() == self.area()
    }

    pub open spec fn in_grid(self, x: int, y: int) -> bool {
        0 <= x < self.width && 0 <= y < self.height
    }

    /// Row-major index of `(x, y)`.
    pub open spec fn idx(self, x: int, y: int) -> int {
        y * self.width + x
    }

    pub open spec fn tile_at(self, x: int, y: int) -> TileType
        recommends
            self.wf(),
            self.in_grid(x, y),
    {
        self.tiles@[self.idx(x, y)]
    }

    /// The terrain grid and sides of `self` and `other` agree.
    pub open spec fn same_dims(self, other: GameMap) -> bool {
        self.width == other.width && self.height == other.height
    }

    /// An all-wall map with cleared masks and no rooms.
    pub fn new(width: i32, height: i32) -> (m: GameMap)
        requires
            0 < width <= MAX_DIM,
            0 < height <= MAX_DIM,
        ensures
            m.wf(),
            m.width == width,
            m.height == height,
            m.rooms@.len() == 0,
            forall|i: int| 0 <= i < m.area() ==> m.tiles@[i] is Wall,
            forall|i: int| 0 <= i < m.area() ==> !m.revealed_tiles@[i],
            forall|i: int| 0 <= i < m.area() ==> !m.visible_tiles@[i],
            forall|i: int| 0 <= i < m.area() ==> !m.blocked@[i],
            forall|i: int| 0 <= i < m.area() ==> m.tile_content@[i]@ =~= Seq::<Entity>::empty(),
    {
        proof {
            lemma_area_bound(width as int, height as int);
        }
        let area = (width as usize) * (height as usize);
        let mut tiles: Vec<TileType> = Vec::new();
        let mut revealed: Vec<bool> = Vec::new();
        let mut visible: Vec<bool> = Vec::new();
        let mut blocked: Vec<bool> = Vec::new();
        let mut content: Vec<Vec<Entity>> = Vec::new();
        let mut i: usize = 0;
        while i < area
            invariant
                i <= area,
                tiles@.len() == i,
                revealed@.len() == i,
                visible@.len() == i,
                blocked@.len() == i,
                content@.len() == i,
                forall|j: int| 0 <= j < i ==> tiles@[j] is Wall,
                forall|j: int| 0 <= j < i ==> !revealed@[j],
                forall|j: int| 0 <= j < i ==> !visible@[j],
                forall|j: int| 0 <= j < i ==> !blocked@[j],
                forall|j: int| 0 <= j < i ==> content@[j]@ =~= Seq::<Entity>::empty(),
            decreases area - i,
        {
            tiles.push(TileType::Wall);
            revealed.push(false);
            visible.push(false);
            blocked.push(false);
            content.push(Vec::new());
            i = i + 1;
        }
        GameMap {
            tiles,
            rooms: Vec::new(),
            width,
            height,
            revealed_tiles: revealed,
            visible_tiles: visible,
            blocked,
            tile_content: content,
        }
    }

    /// Row-major index of `(x, y)`, checked against the grid bounds.
    pub fn xy_index(&self, x: i32, y: i32) -> (r: usize)
        requires
            self.wf(),
            self.in_grid(x as int, y as int),
        ensures
            r == self.idx(x as int, y as int),
            r < self.tiles@.len(),
    {
        proof {
            lemma_idx_in_range(self.width as int, self.height as int, x as int, y as int);
            lemma_area_bound(self.width as int, self.height as int);
        }
        (y as usize) * (self.width as usize) + (x as usize)
    }

    /// Carve the interior of `room` into floor.
    fn apply_room_to_map(&mut self, room: &Rect)
        requires
            old(self).wf(),
            0 <= room.x1 <= room.x2 < old(self).width,
            0 <= room.y1 <= room.y2 < old(self).height,
        ensures
            final(self).wf(),
            final(self).same_dims(*old(self)),
            final(self).rooms@ == old(self).rooms@,
            final(self).revealed_tiles@ == old(self).revealed_tiles@,
            final(self).visible_tiles@ == old(self).visible_tiles@,
            final(self).blocked@ == old(self).blocked@,
            final(self).tile_content@ == old(self).tile_content@,
            final(self).tiles@.len() == old(self).tiles@.len(),
            forall|x: int, y: int|
                old(self).in_grid(x, y) ==> final(self).tile_at(x, y) == (if in_rect_interior(
                    *room,
                    x,
                    y,
                ) {
                    TileType::Floor
                } else {
                    old(self).tile_at(x, y)
                }),
    {
        let ghost m0 = *self;
        let mut y = room.y1 + 1;
        while y <= room.y2
            invariant
                self.wf(),
                self.same_dims(m0),
                self.rooms@ == m0.rooms@,
                self.revealed_tiles@ == m0.revealed_tiles@,
                self.visible_tiles@ == m0.visible_tiles@,
                self.blocked@ == m0.blocked@,
                self.tile_content@ == m0.tile_content@,
                self.tiles@.len() == m0.tiles@.len(),
                0 <= room.x1 <= room.x2 < m0.width,
                0 <= room.y1 <= room.y2 < m0.height,
                room.y1 + 1 <= y <= room.y2 + 1,
                forall|xx: int, yy: int|
                    m0.in_grid(xx, yy) ==> self.tile_at(xx, yy) == (if in_rect_interior(
                        *room,
                        xx,
                        yy,
                    ) && yy < y {
                        TileType::Floor
                    } else {
                        m0.tile_at(xx, yy)
                    }),
            decreases room.y2 + 1 - y,
        {
            let mut x = room.x1 + 1;
            while x <= room.x2
                invariant
                    self.wf(),
                    self.same_dims(m0),
                    self.rooms@ == m0.rooms@,
                    self.revealed_tiles@ == m0.revealed_tiles@,
                    self.visible_tiles@ == m0.visible_tiles@,
                    self.blocked@ == m0.blocked@,
                    self.tile_content@ == m0.tile_content@,
                    self.tiles@.len() == m0.tiles@.len(),
                    0 <= room.x1 <= room.x2 < m0.width,
                    0 <= room.y1 <= room.y2 < m0.height,
                    room.y1 + 1 <= y <= room.y2,
                    room.x1 + 1 <= x <= room.x2 + 1,
                    forall|xx: int, yy: int|
                        m0.in_grid(xx, yy) ==> self.tile_at(xx, yy) == (if in_rect_interior(
                            *room,
                            xx,
                            yy,
                        ) && (yy < y || (yy == y && xx < x)) {
                            TileType::Floor
                        } else {
                            m0.tile_at(xx, yy)
                        }),
                decreases room.x2 + 1 - x,
            {
                let ghost pre = *self;
                let index = self.xy_index(x, y);
                self.tiles.set(index, TileType::Floor);
                proof {
                    assert forall|xx: int, yy: int| m0.in_grid(xx, yy) implies self.tile_at(xx, yy)
                        == (if in_rect_interior(*room, xx, yy) && (yy < y || (yy == y && xx < x
                        + 1)) {
                        TileType::Floor
                    } else {
                        m0.tile_at(xx, yy)
                    }) by {
                        if xx == x && yy == y {
                            assert(self.tile_at(xx, yy) == TileType::Floor);
                        } else {
                            lemma_idx_in_range(m0.width as int, m0.height as int, xx, yy);
                            lemma_idx_unique(
                                m0.width as int,
                                m0.height as int,
                                xx,
                                yy,
                                x as int,
                                y as int,
                            );
                            assert(self.tile_at(xx, yy) == pre.tile_at(xx, yy));
                        }
                    }
                }
                x = x + 1;
            }
            y = y + 1;
        }
    }

    /// Carve a straight horizontal corridor at row `y` between columns `x1`
    /// and `x2` (either order).
    fn apply_horizontal_tunnel(&mut self, x1: i32, x2: i32, y: i32)
        requires
            old(self).wf(),
            old(self).in_grid(x1 as int, y as int),
            old(self).in_grid(x2 as int, y as int),
        ensures
            final(self).wf(),
            final(self).same_dims(*old(self)),
            final(self).rooms@ == old(self).rooms@,
            final(self).revealed_tiles@ == old(self).revealed_tiles@,
            final(self).visible_tiles@ == old(self).visible_tiles@,
            final(self).blocked@ == old(self).blocked@,
            final(self).tile_content@ == old(self).tile_content@,
            final(self).tiles@.len() == old(self).tiles@.len(),
            forall|xx: int, yy: int|
                old(self).in_grid(xx, yy) ==> final(self).tile_at(xx, yy) == (if yy == y && min(
                    x1 as int,
                    x2 as int,
                ) <= xx <= max(x1 as int, x2 as int) {
                    TileType::Floor
                } else {
                    old(self).tile_at(xx, yy)
                }),
    {
        let ghost m0 = *self;
        let lo = if x1 < x2 { x1 } else { x2 };
        let hi = if x1 < x2 { x2 } else { x1 };
        let mut x = lo;
        while x <= hi
            invariant
                self.wf(),
                self.same_dims(m0),
                self.rooms@ == m0.rooms@,
                self.revealed_tiles@ == m0.revealed_tiles@,
                self.visible_tiles@ == m0.visible_tiles@,
                self.blocked@ == m0.blocked@,
                self.tile_content@ == m0.tile_content@,
                self.tiles@.len() == m0.tiles@.len(),
                m0.in_grid(lo as int, y as int),
                m0.in_grid(hi as int, y as int),
                lo == min(x1 as int, x2 as int),
                hi == max(x1 as int, x2 as int),
                lo <= x <= hi + 1,
                forall|xx: int, yy: int|
                    m0.in_grid(xx, yy) ==> self.tile_at(xx, yy) == (if yy == y && lo <= xx < x {
                        TileType::Floor
                    } else {
                        m0.tile_at(xx, yy)
                    }),
            decreases hi + 1 - x,
        {
            let ghost pre = *self;
            let index = self.xy_index(x, y);
            self.tiles.set(index, TileType::Floor);
            proof {
                assert forall|xx: int, yy: int| m0.in_grid(xx, yy) implies self.tile_at(xx, yy)
                    == (if yy == y && lo <= xx < x + 1 {
                    TileType::Floor
                } else {
                    m0.tile_at(xx, yy)
                }) by {
                    if xx == x && yy == y {
                        assert(self.tile_at(xx, yy) == TileType::Floor);
                    } else {
                        lemma_idx_in_range(m0.width as int, m0.height as int, xx, yy);
                        lemma_idx_unique(
                            m0.width as int,
                            m0.height as int,
                            xx,
                            yy,
                            x as int,
                            y as int,
                        );
                        assert(self.tile_at(xx, yy) == pre.tile_at(xx, yy));
                    }
                }
            }
            x = x + 1;
        }
    }

    /// Carve a straight vertical corridor at column `x` between rows `y1`
    /// and `y2` (either order).
    fn apply_vertical_tunnels(&mut self, y1: i32, y2: i32, x: i32)
        requires
            old(self).wf(),
            old(self).in_grid(x as int, y1 as int),
            old(self).in_grid(x as int, y2 as int),
        ensures
            final(self).wf(),
            final(self).same_dims(*old(self)),
            final(self).rooms@ == old(self).rooms@,
            final(self).revealed_tiles@ == old(self).revealed_tiles@,
            final(self).visible_tiles@ == old(self).visible_tiles@,
            final(self).blocked@ == old(self).blocked@,
            final(self).tile_content@ == old(self).tile_content@,
            final(self).tiles@.len() == old(self).tiles@.len(),
            forall|xx: int, yy: int|
                old(self).in_grid(xx, yy) ==> final(self).tile_at(xx, yy) == (if xx == x && min(
                    y1 as int,
                    y2 as int,
                ) <= yy <= max(y1 as int, y2 as int) {
                    TileType::Floor
                } else {
                    old(self).tile_at(xx, yy)
                }),
    {
        let ghost m0 = *self;
        let lo = if y1 < y2 { y1 } else { y2 };
        let hi = if y1 < y2 { y2 } else { y1 };
        let mut y = lo;
        while y <= hi
            invariant
                self.wf(),
                self.same_dims(m0),
                self.rooms@ == m0.rooms@,
                self.revealed_tiles@ == m0.revealed_tiles@,
                self.visible_tiles@ == m0.visible_tiles@,
                self.blocked@ == m0.blocked@,
                self.tile_content@ == m0.tile_content@,
                self.tiles@.len() == m0.tiles@.len(),
                m0.in_grid(x as int, lo as int),
                m0.in_grid(x as int, hi as int),
                lo == min(y1 as int, y2 as int),
                hi == max(y1 as int, y2 as int),
                lo <= y <= hi + 1,
                forall|xx: int, yy: int|
                    m0.in_grid(xx, yy) ==> self.tile_at(xx, yy) == (if xx == x && lo <= yy < y {
                        TileType::Floor
                    } else {
                        m0.tile_at(xx, yy)
                    }),
            decreases hi + 1 - y,
        {
            let ghost pre = *self;
            let index = self.xy_index(x, y);
            self.tiles.set(index, TileType::Floor);
            proof {
                assert forall|xx: int, yy: int| m0.in_grid(xx, yy) implies self.tile_at(xx, yy)
                    == (if xx == x && lo <= yy < y + 1 {
                    TileType::Floor
                } else {
                    m0.tile_at(xx, yy)
                }) by {
                    if xx == x && yy == y {
                        assert(self.tile_at(xx, yy) == TileType::Floor);
                    } else {
                        lemma_idx_in_range(m0.width as int, m0.height as int, xx, yy);
                        lemma_idx_unique(
                            m0.width as int,
                            m0.height as int,
                            xx,
                            yy,
                            x as int,
                            y as int,
                        );
                        assert(self.tile_at(xx, yy) == pre.tile_at(xx, yy));
                    }
                }
            }
            y = y + 1;
        }
    }

    /// Reset the blocked mask from the terrain alone: walls block, floor
    /// does not.
    pub fn populate_blocked(&mut self)
        requires
            old(self).wf(),
        ensures
            final(self).wf(),
            final(self).same_dims(*old(self)),
            final(self).tiles@ == old(self).tiles@,
            final(self).rooms@ == old(self).rooms@,
            final(self).revealed_tiles@ == old(self).revealed_tiles@,
            final(self).visible_tiles@ == old(self).visible_tiles@,
            final(self).tile_content@ == old(self).tile_content@,
            final(self).blocked@.len() == old(self).blocked@.len(),
            forall|i: int|
                0 <= i < old(self).area() ==> final(self).blocked@[i] == (old(
                    self,
                ).tiles@[i] is Wall),
    {
        let ghost m0 = *self;
        let n = self.blocked.len();
        let mut i: usize = 0;
        while i < n
            invariant
                self.wf(),
                self.same_dims(m0),
                self.tiles@ == m0.tiles@,
                self.rooms@ == m0.rooms@,
                self.revealed_tiles@ == m0.revealed_tiles@,
                self.visible_tiles@ == m0.visible_tiles@,
                self.tile_content@ == m0.tile_content@,
                self.blocked@.len() == m0.blocked@.len(),
                n == m0.area(),
                i <= n,
                forall|j: int| 0 <= j < i ==> self.blocked@[j] == (m0.tiles@[j] is Wall),
                forall|j: int| i <= j < n ==> self.blocked@[j] == m0.blocked@[j],
            decreases n - i,
        {
            let t = self.tiles[i];
            self.blocked.set(i, t == TileType::Wall);
            i = i + 1;
        }
    }

    /// Empty every cell's occupant list.
    pub fn clear_content_index(&mut self)
        requires
            old(self).wf(),
        ensures
            final(self).wf(),
            final(self).same_dims(*old(self)),
            final(self).tiles@ == old(self).tiles@,
            final(self).rooms@ == old(self).rooms@,
            final(self).revealed_tiles@ == old(self).revealed_tiles@,
            final(self).visible_tiles@ == old(self).visible_tiles@,
            final(self).blocked@ == old(self).blocked@,
            final(self).tile_content@.len() == old(self).tile_content@.len(),
            forall|i: int|
                0 <= i < old(self).area() ==> final(self).tile_content@[i]@
                    =~= Seq::<Entity>::empty(),
    {
        let ghost m0 = *self;
        let n = self.tile_content.len();
        let mut i: usize = 0;
        while i < n
            invariant
                self.wf(),
                self.same_dims(m0),
                self.tiles@ == m0.tiles@,
                self.rooms@ == m0.rooms@,
                self.revealed_tiles@ == m0.revealed_tiles@,
                self.visible_tiles@ == m0.visible_tiles@,
                self.blocked@ == m0.blocked@,
                self.tile_content@.len() == m0.tile_content@.len(),
                n == m0.area(),
                i <= n,
                forall|j: int| 0 <= j < i ==> self.tile_content@[j]@ =~= Seq::<Entity>::empty(),
            decreases n - i,
        {
            self.tile_content.set(i, Vec::new());
            i = i + 1;
        }
    }
}


/// Generation failed: the requested parameters cannot produce a level.
#[derive(Clone, Copy, PartialEq, Eq, Structural, Debug)]
pub struct ConfigError;

/// Parameters from which a level can be generated: positive sides within the
/// cap, and room sizes that leave space for a one-cell border.
pub open spec fn valid_generation_config(
    width: int,
    height: int,
    max_rooms: int,
    min_size: int,
    max_size: int,
) -> bool {
    &&& 0 < width <= MAX_DIM
    &&& 0 < height <= MAX_DIM
    &&& 0 <= max_rooms
    &&& 2 <= min_size <= max_size
    &&& max_size <= width - 2
    &&& max_size <= height - 2
}

/// The room's stored spans on both axes lie within `[lo, hi]`: its side
/// lengths as the generator drew them.
pub open spec fn room_sized(lo: int, hi: int, r: Rect) -> bool {
    &&& lo <= r.x2 - r.x1 <= hi
    &&& lo <= r.y2 - r.y1 <= hi
}

/// Cell `(x, y)` lies on one of the two straight tunnels of an L-shaped
/// corridor between `a` and `b`, in either of the two orientations the
/// generator's coin flip picks from.
pub open spec fn on_l_corridor(a: (int, int), b: (int, int), x: int, y: int) -> bool {
    ||| y == a.1 && min(a.0, b.0) <= x <= max(a.0, b.0)
    ||| x == b.0 && min(a.1, b.1) <= y <= max(a.1, b.1)
    ||| x == a.0 && min(a.1, b.1) <= y <= max(a.1, b.1)
    ||| y == b.1 && min(a.0, b.0) <= x <= max(a.0, b.0)
}

/// Floor appears only where the generator carved it: inside an accepted
/// room's interior or on an L-shaped corridor between two consecutively
/// accepted rooms' centres; every other cell is wall.
pub open spec fn floor_confined(m: GameMap) -> bool {
    forall|x: int, y: int|
        m.in_grid(x, y) && (#[trigger] m.tile_at(x, y)) is Floor ==> ((exists|k: int|
            0 <= k < m.rooms@.len() && in_rect_interior(#[trigger] m.rooms@[k], x, y)) || (exists|
            k: int,
        |
            1 <= k < m.rooms@.len() && on_l_corridor(
                rect_center(m.rooms@[k - 1]),
                rect_center(#[trigger] m.rooms@[k]),
                x,
                y,
            )))
}

/// The room sits fully inside the grid with a one-cell border, and is at
/// least two cells across on both axes.
pub open spec fn room_in_bounds(width: int, height: int, r: Rect) -> bool {
    &&& 0 <= r.x1
    &&& r.x1 + 2 <= r.x2 <= width - 2
    &&& 0 <= r.y1
    &&& r.y1 + 2 <= r.y2 <= height - 2
}

/// The room's whole interior is floor.
pub open spec fn room_carved(m: GameMap, r: Rect) -> bool {
    forall|x: int, y: int|
        in_rect_interior(r, x, y) && m.in_grid(x, y) ==> m.tile_at(x, y) is Floor
}

/// No two accepted rooms overlap.
pub open spec fn rooms_apart(rooms: Seq<Rect>) -> bool {
    forall|j: int, k: int|
        0 <= j < k < rooms.len() ==> !rects_intersect(#[trigger] rooms[j], #[trigger] rooms[k])
}

/// Everything the generator promises of a fresh level: a well-formed map of
/// the requested size whose accepted rooms are in bounds, pairwise disjoint,
/// fully carved, and all reachable from the first room's centre over floor
/// cells, with every derived mask still clear.
pub open spec fn well_generated(m: GameMap, width: int, height: int) -> bool {
    &&& m.wf()
    &&& m.width == width
    &&& m.height == height
    &&& forall|k: int|
        0 <= k < m.rooms@.len() ==> room_in_bounds(width, height, #[trigger] m.rooms@[k])
    &&& rooms_apart(m.rooms@)
    &&& forall|k: int| 0 <= k < m.rooms@.len() ==> room_carved(m, #[trigger] m.rooms@[k])
    &&& forall|k: int|
        0 <= k < m.rooms@.len() ==> floor_connected(
            m.tiles@,
            width,
            height,
            rect_center(m.rooms@[0]),
            rect_center(#[trigger] m.rooms@[k]),
        )
    &&& forall|i: int| 0 <= i < m.area() ==> !m.revealed_tiles@[i]
    &&& forall|i: int| 0 <= i < m.area() ==> !m.visible_tiles@[i]
    &&& forall|i: int| 0 <= i < m.area() ==> !m.blocked@[i]
    &&& forall|i: int| 0 <= i < m.area() ==> m.tile_content@[i]@ =~= Seq::<Entity>::empty()
}

/// The centre of an in-bounds room lies in its interior, away from the
/// grid's border.
pub proof fn lemma_center_interior(r: Rect, w: int, h: int)
    requires
        room_in_bounds(w, h, r),
    ensures
        in_rect_interior(r, rect_center(r).0, rect_center(r).1),
        1 <= rect_center(r).0 <= w - 2,
        1 <= rect_center(r).1 <= h - 2,
{
    assert(r.x1 + 1 <= (r.x1 + r.x2) / 2 <= r.x2 - 1) by (nonlinear_arith)
        requires 0 <= r.x1, r.x1 + 2 <= r.x2,
    {}
    assert(r.y1 + 1 <= (r.y1 + r.y2) / 2 <= r.y2 - 1) by (nonlinear_arith)
        requires 0 <= r.y1, r.y1 + 2 <= r.y2,
    {}
}

/// After a change that keeps floor cells, every room carved in `m1` is
/// still carved in `m2`.
pub proof fn lemma_rooms_stay_carved(m1: GameMap, m2: GameMap)
    requires
        m1.same_dims(m2),
        m1.rooms@ == m2.rooms@,
        forall|k: int| 0 <= k < m1.rooms@.len() ==> room_carved(m1, #[trigger] m1.rooms@[k]),
        floors_kept(m1.tiles@, m2.tiles@, m1.width as int, m1.height as int),
    ensures
        forall|k: int| 0 <= k < m2.rooms@.len() ==> room_carved(m2, #[trigger] m2.rooms@[k]),
{
    let gw = m1.width as int;
    let gh = m1.height as int;
    assert forall|k: int| 0 <= k < m2.rooms@.len() implies room_carved(
        m2,
        #[trigger] m2.rooms@[k],
    ) by {
        assert(room_carved(m1, m1.rooms@[k]));
        assert forall|x: int, y: int|
            in_rect_interior(m2.rooms@[k], x, y) && m2.in_grid(x, y) implies m2.tile_at(
            x,
            y,
        ) is Floor by {
            assert(m1.tile_at(x, y) is Floor);
            assert(floor_at(m1.tiles@, gw, gh, x, y));
            assert(floor_at(m2.tiles@, gw, gh, x, y));
        }
    }
}

/// After a change that keeps floor cells, every room still reaches the
/// first room's centre.
pub proof fn lemma_rooms_stay_connected(m1: GameMap, m2: GameMap)
    requires
        m1.same_dims(m2),
        m1.rooms@ == m2.rooms@,
        forall|k: int|
            0 <= k < m1.rooms@.len() ==> floor_connected(
                m1.tiles@,
                m1.width as int,
                m1.height as int,
                rect_center(m1.rooms@[0]),
                rect_center(#[trigger] m1.rooms@[k]),
            ),
        floors_kept(m1.tiles@, m2.tiles@, m1.width as int, m1.height as int),
    ensures
        forall|k: int|
            0 <= k < m2.rooms@.len() ==> floor_connected(
                m2.tiles@,
                m2.width as int,
                m2.height as int,
                rect_center(m2.rooms@[0]),
                rect_center(#[trigger] m2.rooms@[k]),
            ),
{
    let gw = m1.width as int;
    let gh = m1.height as int;
    assert forall|k: int| 0 <= k < m2.rooms@.len() implies floor_connected(
        m2.tiles@,
        m2.width as int,
        m2.height as int,
        rect_center(m2.rooms@[0]),
        rect_center(#[trigger] m2.rooms@[k]),
    ) by {
        lemma_connected_kept(
            m1.tiles@,
            m2.tiles@,
            gw,
            gh,
            rect_center(m1.rooms@[0]),
            rect_center(m1.rooms@[k]),
        );
    }
}

/// A single carved room stays carved under a change keeping floor cells.
pub proof fn lemma_room_stays_carved(m1: GameMap, m2: GameMap, room: Rect)
    requires
        m1.same_dims(m2),
        room_carved(m1, room),
        floors_kept(m1.tiles@, m2.tiles@, m1.width as int, m1.height as int),
    ensures
        room_carved(m2, room),
{
    let gw = m1.width as int;
    let gh = m1.height as int;
    assert forall|x: int, y: int|
        in_rect_interior(room, x, y) && m2.in_grid(x, y) implies m2.tile_at(x, y) is Floor by {
        assert(m1.tile_at(x, y) is Floor);
        assert(floor_at(m1.tiles@, gw, gh, x, y));
        assert(floor_at(m2.tiles@, gw, gh, x, y));
    }
}

/// Recording one more accepted room preserves the generator's room
/// invariants, provided the new room is in bounds, carved, disjoint from
/// the others, and joined to the first room's centre.
pub proof fn lemma_record_room(pre: GameMap, post: GameMap, room: Rect, gw: int, gh: int)
    requires
        gw == pre.width,
        gh == pre.height,
        post.width == pre.width,
        post.height == pre.height,
        post.tiles@ == pre.tiles@,
        post.rooms@ == pre.rooms@.push(room),
        pre.rooms@.len() >= 1,
        forall|k: int| 0 <= k < pre.rooms@.len() ==> room_in_bounds(gw, gh, #[trigger] pre.rooms@[k]),
        rooms_apart(pre.rooms@),
        forall|k: int| 0 <= k < pre.rooms@.len() ==> room_carved(pre, #[trigger] pre.rooms@[k]),
        forall|k: int|
            0 <= k < pre.rooms@.len() ==> floor_connected(
                pre.tiles@,
                gw,
                gh,
                rect_center(pre.rooms@[0]),
                rect_center(#[trigger] pre.rooms@[k]),
            ),
        room_in_bounds(gw, gh, room),
        room_carved(pre, room),
        forall|j: int|
            0 <= j < pre.rooms@.len() ==> !rects_intersect(room, #[trigger] pre.rooms@[j]),
        floor_connected(pre.tiles@, gw, gh, rect_center(pre.rooms@[0]), rect_center(room)),
    ensures
        forall|k: int| 0 <= k < post.rooms@.len() ==> room_in_bounds(gw, gh, #[trigger] post.rooms@[k]),
        rooms_apart(post.rooms@),
        forall|k: int| 0 <= k < post.rooms@.len() ==> room_carved(post, #[trigger] post.rooms@[k]),
        forall|k: int|
            0 <= k < post.rooms@.len() ==> floor_connected(
                post.tiles@,
                gw,
                gh,
                rect_center(post.rooms@[0]),
                rect_center(#[trigger] post.rooms@[k]),
            ),
{
    let n = pre.rooms@.len() as int;
    assert(post.rooms@[0] == pre.rooms@[0]);
    assert forall|j: int, k: int| 0 <= j < k < post.rooms@.len() implies !rects_intersect(
        #[trigger] post.rooms@[j],
        #[trigger] post.rooms@[k],
    ) by {
        if k == n {
            assert(post.rooms@[j] == pre.rooms@[j]);
            assert(!rects_intersect(room, pre.rooms@[j]));
        } else {
            assert(post.rooms@[j] == pre.rooms@[j] && post.rooms@[k] == pre.rooms@[k]);
        }
    }
    assert forall|k: int| 0 <= k < post.rooms@.len() implies room_carved(
        post,
        #[trigger] post.rooms@[k],
    ) by {
        if k == n {
            assert(post.rooms@[k] == room);
            assert(room_carved(pre, room));
        } else {
            assert(post.rooms@[k] == pre.rooms@[k]);
            assert(room_carved(pre, pre.rooms@[k]));
        }
        assert(pre.same_dims(post));
        assert(floors_kept(pre.tiles@, post.tiles@, gw, gh));
        lemma_room_stays_carved(pre, post, post.rooms@[k]);
    }
    assert forall|k: int| 0 <= k < post.rooms@.len() implies floor_connected(
        post.tiles@,
        gw,
        gh,
        rect_center(post.rooms@[0]),
        rect_center(#[trigger] post.rooms@[k]),
    ) by {
        if k == n {
            assert(post.rooms@[k] == room);
        } else {
            assert(post.rooms@[k] == pre.rooms@[k]);
        }
    }
}

impl GameMap {
    /// Carve an L-shaped corridor from `(px, py)` to `(nx, ny)`: one
    /// horizontal and one vertical straight tunnel, their order picked by a
    /// coin flip to vary the connection shape.
    #[verifier::loop_isolation(false)]
    #[verifier::rlimit(100)]
    fn carve_corridor(&mut self, rng: &mut Rng, px: i32, py: i32, nx: i32, ny: i32)
        requires
            old(self).wf(),
            1 <= px as int <= old(self).width - 2,
            1 <= nx as int <= old(self).width - 2,
            1 <= py as int <= old(self).height - 2,
            1 <= ny as int <= old(self).height - 2,
        ensures
            final(self).wf(),
            final(self).same_dims(*old(self)),
            final(self).rooms@ == old(self).rooms@,
            final(self).revealed_tiles@ == old(self).revealed_tiles@,
            final(self).visible_tiles@ == old(self).visible_tiles@,
            final(self).blocked@ == old(self).blocked@,
            final(self).tile_content@ == old(self).tile_content@,
            floors_kept(
                old(self).tiles@,
                final(self).tiles@,
                old(self).width as int,
                old(self).height as int,
            ),
            floor_connected(
                final(self).tiles@,
                old(self).width as int,
                old(self).height as int,
                (px as int, py as int),
                (nx as int, ny as int),
            ),
            forall|xx: int, yy: int|
                old(self).in_grid(xx, yy) && !on_l_corridor(
                    (px as int, py as int),
                    (nx as int, ny as int),
                    xx,
                    yy,
                ) ==> final(self).tile_at(xx, yy) == old(self).tile_at(xx, yy),
    {
        let ghost gw = self.width as int;
        let ghost gh = self.height as int;
        let ghost t1 = self.tiles@;
        let coin = rng.range(0, 2);
        if coin == 1 {
            self.apply_horizontal_tunnel(px, nx, py);
            let ghost mid = *self;
            self.apply_vertical_tunnels(py, ny, nx);
            proof {
                assert forall|xx: int, yy: int|
                    floor_at(mid.tiles@, gw, gh, xx, yy) implies floor_at(
                    self.tiles@,
                    gw,
                    gh,
                    xx,
                    yy,
                ) by {
                    assert(self.tile_at(xx, yy) is Floor);
                }
                assert forall|xc: int|
                    min(px as int, nx as int) <= xc <= max(px as int, nx as int) implies floor_at(
                    self.tiles@,
                    gw,
                    gh,
                    xc,
                    py as int,
                ) by {
                    assert(mid.tile_at(xc, py as int) is Floor);
                    assert(floor_at(mid.tiles@, gw, gh, xc, py as int));
                }
                lemma_horizontal_link(self.tiles@, gw, gh, py as int, px as int, nx as int);
                assert forall|yc: int|
                    min(py as int, ny as int) <= yc <= max(py as int, ny as int) implies floor_at(
                    self.tiles@,
                    gw,
                    gh,
                    nx as int,
                    yc,
                ) by {
                    assert(self.tile_at(nx as int, yc) is Floor);
                }
                lemma_vertical_link(self.tiles@, gw, gh, nx as int, py as int, ny as int);
                lemma_connected_trans(
                    self.tiles@,
                    gw,
                    gh,
                    (px as int, py as int),
                    (nx as int, py as int),
                    (nx as int, ny as int),
                );
            }
        } else {
            self.apply_vertical_tunnels(py, ny, px);
            let ghost mid = *self;
            self.apply_horizontal_tunnel(px, nx, ny);
            proof {
                assert forall|xx: int, yy: int|
                    floor_at(mid.tiles@, gw, gh, xx, yy) implies floor_at(
                    self.tiles@,
                    gw,
                    gh,
                    xx,
                    yy,
                ) by {
                    assert(self.tile_at(xx, yy) is Floor);
                }
                assert forall|yc: int|
                    min(py as int, ny as int) <= yc <= max(py as int, ny as int) implies floor_at(
                    self.tiles@,
                    gw,
                    gh,
                    px as int,
                    yc,
                ) by {
                    assert(mid.tile_at(px as int, yc) is Floor);
                    assert(floor_at(mid.tiles@, gw, gh, px as int, yc));
                }
                lemma_vertical_link(self.tiles@, gw, gh, px as int, py as int, ny as int);
                assert forall|xc: int|
                    min(px as int, nx as int) <= xc <= max(px as int, nx as int) implies floor_at(
                    self.tiles@,
                    gw,
                    gh,
                    xc,
                    ny as int,
                ) by {
                    assert(self.tile_at(xc, ny as int) is Floor);
                }
                lemma_horizontal_link(self.tiles@, gw, gh, ny as int, px as int, nx as int);
                lemma_connected_trans(
                    self.tiles@,
                    gw,
                    gh,
                    (px as int, py as int),
                    (px as int, ny as int),
                    (nx as int, ny as int),
                );
            }
        }
        proof {
            assert forall|xx: int, yy: int|
                floor_at(t1, gw, gh, xx, yy) implies floor_at(self.tiles@, gw, gh, xx, yy) by {
                assert(self.tile_at(xx, yy) is Floor);
            }
            assert forall|xx: int, yy: int|
                old(self).in_grid(xx, yy) && !on_l_corridor(
                    (px as int, py as int),
                    (nx as int, ny as int),
                    xx,
                    yy,
                ) implies self.tile_at(xx, yy) == old(self).tile_at(xx, yy) by {
                assert(!(yy == py as int && min(px as int, nx as int) <= xx <= max(
                    px as int,
                    nx as int,
                )));
                assert(!(xx == nx as int && min(py as int, ny as int) <= yy <= max(
                    py as int,
                    ny as int,
                )));
                assert(!(xx == px as int && min(py as int, ny as int) <= yy <= max(
                    py as int,
                    ny as int,
                )));
                assert(!(yy == ny as int && min(px as int, nx as int) <= xx <= max(
                    px as int,
                    nx as int,
                )));
            }
        }
    }

    /// Carve the first accepted room and record it: with no earlier room
    /// there is no corridor to dig.
    #[verifier::loop_isolation(false)]
    #[verifier::rlimit(100)]
    fn accept_first_room(&mut self, room: Rect)
        requires
            well_generated(*old(self), old(self).width as int, old(self).height as int),
            old(self).rooms@.len() == 0,
            room_in_bounds(old(self).width as int, old(self).height as int, room),
        ensures
            well_generated(*final(self), old(self).width as int, old(self).height as int),
            final(self).rooms@ == old(self).rooms@.push(room),
            floor_confined(*old(self)) ==> floor_confined(*final(self)),
    {
        let ghost gw = self.width as int;
        let ghost gh = self.height as int;
        self.apply_room_to_map(&room);
        let ghost c_new = rect_center(room);
        proof {
            lemma_center_interior(room, gw, gh);
            assert(self.tile_at(c_new.0, c_new.1) is Floor);
            assert(floor_at(self.tiles@, gw, gh, c_new.0, c_new.1));
            lemma_connected_refl(self.tiles@, gw, gh, c_new);
        }
        let ghost carved = *self;
        self.rooms.push(room);
        proof {
            assert(self.rooms@[0] == room);
            assert(self.tiles@ == carved.tiles@ && self.width == carved.width && self.height
                == carved.height);
            assert forall|x: int, y: int|
                in_rect_interior(room, x, y) && self.in_grid(x, y) implies self.tile_at(
                x,
                y,
            ) is Floor by {
                assert(carved.tile_at(x, y) is Floor);
            }
            assert(room_carved(*self, room));
            assert(floor_connected(self.tiles@, gw, gh, c_new, c_new));
            if floor_confined(*old(self)) {
                assert forall|x: int, y: int|
                    self.in_grid(x, y) && (#[trigger] self.tile_at(x, y)) is Floor implies ((exists|
                        k: int,
                    |
                        0 <= k < self.rooms@.len() && in_rect_interior(
                            #[trigger] self.rooms@[k],
                            x,
                            y,
                        )) || (exists|k: int|
                        1 <= k < self.rooms@.len() && on_l_corridor(
                            rect_center(self.rooms@[k - 1]),
                            rect_center(#[trigger] self.rooms@[k]),
                            x,
                            y,
                        ))) by {
                    if in_rect_interior(room, x, y) {
                        assert(in_rect_interior(self.rooms@[0], x, y));
                    } else {
                        assert(self.tile_at(x, y) == carved.tile_at(x, y));
                        assert(carved.tile_at(x, y) == old(self).tile_at(x, y));
                        assert(old(self).tile_at(x, y) is Floor);
                        assert(old(self).rooms@.len() == 0);
                        assert(false);
                    }
                }
                assert(floor_confined(*self));
            }
        }
    }

    /// Carve a later accepted room, join its centre to the previous
    /// accepted room's centre with an L-shaped corridor, and record it,
    /// preserving every generation invariant.
    #[verifier::loop_isolation(false)]
    #[verifier::rlimit(100)]
    fn accept_linked_room(&mut self, rng: &mut Rng, room: Rect)
        requires
            well_generated(*old(self), old(self).width as int, old(self).height as int),
            old(self).rooms@.len() >= 1,
            room_in_bounds(old(self).width as int, old(self).height as int, room),
            forall|j: int|
                0 <= j < old(self).rooms@.len() ==> !rects_intersect(
                    room,
                    #[trigger] old(self).rooms@[j],
                ),
        ensures
            well_generated(*final(self), old(self).width as int, old(self).height as int),
            final(self).rooms@ == old(self).rooms@.push(room),
            floor_confined(*old(self)) ==> floor_confined(*final(self)),
    {
        let ghost gw = self.width as int;
        let ghost gh = self.height as int;
        let ghost pre_carve = *self;
        self.apply_room_to_map(&room);
        proof {
            assert forall|xx: int, yy: int|
                floor_at(pre_carve.tiles@, gw, gh, xx, yy) implies floor_at(
                self.tiles@,
                gw,
                gh,
                xx,
                yy,
            ) by {
                assert(self.tile_at(xx, yy) is Floor);
            }
            assert(floors_kept(pre_carve.tiles@, self.tiles@, gw, gh));
            lemma_rooms_stay_carved(pre_carve, *self);
            lemma_rooms_stay_connected(pre_carve, *self);
            lemma_center_interior(room, gw, gh);
            assert forall|x: int, y: int|
                in_rect_interior(room, x, y) && self.in_grid(x, y) implies self.tile_at(
                x,
                y,
            ) is Floor by {}
            assert(room_carved(*self, room));
        }
        let ghost c_new = rect_center(room);
        let last = self.rooms.len() - 1;
        let prev_room = self.rooms[last];
        proof {
            lemma_center_interior(prev_room, gw, gh);
        }
        let (new_x, new_y) = room.center();
        let (prev_x, prev_y) = prev_room.center();
        let ghost c_prev = rect_center(prev_room);
        let ghost mid = *self;
        self.carve_corridor(rng, prev_x, prev_y, new_x, new_y);
        proof {
            assert(floor_connected(self.tiles@, gw, gh, c_prev, c_new));
            lemma_rooms_stay_carved(mid, *self);
            lemma_rooms_stay_connected(mid, *self);
            lemma_room_stays_carved(mid, *self, room);
            lemma_connected_kept(
                mid.tiles@,
                self.tiles@,
                gw,
                gh,
                rect_center(self.rooms@[0]),
                c_prev,
            );
            lemma_connected_trans(
                self.tiles@,
                gw,
                gh,
                rect_center(self.rooms@[0]),
                c_prev,
                c_new,
            );
        }
        let ghost carved = *self;
        self.rooms.push(room);
        proof {
            lemma_record_room(carved, *self, room, gw, gh);
            if floor_confined(*old(self)) {
                let kk = self.rooms@.len() - 1;
                assert(self.rooms@[kk] == room);
                assert(self.rooms@[kk - 1] == prev_room);
                assert forall|x: int, y: int|
                    self.in_grid(x, y) && (#[trigger] self.tile_at(x, y)) is Floor implies ((exists|
                        k: int,
                    |
                        0 <= k < self.rooms@.len() && in_rect_interior(
                            #[trigger] self.rooms@[k],
                            x,
                            y,
                        )) || (exists|k: int|
                        1 <= k < self.rooms@.len() && on_l_corridor(
                            rect_center(self.rooms@[k - 1]),
                            rect_center(#[trigger] self.rooms@[k]),
                            x,
                            y,
                        ))) by {
                    if in_rect_interior(room, x, y) {
                        assert(in_rect_interior(self.rooms@[kk], x, y));
                    } else if on_l_corridor(c_prev, c_new, x, y) {
                        assert(rect_center(self.rooms@[kk - 1]) == c_prev);
                        assert(rect_center(self.rooms@[kk]) == c_new);
                        assert(on_l_corridor(
                            rect_center(self.rooms@[kk - 1]),
                            rect_center(self.rooms@[kk]),
                            x,
                            y,
                        ));
                    } else {
                        assert(self.tile_at(x, y) == carved.tile_at(x, y));
                        assert(carved.tile_at(x, y) == mid.tile_at(x, y));
                        assert(mid.tile_at(x, y) == old(self).tile_at(x, y));
                        assert(old(self).tile_at(x, y) is Floor);
                        if exists|k: int|
                            0 <= k < old(self).rooms@.len() && in_rect_interior(
                                #[trigger] old(self).rooms@[k],
                                x,
                                y,
                            ) {
                            let k = choose|k: int|
                                0 <= k < old(self).rooms@.len() && in_rect_interior(
                                    #[trigger] old(self).rooms@[k],
                                    x,
                                    y,
                                );
                            assert(self.rooms@[k] == old(self).rooms@[k]);
                            assert(in_rect_interior(self.rooms@[k], x, y));
                        } else {
                            let k = choose|k: int|
                                1 <= k < old(self).rooms@.len() && on_l_corridor(
                                    rect_center(old(self).rooms@[k - 1]),
                                    rect_center(#[trigger] old(self).rooms@[k]),
                                    x,
                                    y,
                                );
                            assert(self.rooms@[k] == old(self).rooms@[k]);
                            assert(self.rooms@[k - 1] == old(self).rooms@[k - 1]);
                            assert(on_l_corridor(
                                rect_center(self.rooms@[k - 1]),
                                rect_center(self.rooms@[k]),
                                x,
                                y,
                            ));
                        }
                    }
                }
                assert(floor_confined(*self));
            }
        }
    }

    /// Generate a level: up to `max_rooms` rooms with sides drawn from
    /// `[min_size, max_size]` are sampled inside the grid's border, rejected
    /// on overlap, carved, and each accepted room after the first is joined
    /// to the previous one by an L-shaped corridor whose orientation a coin
    /// flip picks. Degenerate parameters are a configuration error.
    #[verifier::loop_isolation(false)]
    pub fn generate(
        seed: u64,
        width: i32,
        height: i32,
        max_rooms: i32,
        min_size: i32,
        max_size: i32,
    ) -> (r: Result<GameMap, ConfigError>)
        ensures
            r is Err <==> !valid_generation_config(
                width as int,
                height as int,
                max_rooms as int,
                min_size as int,
                max_size as int,
            ),
            r matches Ok(m) ==> well_generated(m, width as int, height as int)
                && m.rooms@.len() <= max_rooms && (max_rooms > 0 ==> m.rooms@.len() >= 1),
            r matches Ok(m) ==> floor_confined(m),
            r matches Ok(m) ==> (forall|k: int|
                0 <= k < m.rooms@.len() ==> room_sized(
                    min_size as int,
                    max_size as int,
                    #[trigger] m.rooms@[k],
                )),
    {
        let valid = 0 < width && width <= MAX_DIM && 0 < height && height <= MAX_DIM
            && 0 <= max_rooms && 2 <= min_size && min_size <= max_size && max_size <= width - 2
            && max_size <= height - 2;
        if !valid {
            return Err(ConfigError);
        }
        let ghost gw = width as int;
        let ghost gh = height as int;
        let mut map = GameMap::new(width, height);
        let mut rng = Rng::new(seed);
        proof {
            assert forall|x: int, y: int| map.in_grid(x, y) implies !((
            #[trigger] map.tile_at(x, y)) is Floor) by {
                lemma_idx_in_range(gw, gh, x, y);
            }
            assert(floor_confined(map));
        }
        let mut attempt: i32 = 0;
        while attempt < max_rooms
            invariant
                well_generated(map, gw, gh),
                0 <= attempt <= max_rooms,
                map.rooms@.len() <= attempt,
                attempt >= 1 ==> map.rooms@.len() >= 1,
                floor_confined(map),
                forall|k: int|
                    0 <= k < map.rooms@.len() ==> room_sized(
                        min_size as int,
                        max_size as int,
                        #[trigger] map.rooms@[k],
                    ),
            decreases max_rooms - attempt,
        {
            let room_w = rng.range(min_size, max_size + 1);
            let room_h = rng.range(min_size, max_size + 1);
            let x = rng.range(0, width - 1 - room_w);
            let y = rng.range(0, height - 1 - room_h);
            let new_room = Rect::new(x, y, room_w, room_h);
            assert(room_in_bounds(gw, gh, new_room));
            let mut no_overlap = true;
            let mut ri: usize = 0;
            while ri < map.rooms.len()
                invariant
                    ri <= map.rooms@.len(),
                    no_overlap <==> (forall|j: int|
                        0 <= j < ri ==> !rects_intersect(new_room, #[trigger] map.rooms@[j])),
                decreases map.rooms@.len() - ri,
            {
                if new_room.intersect(&map.rooms[ri]) {
                    no_overlap = false;
                }
                ri = ri + 1;
            }
            if no_overlap {
                let ghost pre_rooms = map.rooms@;
                if map.rooms.len() == 0 {
                    map.accept_first_room(new_room);
                } else {
                    map.accept_linked_room(&mut rng, new_room);
                }
                proof {
                    assert(room_sized(min_size as int, max_size as int, new_room));
                    assert forall|k: int| 0 <= k < map.rooms@.len() implies room_sized(
                        min_size as int,
                        max_size as int,
                        #[trigger] map.rooms@[k],
                    ) by {
                        if k < map.rooms@.len() - 1 {
                            assert(map.rooms@[k] == pre_rooms[k]);
                        } else {
                            assert(map.rooms@[k] == new_room);
                        }
                    }
                }
            }
            attempt = attempt + 1;
        }
        Ok(map)
    }

    /// The default level: an 80 by 43 grid with up to 30 rooms of side 6 to
    /// 10, generated from `seed`.
    pub fn random_room_dungeon(seed: u64) -> (m: GameMap)
        ensures
            well_generated(m, 80, 43),
            1 <= m.rooms@.len() <= 30,
            floor_confined(m),
            forall|k: int| 0 <= k < m.rooms@.len() ==> room_sized(6, 10, #[trigger] m.rooms@[k]),
    {
        let r = GameMap::generate(seed, 80, 43, 30, 6, 10);
        assert(valid_generation_config(80, 43, 30, 6, 10));
        match r {
            Ok(m) => m,
            Err(_) => {
                proof {
                    assert(false);
                }
                GameMap::new(1, 1)
            }
        }
    }
}

} // verus!
