//! Weighted graph search over the blocked bitmap: orthogonal steps cost 100,
//! diagonal steps 145 (hundredths of a cell). The search returns a route of
//! 8-neighbor steps whose every cell past the origin is traversable, and it
//! succeeds exactly when such a route exists; the mover's own origin cell is
//! exempt from the blocked check.

use vstd::prelude::*;
use vstd::set_lib::lemma_len_subset;
use crate::components::Point;
use crate::map::GameMap;

verus! {

/// A mover may stand on `(x, y)`: inside the playable area and not blocked.
pub open spec fn exit_ok(m: GameMap, x: int, y: int) -> bool {
    &&& 1 <= x <= m.width - 1
    &&& 1 <= y <= m.height - 1
    &&& !m.blocked@[m.idx(x, y)]
}

/// `b` is one of the eight neighbors of `a`.
pub open spec fn kings_step(a: (int, int), b: (int, int)) -> bool {
    &&& a != b
    &&& -1 <= b.0 - a.0 <= 1
    &&& -1 <= b.1 - a.1 <= 1
}

/// `p` walks from `s` to `g` in 8-neighbor steps, each cell after the first
/// traversable.
pub open spec fn is_route(m: GameMap, p: Seq<(int, int)>, s: (int, int), g: (int, int)) -> bool {
    &&& p.len() >= 1
    &&& p[0] == s
    &&& p.last() == g
    &&& forall|k: int| 0 <= k < p.len() - 1 ==> kings_step(#[trigger] p[k], p[k + 1])
    &&& forall|k: int| 1 <= k < p.len() ==> exit_ok(m, (#[trigger] p[k]).0, p[k].1)
}

/// Some route leads from `s` to `g`.
pub open spec fn reachable(m: GameMap, s: (int, int), g: (int, int)) -> bool {
    exists|p: Seq<(int, int)>| is_route(m, p, s, g)
}

/// The coordinates of a point list.
pub open spec fn path_view(p: Seq<Point>) -> Seq<(int, int)> {
    Seq::new(p.len(), |k: int| (p[k].x as int, p[k].y as int))
}

/// One candidate exit of `exits_spec`.
pub open spec fn exit_entry(m: GameMap, x: int, y: int, c: u32) -> Seq<(Point, u32)> {
    if exit_ok(m, x, y) {
        seq![(Point { x: x as i32, y: y as i32 }, c)]
    } else {
        Seq::empty()
    }
}

/// The traversable neighbors of `(x, y)` with their step costs: the four
/// orthogonal exits first, then the four diagonals.
pub open spec fn exits_spec(m: GameMap, x: int, y: int) -> Seq<(Point, u32)> {
    exit_entry(m, x - 1, y, 100) + exit_entry(m, x + 1, y, 100) + exit_entry(m, x, y - 1, 100)
        + exit_entry(m, x, y + 1, 100) + exit_entry(m, x - 1, y - 1, 145) + exit_entry(
        m,
        x + 1,
        y - 1,
        145,
    ) + exit_entry(m, x - 1, y + 1, 145) + exit_entry(m, x + 1, y + 1, 145)
}

impl GameMap {
    /// Whether a mover may step onto `(x, y)`.
    fn is_exit_valid(&self, x: i32, y: i32) -> (r: bool)
        requires
            self.wf(),
            -2 <= x <= MAX_COORD,
            -2 <= y <= MAX_COORD,
        ensures
            r == exit_ok(*self, x as int, y as int),
    {
        if x < 1 || x > self.width - 1 || y < 1 || y > self.height - 1 {
            return false;
        }
        let index = self.xy_index(x, y);
        !self.blocked[index]
    }

    /// The traversable neighbors of `(x, y)` with their step costs.
    #[verifier::rlimit(100)]
    pub fn get_available_exits(&self, x: i32, y: i32) -> (r: Vec<(Point, u32)>)
        requires
            self.wf(),
            self.in_grid(x as int, y as int),
        ensures
            r@ == exits_spec(*self, x as int, y as int),
    {
        let mut exits: Vec<(Point, u32)> = Vec::new();
        let ghost m = *self;
        let ghost gx = x as int;
        let ghost gy = y as int;
        let ghost a1 = exit_entry(m, gx - 1, gy, 100);
        let ghost a2 = a1 + exit_entry(m, gx + 1, gy, 100);
        let ghost a3 = a2 + exit_entry(m, gx, gy - 1, 100);
        let ghost a4 = a3 + exit_entry(m, gx, gy + 1, 100);
        let ghost a5 = a4 + exit_entry(m, gx - 1, gy - 1, 145);
        let ghost a6 = a5 + exit_entry(m, gx + 1, gy - 1, 145);
        let ghost a7 = a6 + exit_entry(m, gx - 1, gy + 1, 145);
        let ghost a8 = a7 + exit_entry(m, gx + 1, gy + 1, 145);
        if self.is_exit_valid(x - 1, y) {
            exits.push((Point { x: x - 1, y }, 100));
        }
        proof {
            assert(exits@ =~= a1);
        }
        if self.is_exit_valid(x + 1, y) {
            exits.push((Point { x: x + 1, y }, 100));
        }
        proof {
            assert(exits@ =~= a2);
        }
        if self.is_exit_valid(x, y - 1) {
            exits.push((Point { x, y: y - 1 }, 100));
        }
        proof {
            assert(exits@ =~= a3);
        }
        if self.is_exit_valid(x, y + 1) {
            exits.push((Point { x, y: y + 1 }, 100));
        }
        proof {
            assert(exits@ =~= a4);
        }
        if self.is_exit_valid(x - 1, y - 1) {
            exits.push((Point { x: x - 1, y: y - 1 }, 145));
        }
        proof {
            assert(exits@ =~= a5);
        }
        if self.is_exit_valid(x + 1, y - 1) {
            exits.push((Point { x: x + 1, y: y - 1 }, 145));
        }
        proof {
            assert(exits@ =~= a6);
        }
        if self.is_exit_valid(x - 1, y + 1) {
            exits.push((Point { x: x - 1, y: y + 1 }, 145));
        }
        proof {
            assert(exits@ =~= a7);
        }
        if self.is_exit_valid(x + 1, y + 1) {
            exits.push((Point { x: x + 1, y: y + 1 }, 145));
        }
        proof {
            assert(exits@ =~= a8);
            assert(a8 == exits_spec(m, gx, gy));
        }
        exits
    }
}

/// Coordinate cap used by the exit check's bounds arithmetic.
pub const MAX_COORD: i32 = 4097;

/// Every known-finite label of a non-start cell names a parent one step
/// closer to the start: a strictly cheaper, adjacent cell, the cell itself
/// being traversable.
pub open spec fn parents_ok(
    m: GameMap,
    dist: Seq<u64>,
    parent: Seq<Point>,
    s: (int, int),
) -> bool {
    forall|x: int, y: int|
        m.in_grid(x, y) && (#[trigger] dist[m.idx(x, y)]) < u64::MAX && (x, y) != s ==> {
            let pr = parent[m.idx(x, y)];
            &&& m.in_grid(pr.x as int, pr.y as int)
            &&& dist[m.idx(pr.x as int, pr.y as int)] < dist[m.idx(x, y)]
            &&& kings_step((pr.x as int, pr.y as int), (x, y))
            &&& exit_ok(m, x, y)
        }
}

/// Every settled cell has every traversable neighbor labelled.
pub open spec fn closure_ok(m: GameMap, dist: Seq<u64>, visited: Seq<bool>) -> bool {
    forall|x: int, y: int, vx: int, vy: int|
        m.in_grid(x, y) && (#[trigger] visited[m.idx(x, y)]) && kings_step((x, y), (vx, vy))
            && exit_ok(m, vx, vy) ==> (#[trigger] dist[m.idx(vx, vy)]) < u64::MAX
}

/// Every settled cell is labelled.
pub open spec fn visited_finite(m: GameMap, dist: Seq<u64>, visited: Seq<bool>) -> bool {
    forall|x: int, y: int|
        m.in_grid(x, y) && (#[trigger] visited[m.idx(x, y)]) ==> dist[m.idx(x, y)] < u64::MAX
}

/// Labels stay within the budget the settled count allows.
pub open spec fn dist_bounded(m: GameMap, dist: Seq<u64>, vc: int) -> bool {
    forall|x: int, y: int|
        m.in_grid(x, y) && (#[trigger] dist[m.idx(x, y)]) < u64::MAX ==> dist[m.idx(x, y)] <= 145
            * (vc + 1)
}

/// If the search has settled every labelled cell, a route from the start
/// forces a label on its goal: walk the route; each step stays inside the
/// labelled region because settled cells label all their exits.
proof fn lemma_route_reached(
    m: GameMap,
    dist: Seq<u64>,
    visited: Seq<bool>,
    p: Seq<(int, int)>,
    s: (int, int),
    g: (int, int),
)
    requires
        m.wf(),
        is_route(m, p, s, g),
        m.in_grid(s.0, s.1),
        dist.len() == m.area(),
        visited.len() == m.area(),
        dist[m.idx(s.0, s.1)] < u64::MAX,
        closure_ok(m, dist, visited),
        forall|x: int, y: int|
            m.in_grid(x, y) && (#[trigger] dist[m.idx(x, y)]) < u64::MAX ==> visited[m.idx(x, y)],
    ensures
        dist[m.idx(g.0, g.1)] < u64::MAX,
    decreases p.len(),
{
    if p.len() == 1 {
        assert(g == s);
    } else {
        let prev = p[p.len() - 2];
        let p2 = p.drop_last();
        assert(p2.len() == p.len() - 1);
        assert forall|k: int| 0 <= k < p2.len() - 1 implies kings_step(
            #[trigger] p2[k],
            p2[k + 1],
        ) by {
            assert(p2[k] == p[k] && p2[k + 1] == p[k + 1]);
            assert(kings_step(p[k], p[k + 1]));
        }
        assert forall|k: int| 1 <= k < p2.len() implies exit_ok(
            m,
            (#[trigger] p2[k]).0,
            p2[k].1,
        ) by {
            assert(p2[k] == p[k]);
            assert(exit_ok(m, p[k].0, p[k].1));
        }
        assert(is_route(m, p2, s, prev));
        lemma_route_reached(m, dist, visited, p2, s, prev);
        assert(m.in_grid(prev.0, prev.1)) by {
            if p.len() - 2 == 0 {
                assert(prev == s);
            } else {
                assert(exit_ok(m, p[p.len() - 2].0, p[p.len() - 2].1));
            }
        }
        assert(visited[m.idx(prev.0, prev.1)]);
        assert(kings_step(p[p.len() - 2], p[p.len() - 1]));
        assert(exit_ok(m, p[p.len() - 1].0, p[p.len() - 1].1));
        assert(dist[m.idx(g.0, g.1)] < u64::MAX);
    }
}

/// Offer the step from `(bx, by)` onto `(vx, vy)` at `cost`: if the target
/// is traversable and the new label undercuts the old one, relabel the
/// target and point its parent at `(bx, by)`.
#[verifier::loop_isolation(false)]
fn relax(
    map: &GameMap,
    dist: &mut Vec<u64>,
    parent: &mut Vec<Point>,
    bx: i32,
    by: i32,
    vx: i32,
    vy: i32,
    cost: u32,
    s: Ghost<(int, int)>,
)
    requires
        map.wf(),
        old(dist)@.len() == map.area(),
        old(parent)@.len() == map.area(),
        map.in_grid(bx as int, by as int),
        kings_step((bx as int, by as int), (vx as int, vy as int)),
        100 <= cost <= 145,
        old(dist)@[map.idx(bx as int, by as int)] < u64::MAX - 145,
        parents_ok(*map, old(dist)@, old(parent)@, s@),
        map.in_grid(s@.0, s@.1),
        old(dist)@[map.idx(s@.0, s@.1)] == 0,
    ensures
        final(dist)@.len() == map.area(),
        final(parent)@.len() == map.area(),
        parents_ok(*map, final(dist)@, final(parent)@, s@),
        exit_ok(*map, vx as int, vy as int) ==> final(dist)@[map.idx(vx as int, vy as int)]
            <= old(dist)@[map.idx(bx as int, by as int)] + cost,
        forall|k: int|
            0 <= k < map.area() && old(dist)@[k] < u64::MAX ==> (#[trigger] final(dist)@[k])
                < u64::MAX,
        forall|k: int|
            0 <= k < map.area() ==> ((#[trigger] final(dist)@[k]) == old(dist)@[k] || final(dist)@[k] == old(dist)@[map.idx(bx as int, by as int)] + cost),
        final(dist)@[map.idx(bx as int, by as int)] == old(dist)@[map.idx(bx as int, by as int)],
        final(dist)@[map.idx(s@.0, s@.1)] == 0,
{
    let ghost gw = map.width as int;
    let ghost gh = map.height as int;
    if !map.is_exit_valid(vx, vy) {
        return ;
    }
    let bi = map.xy_index(bx, by);
    let vi = map.xy_index(vx, vy);
    let nd = dist[bi] + cost as u64;
    if nd < dist[vi] {
        let ghost d1 = dist@;
        let ghost p1 = parent@;
        dist.set(vi, nd);
        parent.set(vi, Point { x: bx, y: by });
        proof {
            assert forall|x: int, y: int|
                map.in_grid(x, y) && (#[trigger] dist@[map.idx(x, y)]) < u64::MAX && (x, y)
                    != s@ implies {
                let pr = parent@[map.idx(x, y)];
                &&& map.in_grid(pr.x as int, pr.y as int)
                &&& dist@[map.idx(pr.x as int, pr.y as int)] < dist@[map.idx(x, y)]
                &&& kings_step((pr.x as int, pr.y as int), (x, y))
                &&& exit_ok(*map, x, y)
            } by {
                crate::map::lemma_idx_in_range(gw, gh, x, y);
                if x == vx && y == vy {
                    assert(dist@[map.idx(x, y)] == nd);
                    crate::map::lemma_idx_in_range(gw, gh, bx as int, by as int);
                    if (bx as int, by as int) == (vx as int, vy as int) {
                        assert(false);
                    }
                    crate::map::lemma_idx_unique(gw, gh, bx as int, by as int, vx as int,
                        vy as int);
                    assert(dist@[map.idx(bx as int, by as int)] == d1[map.idx(
                        bx as int,
                        by as int,
                    )]);
                } else {
                    crate::map::lemma_idx_unique(gw, gh, x, y, vx as int, vy as int);
                    assert(dist@[map.idx(x, y)] == d1[map.idx(x, y)]);
                    assert(parent@[map.idx(x, y)] == p1[map.idx(x, y)]);
                    let pr = p1[map.idx(x, y)];
                    assert(map.in_grid(pr.x as int, pr.y as int));
                    crate::map::lemma_idx_in_range(gw, gh, pr.x as int, pr.y as int);
                    if (pr.x as int, pr.y as int) == (vx as int, vy as int) {
                        assert(dist@[map.idx(pr.x as int, pr.y as int)] == nd);
                        assert(nd < d1[map.idx(vx as int, vy as int)]);
                        assert(d1[map.idx(pr.x as int, pr.y as int)] < d1[map.idx(x, y)]);
                    } else {
                        crate::map::lemma_idx_unique(gw, gh, pr.x as int, pr.y as int, vx as int,
                            vy as int);
                        assert(dist@[map.idx(pr.x as int, pr.y as int)] == d1[map.idx(
                            pr.x as int,
                            pr.y as int,
                        )]);
                    }
                }
            }
            crate::map::lemma_idx_in_range(gw, gh, vx as int, vy as int);
            crate::map::lemma_idx_in_range(gw, gh, bx as int, by as int);
            crate::map::lemma_idx_unique(gw, gh, bx as int, by as int, vx as int, vy as int);
            assert(dist@[map.idx(bx as int, by as int)] == d1[map.idx(bx as int, by as int)]);
            crate::map::lemma_idx_in_range(gw, gh, s@.0, s@.1);
            assert((vx as int, vy as int) != s@) by {
                assert(d1[map.idx(vx as int, vy as int)] > nd >= 100);
            }
            crate::map::lemma_idx_unique(gw, gh, s@.0, s@.1, vx as int, vy as int);
            assert(dist@[map.idx(s@.0, s@.1)] == 0);
        }
    }
}


/// Fill helper: `n` copies of one label value.
fn fill_u64(n: usize, v: u64) -> (r: Vec<u64>)
    ensures
        r@.len() == n,
        forall|k: int| 0 <= k < n ==> r@[k] == v,
{
    let mut out: Vec<u64> = Vec::new();
    let mut i: usize = 0;
    while i < n
        invariant
            i <= n,
            out@.len() == i,
            forall|k: int| 0 <= k < i ==> out@[k] == v,
        decreases n - i,
    {
        out.push(v);
        i = i + 1;
    }
    out
}

/// Fill helper: `n` copies of one flag value.
fn fill_bool(n: usize, v: bool) -> (r: Vec<bool>)
    ensures
        r@.len() == n,
        forall|k: int| 0 <= k < n ==> r@[k] == v,
{
    let mut out: Vec<bool> = Vec::new();
    let mut i: usize = 0;
    while i < n
        invariant
            i <= n,
            out@.len() == i,
            forall|k: int| 0 <= k < i ==> out@[k] == v,
        decreases n - i,
    {
        out.push(v);
        i = i + 1;
    }
    out
}

/// Fill helper: `n` copies of one point value.
fn fill_point(n: usize, v: Point) -> (r: Vec<Point>)
    ensures
        r@.len() == n,
        forall|k: int| 0 <= k < n ==> r@[k] == v,
{
    let mut out: Vec<Point> = Vec::new();
    let mut i: usize = 0;
    while i < n
        invariant
            i <= n,
            out@.len() == i,
            forall|k: int| 0 <= k < i ==> out@[k] == v,
        decreases n - i,
    {
        out.push(v);
        i = i + 1;
    }
    out
}

/// Shared requirements of a relaxation stage.
pub open spec fn stage_pre(
    m: GameMap,
    dist: Seq<u64>,
    parent: Seq<Point>,
    bx: int,
    by: int,
    s: (int, int),
) -> bool {
    &&& m.wf()
    &&& dist.len() == m.area()
    &&& parent.len() == m.area()
    &&& m.in_grid(bx, by)
    &&& dist[m.idx(bx, by)] < u64::MAX - 145
    &&& parents_ok(m, dist, parent, s)
    &&& m.in_grid(s.0, s.1)
    &&& dist[m.idx(s.0, s.1)] == 0
}

/// Offer the four orthogonal exits of `(bx, by)` a label through it.
#[verifier::loop_isolation(false)]
#[verifier::rlimit(100)]
fn relax_orthogonal(
    map: &GameMap,
    dist: &mut Vec<u64>,
    parent: &mut Vec<Point>,
    bx: i32,
    by: i32,
    s: Ghost<(int, int)>,
)
    requires
        stage_pre(*map, old(dist)@, old(parent)@, bx as int, by as int, s@),
    ensures
        final(dist)@.len() == map.area(),
        final(parent)@.len() == map.area(),
        parents_ok(*map, final(dist)@, final(parent)@, s@),
        final(dist)@[map.idx(bx as int, by as int)] == old(dist)@[map.idx(bx as int, by as int)],
        final(dist)@[map.idx(s@.0, s@.1)] == 0,
        forall|k: int|
            0 <= k < map.area() && old(dist)@[k] < u64::MAX ==> (#[trigger] final(dist)@[k])
                < u64::MAX,
        forall|k: int|
            0 <= k < map.area() ==> ((#[trigger] final(dist)@[k]) == old(dist)@[k] || final(dist)@[k]
                == old(dist)@[map.idx(bx as int, by as int)] + 100),
        exit_ok(*map, bx as int - 1, by as int) ==> final(dist)@[map.idx(bx as int - 1, by as int)]
            < u64::MAX,
        exit_ok(*map, bx as int + 1, by as int) ==> final(dist)@[map.idx(bx as int + 1, by as int)]
            < u64::MAX,
        exit_ok(*map, bx as int, by as int - 1) ==> final(dist)@[map.idx(bx as int, by as int - 1)]
            < u64::MAX,
        exit_ok(*map, bx as int, by as int + 1) ==> final(dist)@[map.idx(bx as int, by as int + 1)]
            < u64::MAX,
{
    let ghost m = *map;
    let ghost gw = map.width as int;
    let ghost gh = map.height as int;
    let ghost gbx = bx as int;
    let ghost gby = by as int;
    let ghost d0 = dist@;
    let ghost nb = d0[m.idx(gbx, gby)];
    relax(map, dist, parent, bx, by, bx - 1, by, 100, s);
    let ghost d1 = dist@;
    relax(map, dist, parent, bx, by, bx + 1, by, 100, s);
    let ghost d2 = dist@;
    relax(map, dist, parent, bx, by, bx, by - 1, 100, s);
    let ghost d3 = dist@;
    relax(map, dist, parent, bx, by, bx, by + 1, 100, s);
    let ghost d4 = dist@;
    proof {
        let area = m.area();
        assert forall|k: int| 0 <= k < area && d1[k] < u64::MAX implies (#[trigger] d4[k])
            < u64::MAX by {
            assert(d2[k] < u64::MAX);
            assert(d3[k] < u64::MAX);
        }
        assert forall|k: int| 0 <= k < area && d0[k] < u64::MAX implies (#[trigger] d4[k])
            < u64::MAX by {
            assert(d1[k] < u64::MAX);
        }
        assert forall|k: int| 0 <= k < area implies ((#[trigger] d4[k]) == d0[k] || d4[k] == nb
            + 100) by {}
        if exit_ok(m, gbx - 1, gby) {
            crate::map::lemma_idx_in_range(gw, gh, gbx - 1, gby);
            assert(d1[m.idx(gbx - 1, gby)] < u64::MAX);
            assert(d4[m.idx(gbx - 1, gby)] < u64::MAX);
        }
        if exit_ok(m, gbx + 1, gby) {
            crate::map::lemma_idx_in_range(gw, gh, gbx + 1, gby);
            assert(d2[m.idx(gbx + 1, gby)] < u64::MAX);
            assert(d4[m.idx(gbx + 1, gby)] < u64::MAX);
        }
        if exit_ok(m, gbx, gby - 1) {
            crate::map::lemma_idx_in_range(gw, gh, gbx, gby - 1);
            assert(d3[m.idx(gbx, gby - 1)] < u64::MAX);
            assert(d4[m.idx(gbx, gby - 1)] < u64::MAX);
        }
        if exit_ok(m, gbx, gby + 1) {
            crate::map::lemma_idx_in_range(gw, gh, gbx, gby + 1);
            assert(d4[m.idx(gbx, gby + 1)] < u64::MAX);
        }
    }
}

/// Offer the four diagonal exits of `(bx, by)` a label through it.
#[verifier::loop_isolation(false)]
#[verifier::rlimit(100)]
fn relax_diagonal(
    map: &GameMap,
    dist: &mut Vec<u64>,
    parent: &mut Vec<Point>,
    bx: i32,
    by: i32,
    s: Ghost<(int, int)>,
)
    requires
        stage_pre(*map, old(dist)@, old(parent)@, bx as int, by as int, s@),
    ensures
        final(dist)@.len() == map.area(),
        final(parent)@.len() == map.area(),
        parents_ok(*map, final(dist)@, final(parent)@, s@),
        final(dist)@[map.idx(bx as int, by as int)] == old(dist)@[map.idx(bx as int, by as int)],
        final(dist)@[map.idx(s@.0, s@.1)] == 0,
        forall|k: int|
            0 <= k < map.area() && old(dist)@[k] < u64::MAX ==> (#[trigger] final(dist)@[k])
                < u64::MAX,
        forall|k: int|
            0 <= k < map.area() ==> ((#[trigger] final(dist)@[k]) == old(dist)@[k] || final(dist)@[k]
                == old(dist)@[map.idx(bx as int, by as int)] + 145),
        exit_ok(*map, bx as int - 1, by as int - 1) ==> final(dist)@[map.idx(
            bx as int - 1,
            by as int - 1,
        )] < u64::MAX,
        exit_ok(*map, bx as int + 1, by as int - 1) ==> final(dist)@[map.idx(
            bx as int + 1,
            by as int - 1,
        )] < u64::MAX,
        exit_ok(*map, bx as int - 1, by as int + 1) ==> final(dist)@[map.idx(
            bx as int - 1,
            by as int + 1,
        )] < u64::MAX,
        exit_ok(*map, bx as int + 1, by as int + 1) ==> final(dist)@[map.idx(
            bx as int + 1,
            by as int + 1,
        )] < u64::MAX,
{
    let ghost m = *map;
    let ghost gw = map.width as int;
    let ghost gh = map.height as int;
    let ghost gbx = bx as int;
    let ghost gby = by as int;
    let ghost d0 = dist@;
    let ghost nb = d0[m.idx(gbx, gby)];
    relax(map, dist, parent, bx, by, bx - 1, by - 1, 145, s);
    let ghost d1 = dist@;
    relax(map, dist, parent, bx, by, bx + 1, by - 1, 145, s);
    let ghost d2 = dist@;
    relax(map, dist, parent, bx, by, bx - 1, by + 1, 145, s);
    let ghost d3 = dist@;
    relax(map, dist, parent, bx, by, bx + 1, by + 1, 145, s);
    let ghost d4 = dist@;
    proof {
        let area = m.area();
        assert forall|k: int| 0 <= k < area && d1[k] < u64::MAX implies (#[trigger] d4[k])
            < u64::MAX by {
            assert(d2[k] < u64::MAX);
            assert(d3[k] < u64::MAX);
        }
        assert forall|k: int| 0 <= k < area && d0[k] < u64::MAX implies (#[trigger] d4[k])
            < u64::MAX by {
            assert(d1[k] < u64::MAX);
        }
        assert forall|k: int| 0 <= k < area implies ((#[trigger] d4[k]) == d0[k] || d4[k] == nb
            + 145) by {}
        if exit_ok(m, gbx - 1, gby - 1) {
            crate::map::lemma_idx_in_range(gw, gh, gbx - 1, gby - 1);
            assert(d1[m.idx(gbx - 1, gby - 1)] < u64::MAX);
            assert(d4[m.idx(gbx - 1, gby - 1)] < u64::MAX);
        }
        if exit_ok(m, gbx + 1, gby - 1) {
            crate::map::lemma_idx_in_range(gw, gh, gbx + 1, gby - 1);
            assert(d2[m.idx(gbx + 1, gby - 1)] < u64::MAX);
            assert(d4[m.idx(gbx + 1, gby - 1)] < u64::MAX);
        }
        if exit_ok(m, gbx - 1, gby + 1) {
            crate::map::lemma_idx_in_range(gw, gh, gbx - 1, gby + 1);
            assert(d3[m.idx(gbx - 1, gby + 1)] < u64::MAX);
            assert(d4[m.idx(gbx - 1, gby + 1)] < u64::MAX);
        }
        if exit_ok(m, gbx + 1, gby + 1) {
            crate::map::lemma_idx_in_range(gw, gh, gbx + 1, gby + 1);
            assert(d4[m.idx(gbx + 1, gby + 1)] < u64::MAX);
        }
    }
}

/// After settling `(bx, by)` with every exit offered a label, the closure
/// and settled-labelled facts hold for the extended settled set.
#[verifier::rlimit(100)]
proof fn lemma_expand_closure(
    m: GameMap,
    d0: Seq<u64>,
    d8: Seq<u64>,
    v0: Seq<bool>,
    v1: Seq<bool>,
    bx: int,
    by: int,
)
    requires
        m.wf(),
        d0.len() == m.area(),
        d8.len() == m.area(),
        v0.len() == m.area(),
        m.in_grid(bx, by),
        v1 == v0.update(m.idx(bx, by), true),
        closure_ok(m, d0, v0),
        visited_finite(m, d0, v0),
        d0[m.idx(bx, by)] < u64::MAX,
        forall|k: int| 0 <= k < m.area() && d0[k] < u64::MAX ==> (#[trigger] d8[k]) < u64::MAX,
        forall|vx: int, vy: int|
            kings_step((bx, by), (vx, vy)) && exit_ok(m, vx, vy) ==> (#[trigger] d8[m.idx(vx, vy)])
                < u64::MAX,
    ensures
        closure_ok(m, d8, v1),
        visited_finite(m, d8, v1),
{
    let gw = m.width as int;
    let gh = m.height as int;
    crate::map::lemma_idx_in_range(gw, gh, bx, by);
    assert forall|x: int, y: int, vx: int, vy: int|
        m.in_grid(x, y) && (#[trigger] v1[m.idx(x, y)]) && kings_step((x, y), (vx, vy)) && exit_ok(
            m,
            vx,
            vy,
        ) implies (#[trigger] d8[m.idx(vx, vy)]) < u64::MAX by {
        crate::map::lemma_idx_in_range(gw, gh, x, y);
        crate::map::lemma_idx_in_range(gw, gh, vx, vy);
        if !(x == bx && y == by) {
            crate::map::lemma_idx_unique(gw, gh, x, y, bx, by);
            assert(v0[m.idx(x, y)]);
            assert(d0[m.idx(vx, vy)] < u64::MAX);
        }
    }
    assert forall|x: int, y: int|
        m.in_grid(x, y) && (#[trigger] v1[m.idx(x, y)]) implies d8[m.idx(x, y)] < u64::MAX by {
        crate::map::lemma_idx_in_range(gw, gh, x, y);
        if x == bx && y == by {
            assert(d0[m.idx(x, y)] < u64::MAX);
        } else {
            crate::map::lemma_idx_unique(gw, gh, x, y, bx, by);
            assert(v0[m.idx(x, y)]);
            assert(d0[m.idx(x, y)] < u64::MAX);
        }
    }
}

/// Settle the cell `(bx, by)`: mark it visited and offer every one of its
/// eight exits a label through it.
#[verifier::loop_isolation(false)]
#[verifier::rlimit(100)]
fn expand_cell(
    map: &GameMap,
    dist: &mut Vec<u64>,
    parent: &mut Vec<Point>,
    visited: &mut Vec<bool>,
    bx: i32,
    by: i32,
    vc: usize,
    s: Ghost<(int, int)>,
)
    requires
        map.wf(),
        old(dist)@.len() == map.area(),
        old(parent)@.len() == map.area(),
        old(visited)@.len() == map.area(),
        map.in_grid(bx as int, by as int),
        old(dist)@[map.idx(bx as int, by as int)] < u64::MAX,
        parents_ok(*map, old(dist)@, old(parent)@, s@),
        closure_ok(*map, old(dist)@, old(visited)@),
        visited_finite(*map, old(dist)@, old(visited)@),
        dist_bounded(*map, old(dist)@, vc as int),
        vc <= 0x1000000,
        map.in_grid(s@.0, s@.1),
        old(dist)@[map.idx(s@.0, s@.1)] == 0,
    ensures
        final(dist)@.len() == map.area(),
        final(parent)@.len() == map.area(),
        final(visited)@ == old(visited)@.update(map.idx(bx as int, by as int), true),
        parents_ok(*map, final(dist)@, final(parent)@, s@),
        closure_ok(*map, final(dist)@, final(visited)@),
        visited_finite(*map, final(dist)@, final(visited)@),
        dist_bounded(*map, final(dist)@, vc as int + 1),
        forall|k: int|
            0 <= k < map.area() && old(dist)@[k] < u64::MAX ==> (#[trigger] final(dist)@[k])
                < u64::MAX,
        final(dist)@[map.idx(s@.0, s@.1)] == 0,
{
    let ghost m = *map;
    let ghost gw = map.width as int;
    let ghost gh = map.height as int;
    let ghost gbx = bx as int;
    let ghost gby = by as int;
    let bi = map.xy_index(bx, by);
    let ghost d0 = dist@;
    let ghost nb = d0[m.idx(gbx, gby)];
    proof {
        crate::map::lemma_area_bound(gw, gh);
        assert(nb <= 145 * (vc as int + 1));
        assert(145 * (vc as int + 1) < u64::MAX - 145 && 145 * (vc as int + 2)
            < u64::MAX) by (nonlinear_arith)
            requires 0 <= vc as int <= 0x1000000,
        {}
    }
    visited.set(bi, true);
    relax_orthogonal(map, dist, parent, bx, by, s);
    let ghost da = dist@;
    relax_diagonal(map, dist, parent, bx, by, s);
    let ghost db = dist@;
    proof {
        let area = m.area();
        assert forall|k: int| 0 <= k < area && d0[k] < u64::MAX implies (#[trigger] db[k])
            < u64::MAX by {
            assert(da[k] < u64::MAX);
        }
        assert forall|x: int, y: int|
            m.in_grid(x, y) && (#[trigger] db[m.idx(x, y)]) < u64::MAX implies db[m.idx(x, y)]
            <= 145 * (vc as int + 2) by {
            crate::map::lemma_idx_in_range(gw, gh, x, y);
            let k = m.idx(x, y);
            assert(db[k] == da[k] || db[k] == nb + 145);
            assert(da[k] == d0[k] || da[k] == nb + 100);
            if d0[k] < u64::MAX {
                assert(d0[k] <= 145 * (vc as int + 1));
            }
        }
        assert forall|vx: int, vy: int|
            kings_step((gbx, gby), (vx, vy)) && exit_ok(m, vx, vy) implies (#[trigger] db[m.idx(
            vx,
            vy,
        )]) < u64::MAX by {
            crate::map::lemma_idx_in_range(gw, gh, vx, vy);
            assert(gbx - 1 <= vx <= gbx + 1 && gby - 1 <= vy <= gby + 1);
            if vy == gby || vx == gbx {
                assert(da[m.idx(vx, vy)] < u64::MAX);
                assert(db[m.idx(vx, vy)] < u64::MAX);
            }
        }
        lemma_expand_closure(m, d0, db, old(visited)@, visited@, gbx, gby);
    }
}

/// Walk the parent labels back from the goal and return the route forwards.
#[verifier::loop_isolation(false)]
fn build_route(
    map: &GameMap,
    dist: &Vec<u64>,
    parent: &Vec<Point>,
    sx: i32,
    sy: i32,
    gx: i32,
    gy: i32,
) -> (r: Vec<Point>)
    requires
        map.wf(),
        dist@.len() == map.area(),
        parent@.len() == map.area(),
        map.in_grid(sx as int, sy as int),
        map.in_grid(gx as int, gy as int),
        dist@[map.idx(gx as int, gy as int)] < u64::MAX,
        parents_ok(*map, dist@, parent@, (sx as int, sy as int)),
    ensures
        is_route(*map, path_view(r@), (sx as int, sy as int), (gx as int, gy as int)),
{
    let ghost m = *map;
    let ghost gw = map.width as int;
    let ghost gh = map.height as int;
    let mut back: Vec<Point> = Vec::new();
    back.push(Point { x: gx, y: gy });
    let mut cx = gx;
    let mut cy = gy;
    while !(cx == sx && cy == sy)
        invariant
            map.in_grid(cx as int, cy as int),
            dist@[map.idx(cx as int, cy as int)] < u64::MAX,
            back@.len() >= 1,
            back@[0] == (Point { x: gx, y: gy }),
            back@.last() == (Point { x: cx, y: cy }),
            forall|k: int|
                0 <= k < back@.len() - 1 ==> kings_step(
                    ((#[trigger] back@[k + 1]).x as int, back@[k + 1].y as int),
                    (back@[k].x as int, back@[k].y as int),
                ),
            forall|k: int|
                0 <= k < back@.len() - 1 ==> exit_ok(
                    m,
                    (#[trigger] back@[k]).x as int,
                    back@[k].y as int,
                ),
        decreases dist@[map.idx(cx as int, cy as int)],
    {
        let ci = map.xy_index(cx, cy);
        let pr = parent[ci];
        proof {
            assert(m.in_grid(cx as int, cy as int) && dist@[m.idx(cx as int, cy as int)]
                < u64::MAX && (cx as int, cy as int) != (sx as int, sy as int));
            assert(m.in_grid(pr.x as int, pr.y as int));
            assert(dist@[m.idx(pr.x as int, pr.y as int)] < dist@[m.idx(cx as int, cy as int)]);
            assert(kings_step((pr.x as int, pr.y as int), (cx as int, cy as int)));
            assert(exit_ok(m, cx as int, cy as int));
        }
        back.push(pr);
        cx = pr.x;
        cy = pr.y;
    }
    let n_b = back.len();
    let mut path: Vec<Point> = Vec::new();
    let mut k: usize = 0;
    while k < n_b
        invariant
            k <= n_b,
            n_b == back@.len(),
            path@.len() == k,
            forall|j: int| 0 <= j < k ==> (#[trigger] path@[j]) == back@[n_b - 1 - j],
        decreases n_b - k,
    {
        let p = back[n_b - 1 - k];
        path.push(p);
        k = k + 1;
    }
    proof {
        let pv = path_view(path@);
        assert(pv.len() == n_b);
        assert(pv[0] == (sx as int, sy as int)) by {
            assert(path@[0] == back@[n_b - 1]);
        }
        assert(pv.last() == (gx as int, gy as int)) by {
            assert(path@[n_b - 1] == back@[0]);
        }
        assert forall|j: int| 0 <= j < pv.len() - 1 implies kings_step(
            #[trigger] pv[j],
            pv[j + 1],
        ) by {
            let kk: int = n_b - 2 - j;
            assert(0 <= kk < back@.len() - 1);
            assert(kings_step(
                ((back@[kk + 1]).x as int, back@[kk + 1].y as int),
                ((back@[kk]).x as int, back@[kk].y as int),
            ));
            assert(path@[j] == back@[kk + 1]);
            assert(path@[j + 1] == back@[kk]);
        }
        assert forall|j: int| 1 <= j < pv.len() implies exit_ok(
            m,
            (#[trigger] pv[j]).0,
            pv[j].1,
        ) by {
            let kk: int = n_b - 1 - j;
            assert(0 <= kk < back@.len() - 1);
            assert(exit_ok(m, (back@[kk]).x as int, back@[kk].y as int));
            assert(path@[j] == back@[kk]);
        }
        assert(is_route(m, pv, (sx as int, sy as int), (gx as int, gy as int)));
    }
    path
}

/// Search for a route from `(sx, sy)` to `(gx, gy)` over the blocked
/// bitmap, cheapest cells settled first under the orthogonal-100 /
/// diagonal-145 cost model. Returns a route exactly when one exists; the
/// start's own blocked flag is ignored.
#[verifier::loop_isolation(false)]
#[verifier::rlimit(100)]
pub fn find_path(map: &GameMap, sx: i32, sy: i32, gx: i32, gy: i32) -> (r: Option<Vec<Point>>)
    requires
        map.wf(),
        map.in_grid(sx as int, sy as int),
        map.in_grid(gx as int, gy as int),
    ensures
        r is Some <==> reachable(*map, (sx as int, sy as int), (gx as int, gy as int)),
        r matches Some(p) ==> is_route(
            *map,
            path_view(p@),
            (sx as int, sy as int),
            (gx as int, gy as int),
        ),
{
    let ghost m = *map;
    let ghost gw = map.width as int;
    let ghost gh = map.height as int;
    let ghost s = (sx as int, sy as int);
    let ghost g = (gx as int, gy as int);
    let area = map.tiles.len();
    proof {
        crate::map::lemma_area_bound(gw, gh);
    }
    let mut dist = fill_u64(area, u64::MAX);
    let mut parent = fill_point(area, Point { x: sx, y: sy });
    let mut visited = fill_bool(area, false);
    let si = map.xy_index(sx, sy);
    let gi = map.xy_index(gx, gy);
    dist.set(si, 0);
    let mut vc: usize = 0;
    let ghost mut vset = Set::<int>::empty();
    proof {
        vstd::set_lib::lemma_int_range(0, area as int);
    }
    proof {
        assert forall|x: int, y: int|
            m.in_grid(x, y) && (#[trigger] dist@[m.idx(x, y)]) < u64::MAX && (x, y) != s implies {
            let pr = parent@[m.idx(x, y)];
            &&& m.in_grid(pr.x as int, pr.y as int)
            &&& dist@[m.idx(pr.x as int, pr.y as int)] < dist@[m.idx(x, y)]
            &&& kings_step((pr.x as int, pr.y as int), (x, y))
            &&& exit_ok(m, x, y)
        } by {
            crate::map::lemma_idx_in_range(gw, gh, x, y);
            crate::map::lemma_idx_unique(gw, gh, x, y, s.0, s.1);
            assert(dist@[m.idx(x, y)] == u64::MAX);
        }
        assert(parents_ok(m, dist@, parent@, s));
        assert forall|x: int, y: int, vx: int, vy: int|
            m.in_grid(x, y) && (#[trigger] visited@[m.idx(x, y)]) && kings_step((x, y), (vx, vy))
                && exit_ok(m, vx, vy) implies (#[trigger] dist@[m.idx(vx, vy)]) < u64::MAX by {
            crate::map::lemma_idx_in_range(gw, gh, x, y);
            assert(false);
        }
        assert forall|x: int, y: int|
            m.in_grid(x, y) && (#[trigger] visited@[m.idx(x, y)]) implies dist@[m.idx(x, y)]
            < u64::MAX by {
            crate::map::lemma_idx_in_range(gw, gh, x, y);
            assert(false);
        }
        assert forall|x: int, y: int|
            m.in_grid(x, y) && (#[trigger] dist@[m.idx(x, y)]) < u64::MAX implies dist@[m.idx(x, y)]
            <= 145 * (0int + 1) by {
            crate::map::lemma_idx_in_range(gw, gh, x, y);
            if (x, y) != s {
                crate::map::lemma_idx_unique(gw, gh, x, y, s.0, s.1);
                assert(dist@[m.idx(x, y)] == u64::MAX);
            }
        }
    }
    let mut done = false;
    while !done
        invariant
            dist@.len() == area,
            parent@.len() == area,
            visited@.len() == area,
            area == m.area(),
            dist@[m.idx(s.0, s.1)] == 0,
            vc <= area,
            vset.finite(),
            vset.len() == vc,
            vset.subset_of(vstd::set_lib::set_int_range(0, area as int)),
            forall|k: int| 0 <= k < area ==> ((#[trigger] visited@[k]) <==> vset.contains(k)),
            parents_ok(m, dist@, parent@, s),
            closure_ok(m, dist@, visited@),
            visited_finite(m, dist@, visited@),
            dist_bounded(m, dist@, vc as int),
            done ==> (forall|x: int, y: int|
                m.in_grid(x, y) && (#[trigger] dist@[m.idx(x, y)]) < u64::MAX ==> visited@[m.idx(
                    x,
                    y,
                )]),
        decreases area - vc, (if done { 0int } else { 1int }),
    {
        let mut found = false;
        let mut bx: i32 = 0;
        let mut by: i32 = 0;
        let mut bd: u64 = u64::MAX;
        let mut sy2: i32 = 0;
        while sy2 < map.height
            invariant
                0 <= sy2 <= map.height,
                found ==> (m.in_grid(bx as int, by as int) && !visited@[m.idx(bx as int, by as int)]
                    && dist@[m.idx(bx as int, by as int)] == bd && bd < u64::MAX),
                !found ==> bd == u64::MAX,
                !found ==> (forall|x: int, y: int|
                    m.in_grid(x, y) && y < sy2 ==> (visited@[m.idx(x, y)] || (
                    #[trigger] dist@[m.idx(x, y)]) == u64::MAX)),
            decreases map.height - sy2,
        {
            let mut sx2: i32 = 0;
            while sx2 < map.width
                invariant
                    0 <= sy2 < map.height,
                    0 <= sx2 <= map.width,
                    found ==> (m.in_grid(bx as int, by as int) && !visited@[m.idx(
                        bx as int,
                        by as int,
                    )] && dist@[m.idx(bx as int, by as int)] == bd && bd < u64::MAX),
                    !found ==> bd == u64::MAX,
                    !found ==> (forall|x: int, y: int|
                        m.in_grid(x, y) && (y < sy2 || (y == sy2 && x < sx2)) ==> (visited@[m.idx(
                            x,
                            y,
                        )] || (#[trigger] dist@[m.idx(x, y)]) == u64::MAX)),
                decreases map.width - sx2,
            {
                let ci = map.xy_index(sx2, sy2);
                let dv = dist[ci];
                if !visited[ci] && dv < bd {
                    found = true;
                    bx = sx2;
                    by = sy2;
                    bd = dv;
                }
                sx2 = sx2 + 1;
            }
            sy2 = sy2 + 1;
        }
        if !found {
            proof {
                assert forall|x: int, y: int|
                    m.in_grid(x, y) && (#[trigger] dist@[m.idx(x, y)]) < u64::MAX implies visited@[
                m.idx(x, y)] by {}
            }
            done = true;
        } else {
        let ghost vset0 = vset;
        let bi2 = map.xy_index(bx, by);
        proof {
            crate::map::lemma_area_bound(gw, gh);
            assert(vc <= 0x1000000);
        }
        expand_cell(map, &mut dist, &mut parent, &mut visited, bx, by, vc, Ghost(s));
        proof {
            vset = vset.insert(m.idx(bx as int, by as int));
            assert(!vset0.contains(m.idx(bx as int, by as int)));
            assert(vset.len() == vset0.len() + 1);
            assert(vset.subset_of(vstd::set_lib::set_int_range(0, area as int))) by {
                crate::map::lemma_idx_in_range(gw, gh, bx as int, by as int);
            }
            lemma_len_subset(vset, vstd::set_lib::set_int_range(0, area as int));
            assert(vset.len() <= area);
            assert forall|k: int| 0 <= k < area implies ((#[trigger] visited@[k]) <==> vset.contains(
                k,
            )) by {}
        }
        vc = vc + 1;
        }
    }
    let dg = dist[gi];
    if dg == u64::MAX {
        proof {
            if reachable(m, s, g) {
                let p = choose|p: Seq<(int, int)>| is_route(m, p, s, g);
                lemma_route_reached(m, dist@, visited@, p, s, g);
            }
        }
        None
    } else {
        let path = build_route(map, &dist, &parent, sx, sy, gx, gy);
        proof {
            assert(is_route(m, path_view(path@), s, g));
            assert(reachable(m, s, g));
        }
        Some(path)
    }
}

/// A route cannot be shorter than the coordinate distance it spans: each
/// step moves at most one cell on either axis, so an actor taking one step
/// per turn needs at least the Chebyshev distance many turns to arrive.
pub proof fn lemma_route_length_bound(m: GameMap, p: Seq<(int, int)>, s: (int, int), g: (
    int,
    int,
))
    requires
        is_route(m, p, s, g),
    ensures
        p.len() > g.0 - s.0,
        p.len() > s.0 - g.0,
        p.len() > g.1 - s.1,
        p.len() > s.1 - g.1,
    decreases p.len(),
{
    if p.len() == 1 {
        assert(s == g);
    } else {
        let prev = p[p.len() - 2];
        let p2 = p.drop_last();
        assert forall|k: int| 0 <= k < p2.len() - 1 implies kings_step(
            #[trigger] p2[k],
            p2[k + 1],
        ) by {
            assert(p2[k] == p[k] && p2[k + 1] == p[k + 1]);
            assert(kings_step(p[k], p[k + 1]));
        }
        assert forall|k: int| 1 <= k < p2.len() implies exit_ok(
            m,
            (#[trigger] p2[k]).0,
            p2[k].1,
        ) by {
            assert(p2[k] == p[k]);
            assert(exit_ok(m, p[k].0, p[k].1));
        }
        assert(is_route(m, p2, s, prev));
        lemma_route_length_bound(m, p2, s, prev);
        assert(kings_step(p[p.len() - 2], p[p.len() - 1]));
    }
}

/// Reachability reads only the grid's sides and blocked mask, so it is the
/// same on any two maps that agree on them.
pub proof fn lemma_reachable_same(m1: GameMap, m2: GameMap, a: (int, int), b: (int, int))
    requires
        m1.width == m2.width,
        m1.height == m2.height,
        m1.blocked@ == m2.blocked@,
    ensures
        reachable(m1, a, b) <==> reachable(m2, a, b),
{
    if reachable(m1, a, b) {
        let p = choose|p: Seq<(int, int)>| is_route(m1, p, a, b);
        assert forall|k: int| 1 <= k < p.len() implies exit_ok(m2, (#[trigger] p[k]).0, p[k].1) by {
            assert(exit_ok(m1, p[k].0, p[k].1));
        }
        assert(is_route(m2, p, a, b));
    }
    if reachable(m2, a, b) {
        let p = choose|p: Seq<(int, int)>| is_route(m2, p, a, b);
        assert forall|k: int| 1 <= k < p.len() implies exit_ok(m1, (#[trigger] p[k]).0, p[k].1) by {
            assert(exit_ok(m2, p[k].0, p[k].1));
        }
        assert(is_route(m1, p, a, b));
    }
}

} // verus!
