//! The visibility system: recomputes each dirty viewshed by field of view,
//! and for the player merges the result into the level's `visible` and
//! `revealed` masks. `revealed` is monotonic for the level's lifetime.

use vstd::prelude::*;
use crate::components::{Point, Position, Viewshed};
use crate::fov::{cell_visible, field_of_view, point_before};
use crate::map::GameMap;
use crate::map_indexing_system::positions_in_bounds;
use crate::world::World;

verus! {

/// `pts` holds exactly the cells visible from `pos` within `range` over the
/// terrain of `m`, in row-major order without duplicates.
pub open spec fn viewshed_fresh(m: GameMap, pos: Position, range: int, pts: Seq<Point>) -> bool {
    &&& forall|j: int|
        0 <= j < pts.len() ==> cell_visible(
            m.tiles@,
            m.width as int,
            m.height as int,
            pos.x as int,
            pos.y as int,
            range,
            (#[trigger] pts[j]).x as int,
            pts[j].y as int,
        )
    &&& forall|x: int, y: int|
        #[trigger] cell_visible(
            m.tiles@,
            m.width as int,
            m.height as int,
            pos.x as int,
            pos.y as int,
            range,
            x,
            y,
        ) ==> exists|j: int| 0 <= j < pts.len() && pts[j].x == x && pts[j].y == y
    &&& forall|j: int, k: int| 0 <= j < k < pts.len() ==> point_before(pts[j], pts[k])
}

/// Entity `e` is a positioned player whose viewshed needs recomputing.
pub open spec fn dirty_player(w: World, e: int) -> bool {
    &&& w.is_actor(e)
    &&& w.players@[e]
    &&& w.viewsheds@[e]->Some_0.dirty
}

/// Cell `(x, y)` is visible to entity `e` of `w` over the terrain of `m`.
pub open spec fn vis_cell(m: GameMap, w: World, e: int, x: int, y: int) -> bool {
    cell_visible(
        m.tiles@,
        m.width as int,
        m.height as int,
        w.pos_of(e).x as int,
        w.pos_of(e).y as int,
        w.viewsheds@[e]->Some_0.range as int,
        x,
        y,
    )
}

/// `pts` lists the cell `(x, y)`.
pub open spec fn pts_has(pts: Seq<Point>, x: int, y: int) -> bool {
    exists|j: int| 0 <= j < pts.len() && pts[j].x == x && pts[j].y == y
}

/// Rewrite the `visible` mask to exactly the cells of `pts`, and mark each
/// of them `revealed`; `revealed` only ever grows.
#[verifier::loop_isolation(false)]
fn apply_player_fov(map: &mut GameMap, pts: &Vec<Point>)
    requires
        old(map).wf(),
        forall|j: int|
            0 <= j < pts@.len() ==> old(map).in_grid((#[trigger] pts@[j]).x as int, pts@[j].y as int),
    ensures
        final(map).wf(),
        final(map).same_dims(*old(map)),
        final(map).tiles@ == old(map).tiles@,
        final(map).rooms@ == old(map).rooms@,
        final(map).blocked@ == old(map).blocked@,
        final(map).tile_content@ == old(map).tile_content@,
        forall|x: int, y: int|
            old(map).in_grid(x, y) ==> (final(map).visible_tiles@[old(map).idx(x, y)] <==> (
            #[trigger] pts_has(pts@, x, y))),
        forall|x: int, y: int|
            old(map).in_grid(x, y) ==> (final(map).revealed_tiles@[old(map).idx(x, y)] <==> (old(map).revealed_tiles@[old(map).idx(x, y)] || #[trigger] pts_has(pts@, x, y))),
        forall|i: int|
            0 <= i < old(map).area() ==> (old(map).revealed_tiles@[i]
                ==> final(map).revealed_tiles@[i]),
{
    let ghost gw = map.width as int;
    let ghost gh = map.height as int;
    let n = map.visible_tiles.len();
    let mut i: usize = 0;
    while i < n
        invariant
            map.wf(),
            map.same_dims(*old(map)),
            map.tiles@ == old(map).tiles@,
            map.rooms@ == old(map).rooms@,
            map.blocked@ == old(map).blocked@,
            map.tile_content@ == old(map).tile_content@,
            map.revealed_tiles@ == old(map).revealed_tiles@,
            i <= n,
            forall|q: int| 0 <= q < i ==> !map.visible_tiles@[q],
        decreases n - i,
    {
        map.visible_tiles.set(i, false);
        i = i + 1;
    }
    proof {
        assert forall|x: int, y: int| old(map).in_grid(x, y) implies !map.visible_tiles@[old(
            map,
        ).idx(x, y)] by {
            crate::map::lemma_idx_in_range(gw, gh, x, y);
        }
    }
    let m = pts.len();
    let mut j: usize = 0;
    while j < m
        invariant
            map.wf(),
            map.same_dims(*old(map)),
            map.tiles@ == old(map).tiles@,
            map.rooms@ == old(map).rooms@,
            map.blocked@ == old(map).blocked@,
            map.tile_content@ == old(map).tile_content@,
            j <= m,
            forall|x: int, y: int|
                old(map).in_grid(x, y) ==> ((#[trigger] map.visible_tiles@[old(map).idx(x, y)])
                    <==> (exists|jj: int| 0 <= jj < j && pts@[jj].x == x && pts@[jj].y == y)),
            forall|x: int, y: int|
                old(map).in_grid(x, y) ==> ((#[trigger] map.revealed_tiles@[old(map).idx(x, y)])
                    <==> (old(map).revealed_tiles@[old(map).idx(x, y)] || (exists|jj: int|
                    0 <= jj < j && pts@[jj].x == x && pts@[jj].y == y))),
            forall|i2: int|
                0 <= i2 < old(map).area() ==> (old(map).revealed_tiles@[i2]
                    ==> map.revealed_tiles@[i2]),
        decreases m - j,
    {
        let ghost pre = *map;
        let p = pts[j];
        let index = map.xy_index(p.x, p.y);
        map.visible_tiles.set(index, true);
        map.revealed_tiles.set(index, true);
        proof {
            assert forall|x: int, y: int| old(map).in_grid(x, y) implies ((
            #[trigger] map.visible_tiles@[old(map).idx(x, y)]) <==> (exists|jj: int|
                0 <= jj < j + 1 && pts@[jj].x == x && pts@[jj].y == y)) by {
                if x == p.x && y == p.y {
                    assert(map.visible_tiles@[old(map).idx(x, y)]);
                    assert(pts@[j as int].x == x && pts@[j as int].y == y);
                } else {
                    crate::map::lemma_idx_in_range(gw, gh, x, y);
                    crate::map::lemma_idx_unique(gw, gh, x, y, p.x as int, p.y as int);
                    assert(map.visible_tiles@[old(map).idx(x, y)] == pre.visible_tiles@[old(map).idx(x, y)]);
                    if exists|jj: int| 0 <= jj < j + 1 && pts@[jj].x == x && pts@[jj].y == y {
                        let jj = choose|jj: int|
                            0 <= jj < j + 1 && pts@[jj].x == x && pts@[jj].y == y;
                        assert(jj != j);
                        assert(exists|jj2: int|
                            0 <= jj2 < j && pts@[jj2].x == x && pts@[jj2].y == y);
                    }
                }
            }
            assert forall|x: int, y: int| old(map).in_grid(x, y) implies ((
            #[trigger] map.revealed_tiles@[old(map).idx(x, y)]) <==> (old(map).revealed_tiles@[old(map).idx(x, y)] || (exists|jj: int|
                0 <= jj < j + 1 && pts@[jj].x == x && pts@[jj].y == y))) by {
                if x == p.x && y == p.y {
                    assert(map.revealed_tiles@[old(map).idx(x, y)]);
                    assert(pts@[j as int].x == x && pts@[j as int].y == y);
                } else {
                    crate::map::lemma_idx_in_range(gw, gh, x, y);
                    crate::map::lemma_idx_unique(gw, gh, x, y, p.x as int, p.y as int);
                    assert(map.revealed_tiles@[old(map).idx(x, y)] == pre.revealed_tiles@[old(map).idx(x, y)]);
                    if exists|jj: int| 0 <= jj < j + 1 && pts@[jj].x == x && pts@[jj].y == y {
                        let jj = choose|jj: int|
                            0 <= jj < j + 1 && pts@[jj].x == x && pts@[jj].y == y;
                        assert(jj != j);
                        assert(exists|jj2: int|
                            0 <= jj2 < j && pts@[jj2].x == x && pts@[jj2].y == y);
                    }
                }
            }
        }
        j = j + 1;
    }
}

/// Everything one visibility pass guarantees, from the map and stores
/// `(m0, w0)` it entered with to the `(m1, w1)` it left behind: terrain,
/// index masks and every non-viewshed store untouched, every dirty
/// viewshed freshened exactly and cleaned, `revealed` grown by exactly the
/// dirty players' fresh sight, and `visible` rebuilt from the last dirty
/// player's sight or left alone when no player was dirty.
pub open spec fn vis_post(m0: GameMap, w0: World, m1: GameMap, w1: World) -> bool {
    &&& m1.wf()
    &&& m1.same_dims(m0)
    &&& m1.tiles@ == m0.tiles@
    &&& m1.rooms@ == m0.rooms@
    &&& m1.blocked@ == m0.blocked@
    &&& m1.tile_content@ == m0.tile_content@
    &&& w1.wf()
    &&& w1.n() == w0.n()
    &&& w1.positions@ == w0.positions@
    &&& w1.renderables@ == w0.renderables@
    &&& w1.players@ == w0.players@
    &&& w1.monsters@ == w0.monsters@
    &&& w1.names@ == w0.names@
    &&& w1.blockers@ == w0.blockers@
    &&& w1.combat_stats@ == w0.combat_stats@
    &&& w1.wants_to_melee@ == w0.wants_to_melee@
    &&& w1.wants_to_use_item@ == w0.wants_to_use_item@
    &&& w1.wants_to_drop_item@ == w0.wants_to_drop_item@
    &&& w1.items@ == w0.items@
    &&& w1.potions@ == w0.potions@
    &&& w1.suffer_damage@ == w0.suffer_damage@
    &&& forall|q: int|
        0 <= q < w0.n() ==> (if w0.is_actor(q) && w0.viewsheds@[q]->Some_0.dirty {
            &&& (#[trigger] w1.viewsheds@[q]) matches Some(v)
            &&& !w1.viewsheds@[q]->Some_0.dirty
            &&& w1.viewsheds@[q]->Some_0.range == w0.viewsheds@[q]->Some_0.range
            &&& viewshed_fresh(
                m1,
                w0.pos_of(q),
                w0.viewsheds@[q]->Some_0.range as int,
                w1.viewsheds@[q]->Some_0.visible_tiles@,
            )
        } else {
            w1.viewsheds@[q] == w0.viewsheds@[q]
        })
    &&& forall|i: int| 0 <= i < m0.area() ==> (m0.revealed_tiles@[i] ==> m1.revealed_tiles@[i])
    &&& forall|x: int, y: int|
        m0.in_grid(x, y) ==> ((#[trigger] m1.revealed_tiles@[m0.idx(x, y)]) <==> (
        m0.revealed_tiles@[m0.idx(x, y)] || exists|q: int|
            0 <= q < w0.n() && dirty_player(w0, q) && vis_cell(m1, w0, q, x, y)))
    &&& ((exists|q: int| 0 <= q < w0.n() && dirty_player(w0, q)) ==> (exists|q: int|
        {
            &&& 0 <= q < w0.n()
            &&& dirty_player(w0, q)
            &&& (forall|q2: int| q < q2 < w0.n() ==> !dirty_player(w0, q2))
            &&& (forall|x: int, y: int|
                m0.in_grid(x, y) ==> ((#[trigger] m1.visible_tiles@[m0.idx(x, y)]) <==> vis_cell(
                    m1,
                    w0,
                    q,
                    x,
                    y,
                )))
        }))
    &&& ((forall|q: int| 0 <= q < w0.n() ==> !dirty_player(w0, q)) ==> m1.visible_tiles@
        == m0.visible_tiles@)
}

/// Recomputes dirty viewsheds and the player's shared masks.
pub struct VisibilitySystem {}

impl VisibilitySystem {
    /// For every actor whose viewshed is dirty: recompute its visible cells
    /// by field of view and clear the flag. For a player, additionally
    /// rebuild the `visible` mask from scratch and merge into `revealed`.
    #[verifier::loop_isolation(false)]
    #[verifier::rlimit(100)]
    pub fn run(map: &mut GameMap, ecs: &mut World)
        requires
            old(map).wf(),
            old(ecs).wf(),
            positions_in_bounds(*old(ecs), *old(map)),
        ensures
            final(map).wf(),
            final(map).same_dims(*old(map)),
            final(map).tiles@ == old(map).tiles@,
            final(map).rooms@ == old(map).rooms@,
            final(map).blocked@ == old(map).blocked@,
            final(map).tile_content@ == old(map).tile_content@,
            final(ecs).wf(),
            final(ecs).n() == old(ecs).n(),
            final(ecs).positions@ == old(ecs).positions@,
            final(ecs).renderables@ == old(ecs).renderables@,
            final(ecs).players@ == old(ecs).players@,
            final(ecs).monsters@ == old(ecs).monsters@,
            final(ecs).names@ == old(ecs).names@,
            final(ecs).blockers@ == old(ecs).blockers@,
            final(ecs).combat_stats@ == old(ecs).combat_stats@,
            final(ecs).wants_to_melee@ == old(ecs).wants_to_melee@,
            final(ecs).wants_to_use_item@ == old(ecs).wants_to_use_item@,
            final(ecs).wants_to_drop_item@ == old(ecs).wants_to_drop_item@,
            final(ecs).items@ == old(ecs).items@,
            final(ecs).potions@ == old(ecs).potions@,
            final(ecs).suffer_damage@ == old(ecs).suffer_damage@,
            forall|q: int|
                0 <= q < old(ecs).n() ==> (if old(ecs).is_actor(q) && old(ecs).viewsheds@[q]->Some_0.dirty {
                    &&& (#[trigger] final(ecs).viewsheds@[q]) matches Some(v)
                    &&& !final(ecs).viewsheds@[q]->Some_0.dirty
                    &&& final(ecs).viewsheds@[q]->Some_0.range == old(ecs).viewsheds@[q]->Some_0.range
                    &&& viewshed_fresh(
                        *final(map),
                        old(ecs).pos_of(q),
                        old(ecs).viewsheds@[q]->Some_0.range as int,
                        final(ecs).viewsheds@[q]->Some_0.visible_tiles@,
                    )
                } else {
                    final(ecs).viewsheds@[q] == old(ecs).viewsheds@[q]
                }),
            forall|i: int|
                0 <= i < old(map).area() ==> (old(map).revealed_tiles@[i]
                    ==> final(map).revealed_tiles@[i]),
            forall|x: int, y: int|
                old(map).in_grid(x, y) ==> ((#[trigger] final(map).revealed_tiles@[old(map).idx(
                    x,
                    y,
                )]) <==> (old(map).revealed_tiles@[old(map).idx(x, y)] || exists|q: int|
                    0 <= q < old(ecs).n() && dirty_player(*old(ecs), q) && vis_cell(
                        *final(map),
                        *old(ecs),
                        q,
                        x,
                        y,
                    ))),
            (exists|q: int| 0 <= q < old(ecs).n() && dirty_player(*old(ecs), q)) ==> (exists|
                q: int,
            |
                {
                    &&& 0 <= q < old(ecs).n()
                    &&& dirty_player(*old(ecs), q)
                    &&& (forall|q2: int|
                        q < q2 < old(ecs).n() ==> !dirty_player(*old(ecs), q2))
                    &&& (forall|x: int, y: int|
                        old(map).in_grid(x, y) ==> ((#[trigger] final(map).visible_tiles@[old(map).idx(x, y)]) <==> vis_cell(*final(map), *old(ecs), q, x, y)))
                }),
            (forall|q: int| 0 <= q < old(ecs).n() ==> !dirty_player(*old(ecs), q)) ==> final(map).visible_tiles@ == old(map).visible_tiles@,
            vis_post(*old(map), *old(ecs), *final(map), *final(ecs)),
    {
        let n = ecs.viewsheds.len();
        let mut e: usize = 0;
        while e < n
            invariant
                map.wf(),
                map.same_dims(*old(map)),
                map.tiles@ == old(map).tiles@,
                map.rooms@ == old(map).rooms@,
                map.blocked@ == old(map).blocked@,
                map.tile_content@ == old(map).tile_content@,
                ecs.wf(),
                ecs.n() == old(ecs).n(),
                n == old(ecs).n(),
                e <= n,
                ecs.positions@ == old(ecs).positions@,
                ecs.renderables@ == old(ecs).renderables@,
                ecs.players@ == old(ecs).players@,
                ecs.monsters@ == old(ecs).monsters@,
                ecs.names@ == old(ecs).names@,
                ecs.blockers@ == old(ecs).blockers@,
                ecs.combat_stats@ == old(ecs).combat_stats@,
                ecs.wants_to_melee@ == old(ecs).wants_to_melee@,
                ecs.wants_to_use_item@ == old(ecs).wants_to_use_item@,
                ecs.wants_to_drop_item@ == old(ecs).wants_to_drop_item@,
                ecs.items@ == old(ecs).items@,
                ecs.potions@ == old(ecs).potions@,
                ecs.suffer_damage@ == old(ecs).suffer_damage@,
                forall|q: int|
                    e <= q < n ==> (#[trigger] ecs.viewsheds@[q]) == old(ecs).viewsheds@[q],
                forall|q: int|
                    0 <= q < e ==> (if old(ecs).is_actor(q) && old(ecs).viewsheds@[q]->Some_0.dirty {
                        &&& (#[trigger] ecs.viewsheds@[q]) matches Some(v)
                        &&& !ecs.viewsheds@[q]->Some_0.dirty
                        &&& ecs.viewsheds@[q]->Some_0.range == old(ecs).viewsheds@[q]->Some_0.range
                        &&& viewshed_fresh(
                            *map,
                            old(ecs).pos_of(q),
                            old(ecs).viewsheds@[q]->Some_0.range as int,
                            ecs.viewsheds@[q]->Some_0.visible_tiles@,
                        )
                    } else {
                        (#[trigger] ecs.viewsheds@[q]) == old(ecs).viewsheds@[q]
                    }),
                forall|i: int|
                    0 <= i < old(map).area() ==> (old(map).revealed_tiles@[i]
                        ==> map.revealed_tiles@[i]),
                forall|x: int, y: int|
                    old(map).in_grid(x, y) ==> ((#[trigger] map.revealed_tiles@[old(map).idx(x, y)])
                        <==> (old(map).revealed_tiles@[old(map).idx(x, y)] || exists|q: int|
                        0 <= q < e && dirty_player(*old(ecs), q) && vis_cell(
                            *map,
                            *old(ecs),
                            q,
                            x,
                            y,
                        ))),
                (exists|q: int| 0 <= q < e && dirty_player(*old(ecs), q)) ==> (exists|q: int|
                    {
                        &&& 0 <= q < e
                        &&& dirty_player(*old(ecs), q)
                        &&& (forall|q2: int| q < q2 < e ==> !dirty_player(*old(ecs), q2))
                        &&& (forall|x: int, y: int|
                            old(map).in_grid(x, y) ==> ((#[trigger] map.visible_tiles@[old(map).idx(
                                x,
                                y,
                            )]) <==> vis_cell(*map, *old(ecs), q, x, y)))
                    }),
                (forall|q: int| 0 <= q < e ==> !dirty_player(*old(ecs), q)) ==> map.visible_tiles@
                    == old(map).visible_tiles@,
            decreases n - e,
        {
            let pos_opt = ecs.positions[e];
            let (has_vs, vs_dirty, vs_range) = match &ecs.viewsheds[e] {
                Some(v) => (true, v.dirty, v.range),
                None => (false, false, 0i32),
            };
            let ghost pre_map = *map;
            let ghost pre_ecs = *ecs;
            match pos_opt {
                Some(p) if has_vs && vs_dirty => {
                    proof {
                        assert(ecs.has_position(e as int));
                        assert(old(ecs).is_actor(e as int));
                        assert(old(ecs).pos_of(e as int) == p);
                        assert(old(ecs).viewsheds@[e as int]->Some_0.dirty);
                        assert(old(ecs).viewsheds@[e as int]->Some_0.range == vs_range);
                    }
                    let pts = field_of_view(map, p.x, p.y, vs_range);
                    proof {
                        assert(viewshed_fresh(*map, p, vs_range as int, pts@));
                    }
                    let is_player = ecs.players[e];
                    if is_player {
                        proof {
                            assert(dirty_player(*old(ecs), e as int));
                            assert forall|j: int| 0 <= j < pts@.len() implies map.in_grid(
                                (#[trigger] pts@[j]).x as int,
                                pts@[j].y as int,
                            ) by {}
                        }
                        apply_player_fov(map, &pts);
                        proof {
                            assert forall|x: int, y: int| old(map).in_grid(x, y) implies ((
                            #[trigger] map.visible_tiles@[old(map).idx(x, y)]) <==> vis_cell(
                                *map,
                                *old(ecs),
                                e as int,
                                x,
                                y,
                            )) by {
                                if pts_has(pts@, x, y) {
                                    let jj = choose|jj: int|
                                        0 <= jj < pts@.len() && pts@[jj].x == x && pts@[jj].y == y;
                                    assert(cell_visible(
                                        map.tiles@,
                                        map.width as int,
                                        map.height as int,
                                        p.x as int,
                                        p.y as int,
                                        vs_range as int,
                                        x,
                                        y,
                                    ));
                                }
                            }
                        }
                    }
                    ecs.viewsheds.set(
                        e,
                        Some(Viewshed { visible_tiles: pts, range: vs_range, dirty: false }),
                    );
                    proof {
                        if !is_player {
                            assert(!dirty_player(*old(ecs), e as int));
                            assert forall|x: int, y: int| old(map).in_grid(x, y) implies ((
                            #[trigger] map.revealed_tiles@[old(map).idx(x, y)]) <==> (old(map).revealed_tiles@[old(map).idx(x, y)] || exists|q: int|
                                0 <= q < e + 1 && dirty_player(*old(ecs), q) && vis_cell(
                                    *map,
                                    *old(ecs),
                                    q,
                                    x,
                                    y,
                                ))) by {
                                if exists|q: int|
                                    0 <= q < e + 1 && dirty_player(*old(ecs), q) && vis_cell(
                                        *map,
                                        *old(ecs),
                                        q,
                                        x,
                                        y,
                                    ) {
                                    let q = choose|q: int|
                                        0 <= q < e + 1 && dirty_player(*old(ecs), q) && vis_cell(
                                            *map,
                                            *old(ecs),
                                            q,
                                            x,
                                            y,
                                        );
                                    assert(q != e);
                                }
                            }
                        } else {
                            assert forall|x: int, y: int| old(map).in_grid(x, y) implies ((
                            #[trigger] map.revealed_tiles@[old(map).idx(x, y)]) <==> (old(map).revealed_tiles@[old(map).idx(x, y)] || exists|q: int|
                                0 <= q < e + 1 && dirty_player(*old(ecs), q) && vis_cell(
                                    *map,
                                    *old(ecs),
                                    q,
                                    x,
                                    y,
                                ))) by {
                                let ph = pts_has(pts@, x, y);
                                if map.revealed_tiles@[old(map).idx(x, y)] {
                                    if !pre_map.revealed_tiles@[old(map).idx(x, y)] {
                                        assert(pts_has(pts@, x, y));
                                        assert(vis_cell(*map, *old(ecs), e as int, x, y));
                                    } else {
                                        if !old(map).revealed_tiles@[old(map).idx(x, y)] {
                                            let q = choose|q: int|
                                                0 <= q < e && dirty_player(*old(ecs), q)
                                                    && vis_cell(pre_map, *old(ecs), q, x, y);
                                            assert(0 <= q < e + 1 && dirty_player(*old(ecs), q)
                                                && vis_cell(*map, *old(ecs), q, x, y));
                                        }
                                    }
                                } else {
                                    assert(!pre_map.revealed_tiles@[old(map).idx(x, y)]);
                                    if exists|q: int|
                                        0 <= q < e + 1 && dirty_player(*old(ecs), q) && vis_cell(
                                            *map,
                                            *old(ecs),
                                            q,
                                            x,
                                            y,
                                        ) {
                                        let q = choose|q: int|
                                            0 <= q < e + 1 && dirty_player(*old(ecs), q)
                                                && vis_cell(*map, *old(ecs), q, x, y);
                                        if q == e {
                                            assert(pts_has(pts@, x, y));
                                            assert(map.revealed_tiles@[old(map).idx(x, y)]);
                                        } else {
                                            assert(pre_map.revealed_tiles@[old(map).idx(x, y)]);
                                        }
                                    }
                                }
                            }
                        }
                    }
                }
                _ => {
                    proof {
                        assert(!(old(ecs).is_actor(e as int) && old(ecs).viewsheds@[e as int]->Some_0.dirty));
                        assert(!dirty_player(*old(ecs), e as int));
                        assert forall|x: int, y: int| old(map).in_grid(x, y) implies ((
                        #[trigger] map.revealed_tiles@[old(map).idx(x, y)]) <==> (old(map).revealed_tiles@[old(map).idx(x, y)] || exists|q: int|
                            0 <= q < e + 1 && dirty_player(*old(ecs), q) && vis_cell(
                                *map,
                                *old(ecs),
                                q,
                                x,
                                y,
                            ))) by {
                            if exists|q: int|
                                0 <= q < e + 1 && dirty_player(*old(ecs), q) && vis_cell(
                                    *map,
                                    *old(ecs),
                                    q,
                                    x,
                                    y,
                                ) {
                                let q = choose|q: int|
                                    0 <= q < e + 1 && dirty_player(*old(ecs), q) && vis_cell(
                                        *map,
                                        *old(ecs),
                                        q,
                                        x,
                                        y,
                                    );
                                assert(q != e);
                            }
                        }
                    }
                }
            }
            e = e + 1;
        }
    }
}

} // verus!
