//! The spatial index: once per simulation step, rebuilds the blocked-cell
//! mask and the per-cell occupant lists from the terrain and the current
//! entity positions.

use vstd::prelude::*;
use crate::map::GameMap;
use crate::world::{Entity, World};

verus! {

/// Every positioned entity stands inside the grid. The simulation keeps
/// this invariant: movement is bounds-checked before any position changes.
pub open spec fn positions_in_bounds(w: World, m: GameMap) -> bool {
    forall|e: int|
        #[trigger] w.has_position(e) ==> m.in_grid(w.pos_of(e).x as int, w.pos_of(e).y as int)
}

/// Entity `e` has a position on the cell with row-major index `i`.
pub open spec fn occupies(w: World, width: int, e: int, i: int) -> bool {
    w.has_position(e) && w.pos_of(e).y * width + w.pos_of(e).x == i
}

/// The occupants of cell `i` among entities `0..n`, in entity order.
pub open spec fn content_at(w: World, width: int, n: int, i: int) -> Seq<Entity>
    decreases n,
{
    if n <= 0 {
        Seq::empty()
    } else {
        content_at(w, width, n - 1, i) + (if occupies(w, width, n - 1, i) {
            seq![Entity((n - 1) as usize)]
        } else {
            Seq::empty()
        })
    }
}

/// The map's derived state is exactly what the entities' positions dictate:
/// a cell is blocked iff it is a wall or a blocking entity stands there, and
/// each cell lists its occupants in entity order.
pub open spec fn spatially_indexed(m: GameMap, w: World) -> bool {
    &&& forall|i: int|
        0 <= i < m.area() ==> ((#[trigger] m.blocked@[i]) <==> (m.tiles@[i] is Wall || exists|
            e: int,
        |
            0 <= e < w.n() && occupies(w, m.width as int, e, i) && w.blockers@[e]))
    &&& forall|i: int|
        0 <= i < m.area() ==> (#[trigger] m.tile_content@[i]@) == content_at(
            w,
            m.width as int,
            w.n(),
            i,
        )
}

/// Everything one spatial-index rebuild guarantees, from map `m0` to map
/// `m1`, over the stores `w` it read: terrain, rooms and the sight masks
/// untouched, and the derived state exactly what the positions dictate.
pub open spec fn index_post(m0: GameMap, w: World, m1: GameMap) -> bool {
    &&& m1.wf()
    &&& m1.same_dims(m0)
    &&& m1.tiles@ == m0.tiles@
    &&& m1.rooms@ == m0.rooms@
    &&& m1.revealed_tiles@ == m0.revealed_tiles@
    &&& m1.visible_tiles@ == m0.visible_tiles@
    &&& spatially_indexed(m1, w)
}

/// Rebuilds `blocked` and `tile_content` wholesale.
pub struct MapIndexingSystem {}

impl MapIndexingSystem {
    /// Reset `blocked` from the terrain alone, clear every occupant list,
    /// then walk the entities: each positioned entity is appended to its
    /// cell's list, and blocks its cell if it carries the blocking marker.
    #[verifier::loop_isolation(false)]
    pub fn run(map: &mut GameMap, ecs: &World)
        requires
            old(map).wf(),
            ecs.wf(),
            positions_in_bounds(*ecs, *old(map)),
        ensures
            final(map).wf(),
            final(map).same_dims(*old(map)),
            final(map).tiles@ == old(map).tiles@,
            final(map).rooms@ == old(map).rooms@,
            final(map).revealed_tiles@ == old(map).revealed_tiles@,
            final(map).visible_tiles@ == old(map).visible_tiles@,
            spatially_indexed(*final(map), *ecs),
            index_post(*old(map), *ecs, *final(map)),
    {
        let ghost gw = map.width as int;
        map.populate_blocked();
        map.clear_content_index();
        let n = ecs.positions.len();
        let mut e: usize = 0;
        while e < n
            invariant
                map.wf(),
                map.same_dims(*old(map)),
                gw == map.width as int,
                map.tiles@ == old(map).tiles@,
                map.rooms@ == old(map).rooms@,
                map.revealed_tiles@ == old(map).revealed_tiles@,
                map.visible_tiles@ == old(map).visible_tiles@,
                e <= n,
                forall|i: int|
                    0 <= i < map.area() ==> ((#[trigger] map.blocked@[i]) <==> (
                    map.tiles@[i] is Wall || exists|q: int|
                        0 <= q < e && occupies(*ecs, gw, q, i) && ecs.blockers@[q])),
                forall|i: int|
                    0 <= i < map.area() ==> (#[trigger] map.tile_content@[i]@) == content_at(
                        *ecs,
                        gw,
                        e as int,
                        i,
                    ),
            decreases n - e,
        {
            let ghost pre = *map;
            let slot = ecs.positions[e];
            match slot {
                Some(p) => {
                    proof {
                        assert(ecs.has_position(e as int));
                        assert(ecs.pos_of(e as int) == p);
                    }
                    let index = map.xy_index(p.x, p.y);
                    assert(occupies(*ecs, gw, e as int, index as int));
                    if ecs.blockers[e] {
                        map.blocked.set(index, true);
                    }
                    map.tile_content[index].push(Entity(e));
                    proof {
                        assert forall|i: int| 0 <= i < map.area() implies ((
                        #[trigger] map.blocked@[i]) <==> (map.tiles@[i] is Wall || exists|q: int|
                            0 <= q < e + 1 && occupies(*ecs, gw, q, i) && ecs.blockers@[q])) by {
                            if map.blocked@[i] {
                                if !pre.blocked@[i] {
                                    assert(i == index && ecs.blockers@[e as int]);
                                    assert(occupies(*ecs, gw, e as int, i) && ecs.blockers@[
                                    e as int]);
                                } else {
                                    if !(pre.tiles@[i] is Wall) {
                                        let q = choose|q: int|
                                            0 <= q < e && occupies(*ecs, gw, q, i)
                                                && ecs.blockers@[q];
                                        assert(0 <= q < e + 1 && occupies(*ecs, gw, q, i)
                                            && ecs.blockers@[q]);
                                    }
                                }
                            } else {
                                assert(!pre.blocked@[i]);
                                if exists|q: int|
                                    0 <= q < e + 1 && occupies(*ecs, gw, q, i) && ecs.blockers@[q] {
                                    let q = choose|q: int|
                                        0 <= q < e + 1 && occupies(*ecs, gw, q, i)
                                            && ecs.blockers@[q];
                                    assert(q == e);
                                    assert(i == index);
                                    assert(map.blocked@[i]);
                                }
                            }
                        }
                        assert forall|i: int| 0 <= i < map.area() implies (
                        #[trigger] map.tile_content@[i]@) == content_at(
                            *ecs,
                            gw,
                            e as int + 1,
                            i,
                        ) by {
                            if i == index {
                                assert(map.tile_content@[i]@ == pre.tile_content@[i]@.push(
                                    Entity(e),
                                ));
                                assert(content_at(*ecs, gw, e as int + 1, i) == content_at(
                                    *ecs,
                                    gw,
                                    e as int,
                                    i,
                                ) + seq![Entity(e)]);
                                assert(map.tile_content@[i]@ =~= content_at(
                                    *ecs,
                                    gw,
                                    e as int + 1,
                                    i,
                                ));
                            } else {
                                assert(!occupies(*ecs, gw, e as int, i));
                                assert(content_at(*ecs, gw, e as int + 1, i) =~= content_at(
                                    *ecs,
                                    gw,
                                    e as int,
                                    i,
                                ));
                            }
                        }
                    }
                }
                None => {
                    proof {
                        assert forall|i: int| 0 <= i < map.area() implies (
                        #[trigger] map.tile_content@[i]@) == content_at(
                            *ecs,
                            gw,
                            e as int + 1,
                            i,
                        ) by {
                            assert(!occupies(*ecs, gw, e as int, i));
                            assert(content_at(*ecs, gw, e as int + 1, i) =~= content_at(
                                *ecs,
                                gw,
                                e as int,
                                i,
                            ));
                        }
                        assert forall|i: int| 0 <= i < map.area() implies ((
                        #[trigger] map.blocked@[i]) <==> (map.tiles@[i] is Wall || exists|q: int|
                            0 <= q < e + 1 && occupies(*ecs, gw, q, i) && ecs.blockers@[q])) by {
                            if exists|q: int|
                                0 <= q < e + 1 && occupies(*ecs, gw, q, i) && ecs.blockers@[q] {
                                let q = choose|q: int|
                                    0 <= q < e + 1 && occupies(*ecs, gw, q, i) && ecs.blockers@[q];
                                assert(q != e);
                                assert(0 <= q < e && occupies(*ecs, gw, q, i) && ecs.blockers@[q]);
                            }
                        }
                    }
                }
            }
            e = e + 1;
        }
    }
}

/// Reindexing is idempotent within a step: the rebuilt `blocked` mask and
/// occupant lists are functions of the terrain and entity positions alone,
/// so indexing twice with unchanged input gives identical results.
pub proof fn lemma_reindex_idempotent(m1: GameMap, m2: GameMap, w: World)
    requires
        m1.wf(),
        m2.wf(),
        m1.same_dims(m2),
        m1.tiles@ == m2.tiles@,
        spatially_indexed(m1, w),
        spatially_indexed(m2, w),
    ensures
        m1.blocked@ == m2.blocked@,
        forall|i: int| 0 <= i < m1.area() ==> m1.tile_content@[i]@ == m2.tile_content@[i]@,
{
    assert forall|i: int| 0 <= i < m1.area() implies m1.blocked@[i] == m2.blocked@[i] by {
        assert(m1.blocked@[i] <==> (m1.tiles@[i] is Wall || exists|e: int|
            0 <= e < w.n() && occupies(w, m1.width as int, e, i) && w.blockers@[e]));
        assert(m2.blocked@[i] <==> (m2.tiles@[i] is Wall || exists|e: int|
            0 <= e < w.n() && occupies(w, m2.width as int, e, i) && w.blockers@[e]));
    }
    assert(m1.blocked@ =~= m2.blocked@);
    assert forall|i: int| 0 <= i < m1.area() implies m1.tile_content@[i]@ == m2.tile_content@[i]@
    by {
        assert(m1.tile_content@[i]@ == content_at(w, m1.width as int, w.n(), i));
        assert(m2.tile_content@[i]@ == content_at(w, m2.width as int, w.n(), i));
    }
}

} // verus!
