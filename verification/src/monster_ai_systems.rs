//! The hostile-actor AI: during the monster turn, each hostile actor
//! adjacent to the player queues a melee intent; one that can see the
//! player's cell paths toward it over the blocked bitmap and takes one step;
//! any other hostile actor idles.

use vstd::prelude::*;
use crate::components::{Point, Position, WantsToMelee};
use crate::map::GameMap;
use crate::map_indexing_system::positions_in_bounds;
use crate::pathfinding::{find_path, is_route, kings_step, lemma_reachable_same, path_view, reachable};
use crate::scheduler::RunState;
use crate::world::{Entity, World};

verus! {

/// Entity `e` is a hostile actor: it has the hostile marker, a position and
/// a viewshed.
pub open spec fn monster_actor(w: World, e: int) -> bool {
    w.is_actor(e) && w.monsters@[e]
}

/// Squared Euclidean distance between an actor's cell and a tracked cell.
pub open spec fn dist2(a: Position, b: Point) -> int {
    (a.x - b.x) * (a.x - b.x) + (a.y - b.y) * (a.y - b.y)
}

/// Entity `e`'s last recomputed viewshed lists the cell `p`.
pub open spec fn sees(w: World, e: int, p: Point) -> bool {
    w.viewsheds@[e]->Some_0.visible_tiles@.contains(p)
}

/// Whether `pts` lists the cell `(x, y)`.
fn points_contain(pts: &Vec<Point>, x: i32, y: i32) -> (r: bool)
    ensures
        r == pts@.contains(Point { x, y }),
{
    let n = pts.len();
    let mut j: usize = 0;
    while j < n
        invariant
            j <= n,
            n == pts@.len(),
            forall|k: int| 0 <= k < j ==> pts@[k] != (Point { x, y }),
        decreases n - j,
    {
        let p = pts[j];
        if p.x == x && p.y == y {
            assert(pts@[j as int] == (Point { x, y }));
            return true;
        }
        j = j + 1;
    }
    assert(forall|k: int| 0 <= k < pts@.len() ==> pts@[k] != (Point { x, y }));
    false
}

/// What a hostile actor's movement may be, relative to the state just
/// before its step: either it stands still and the blocked mask is
/// untouched, or it steps onto the second cell of a route found from its
/// cell to the player's over the blocked bitmap — an in-bounds, unblocked
/// 8-neighbor cell — moving its blocked flag from the old cell to the new
/// one and marking its viewshed dirty.
pub open spec fn chase_move(
    pre_ecs: World,
    pre_map: GameMap,
    ecs: World,
    map: GameMap,
    e: int,
    player_pos: Point,
) -> bool {
    let sp = pre_ecs.pos_of(e);
    ||| (ecs.positions@[e] == pre_ecs.positions@[e] && map.blocked@ == pre_map.blocked@)
    ||| (ecs.positions@[e] matches Some(np) && kings_step(
        (sp.x as int, sp.y as int),
        (np.x as int, np.y as int),
    ) && 1 <= np.x as int <= map.width - 1 && 1 <= np.y as int <= map.height - 1
        && !pre_map.blocked@[pre_map.idx(np.x as int, np.y as int)] && (exists|p: Seq<(int, int)>|
        is_route(pre_map, p, (sp.x as int, sp.y as int), (player_pos.x as int, player_pos.y as int))
            && p.len() >= 2 && p[1] == (np.x as int, np.y as int)) && map.blocked@
        == pre_map.blocked@.update(pre_map.idx(sp.x as int, sp.y as int), false).update(
        pre_map.idx(np.x as int, np.y as int),
        true,
    ) && ecs.viewsheds@[e] is Some && ecs.viewsheds@[e]->Some_0.dirty)
}

/// One hostile actor's decision: melee the player when within reach,
/// otherwise chase one step along a found route, otherwise idle.
#[verifier::loop_isolation(false)]
#[verifier::rlimit(100)]
fn monster_step(
    map: &mut GameMap,
    ecs: &mut World,
    e: usize,
    player_pos: Point,
    player_entity: Entity,
)
    requires
        old(map).wf(),
        old(ecs).wf(),
        positions_in_bounds(*old(ecs), *old(map)),
        old(map).in_grid(player_pos.x as int, player_pos.y as int),
        monster_actor(*old(ecs), e as int),
    ensures
        final(map).wf(),
        final(map).same_dims(*old(map)),
        final(map).tiles@ == old(map).tiles@,
        final(map).rooms@ == old(map).rooms@,
        final(map).revealed_tiles@ == old(map).revealed_tiles@,
        final(map).visible_tiles@ == old(map).visible_tiles@,
        final(map).tile_content@ == old(map).tile_content@,
        final(ecs).wf(),
        final(ecs).n() == old(ecs).n(),
        final(ecs).renderables@ == old(ecs).renderables@,
        final(ecs).players@ == old(ecs).players@,
        final(ecs).monsters@ == old(ecs).monsters@,
        final(ecs).names@ == old(ecs).names@,
        final(ecs).blockers@ == old(ecs).blockers@,
        final(ecs).combat_stats@ == old(ecs).combat_stats@,
        final(ecs).wants_to_use_item@ == old(ecs).wants_to_use_item@,
        final(ecs).wants_to_drop_item@ == old(ecs).wants_to_drop_item@,
        final(ecs).items@ == old(ecs).items@,
        final(ecs).potions@ == old(ecs).potions@,
        final(ecs).suffer_damage@ == old(ecs).suffer_damage@,
        positions_in_bounds(*final(ecs), *final(map)),
        forall|q: int|
            0 <= q < old(ecs).n() && q != e ==> ((#[trigger] final(ecs).positions@[q]) == old(ecs).positions@[q] && final(ecs).viewsheds@[q] == old(ecs).viewsheds@[q] && final(ecs).wants_to_melee@[q] == old(ecs).wants_to_melee@[q]),
        dist2(old(ecs).pos_of(e as int), player_pos) <= 2 ==> (final(ecs).wants_to_melee@[e as int]
            == Some(WantsToMelee { target: player_entity }) && final(ecs).positions@[e as int]
            == old(ecs).positions@[e as int] && final(ecs).viewsheds@[e as int] == old(ecs).viewsheds@[e as int] && final(map).blocked@ == old(map).blocked@),
        dist2(old(ecs).pos_of(e as int), player_pos) > 2 ==> final(ecs).wants_to_melee@[e as int]
            == old(ecs).wants_to_melee@[e as int],
        chase_move(*old(ecs), *old(map), *final(ecs), *final(map), e as int, player_pos),
        dist2(old(ecs).pos_of(e as int), player_pos) > 2 ==> ({
            let sp = old(ecs).pos_of(e as int);
            if sees(*old(ecs), e as int, player_pos) && reachable(
                *old(map),
                (sp.x as int, sp.y as int),
                (player_pos.x as int, player_pos.y as int),
            ) {
                final(ecs).positions@[e as int] != old(ecs).positions@[e as int]
            } else {
                final(ecs).positions@[e as int] == old(ecs).positions@[e as int] && final(ecs).viewsheds@[e as int] == old(ecs).viewsheds@[e as int]
            }
        }),
{
    let pos_opt = ecs.positions[e];
    let p = match pos_opt {
        Some(p) => p,
        None => {
            proof {
                assert(false);
            }
            Point { x: 0, y: 0 };
            return ;
        }
    };
    proof {
        assert(ecs.has_position(e as int));
        assert(old(ecs).pos_of(e as int) == p);
    }
    let ddx = p.x as i64 - player_pos.x as i64;
    let ddy = p.y as i64 - player_pos.y as i64;
    proof {
        assert(0 <= ddx * ddx <= 0x1000000 && 0 <= ddy * ddy <= 0x1000000) by (nonlinear_arith)
            requires -4096 <= ddx <= 4096, -4096 <= ddy <= 4096,
        {}
    }
    let d2 = ddx * ddx + ddy * ddy;
    if d2 <= 2 {
        ecs.wants_to_melee.set(e, Some(WantsToMelee { target: player_entity }));
        proof {
            assert forall|q: int| #[trigger] ecs.has_position(q) implies map.in_grid(
                ecs.pos_of(q).x as int,
                ecs.pos_of(q).y as int,
            ) by {
                assert(old(ecs).has_position(q));
            }
        }
        return ;
    }
    let sees_player = match &ecs.viewsheds[e] {
        Some(v) => points_contain(&v.visible_tiles, player_pos.x, player_pos.y),
        None => false,
    };
    proof {
        assert(sees_player == sees(*old(ecs), e as int, player_pos));
    }
    if !sees_player {
        return ;
    }
    let r = find_path(map, p.x, p.y, player_pos.x, player_pos.y);
    match r {
        Some(path) => {
            proof {
                assert(is_route(
                    *map,
                    path_view(path@),
                    (p.x as int, p.y as int),
                    (player_pos.x as int, player_pos.y as int),
                ));
                assert(p.x != player_pos.x || p.y != player_pos.y) by {
                    if p.x == player_pos.x && p.y == player_pos.y {
                        assert(ddx == 0 && ddy == 0);
                        assert(ddx * ddx == 0 && ddy * ddy == 0) by (nonlinear_arith)
                            requires ddx == 0, ddy == 0,
                        {}
                        assert(d2 == 0);
                    }
                }
                assert((p.x as int, p.y as int) != (player_pos.x as int, player_pos.y as int));
                assert(path_view(path@).len() >= 2);
                assert(path@.len() >= 2);
            }
            if path.len() > 1 {
                let step = path[1];
                let ghost route = path_view(path@);
                proof {
                    assert(route[1] == (step.x as int, step.y as int));
                    assert(crate::pathfinding::exit_ok(*map, step.x as int, step.y as int));
                    assert(kings_step(route[0], route[1]));
                    assert(route[0] == (p.x as int, p.y as int));
                    assert(is_route(
                        *old(map),
                        route,
                        (p.x as int, p.y as int),
                        (player_pos.x as int, player_pos.y as int),
                    ));
                    assert(!old(map).blocked@[old(map).idx(step.x as int, step.y as int)]);
                }
                let oldi = map.xy_index(p.x, p.y);
                map.blocked.set(oldi, false);
                ecs.move_entity(Entity(e), step.x, step.y);
                let newi = map.xy_index(step.x, step.y);
                map.blocked.set(newi, true);
                proof {
                    assert forall|q: int| #[trigger] ecs.has_position(q) implies map.in_grid(
                        ecs.pos_of(q).x as int,
                        ecs.pos_of(q).y as int,
                    ) by {
                        if q != e {
                            assert(ecs.positions@[q] == old(ecs).positions@[q]);
                            assert(old(ecs).has_position(q));
                        } else {
                            assert(ecs.pos_of(q) == (Position { x: step.x, y: step.y }));
                            assert(1 <= step.x as int <= map.width - 1);
                            assert(1 <= step.y as int <= map.height - 1);
                        }
                    }
                    assert(ecs.positions@[e as int] != old(ecs).positions@[e as int]) by {
                        assert(ecs.positions@[e as int] == Some(
                            Position { x: step.x, y: step.y },
                        ));
                        assert((step.x as int, step.y as int) != (p.x as int, p.y as int));
                    }
                    assert(map.blocked@ == old(map).blocked@.update(
                        old(map).idx(p.x as int, p.y as int),
                        false,
                    ).update(old(map).idx(step.x as int, step.y as int), true));
                    assert(is_route(
                        *old(map),
                        route,
                        (p.x as int, p.y as int),
                        (player_pos.x as int, player_pos.y as int),
                    ) && route.len() >= 2 && route[1] == (step.x as int, step.y as int));
                    assert(chase_move(
                        *old(ecs),
                        *old(map),
                        *ecs,
                        *map,
                        e as int,
                        player_pos,
                    ));
                }
            }
        }
        None => {},
    }
}

/// The AI loop's invariant over the entity stores after the first `e`
/// entities were processed, relative to the states at entry.
pub open spec fn ai_inv(
    o_ecs: World,
    o_map: GameMap,
    ecs: World,
    map: GameMap,
    e: int,
    player_pos: Point,
    player_entity: Entity,
) -> bool {
    &&& forall|q: int|
        e <= q < o_ecs.n() ==> ((#[trigger] ecs.positions@[q]) == o_ecs.positions@[q]
            && ecs.viewsheds@[q] == o_ecs.viewsheds@[q] && ecs.wants_to_melee@[q]
            == o_ecs.wants_to_melee@[q])
    &&& forall|q: int|
        0 <= q < e && !monster_actor(o_ecs, q) ==> ((#[trigger] ecs.positions@[q])
            == o_ecs.positions@[q] && ecs.viewsheds@[q] == o_ecs.viewsheds@[q]
            && ecs.wants_to_melee@[q] == o_ecs.wants_to_melee@[q])
    &&& ((forall|q: int| 0 <= q < e ==> !monster_actor(o_ecs, q)) ==> map.blocked@
        == o_map.blocked@)
    &&& forall|q: int|
        0 <= q < e && (#[trigger] monster_actor(o_ecs, q)) && dist2(o_ecs.pos_of(q), player_pos)
            <= 2 ==> (ecs.wants_to_melee@[q] == Some(WantsToMelee { target: player_entity })
            && ecs.positions@[q] == o_ecs.positions@[q] && ecs.viewsheds@[q]
            == o_ecs.viewsheds@[q])
    &&& forall|q: int|
        0 <= q < e && (#[trigger] monster_actor(o_ecs, q)) && dist2(o_ecs.pos_of(q), player_pos)
            > 2 ==> ecs.wants_to_melee@[q] == o_ecs.wants_to_melee@[q]
    &&& forall|q: int|
        0 <= q < e && (#[trigger] monster_actor(o_ecs, q)) ==> (ecs.positions@[q]
            == o_ecs.positions@[q] || (ecs.positions@[q] matches Some(np) && kings_step(
            (o_ecs.pos_of(q).x as int, o_ecs.pos_of(q).y as int),
            (np.x as int, np.y as int),
        ) && 1 <= np.x as int <= map.width - 1 && 1 <= np.y as int <= map.height - 1
            && ecs.viewsheds@[q] is Some && ecs.viewsheds@[q]->Some_0.dirty))
    &&& forall|q: int|
        0 <= q < e && (#[trigger] monster_actor(o_ecs, q)) && (forall|q2: int|
            0 <= q2 < q ==> !monster_actor(o_ecs, q2)) && dist2(o_ecs.pos_of(q), player_pos)
            > 2 ==> ({
            let sp = o_ecs.pos_of(q);
            if sees(o_ecs, q, player_pos) && reachable(
                o_map,
                (sp.x as int, sp.y as int),
                (player_pos.x as int, player_pos.y as int),
            ) {
                ecs.positions@[q] != o_ecs.positions@[q]
            } else {
                ecs.positions@[q] == o_ecs.positions@[q] && ecs.viewsheds@[q]
                    == o_ecs.viewsheds@[q]
            }
        })
}

/// What one hostile actor's step changes, relative to the states just
/// before it.
pub open spec fn ai_step_post(
    pre_ecs: World,
    pre_map: GameMap,
    ecs: World,
    map: GameMap,
    e: int,
    player_pos: Point,
    player_entity: Entity,
) -> bool {
    &&& forall|q: int|
        0 <= q < pre_ecs.n() && q != e ==> ((#[trigger] ecs.positions@[q])
            == pre_ecs.positions@[q] && ecs.viewsheds@[q] == pre_ecs.viewsheds@[q]
            && ecs.wants_to_melee@[q] == pre_ecs.wants_to_melee@[q])
    &&& (dist2(pre_ecs.pos_of(e), player_pos) <= 2 ==> (ecs.wants_to_melee@[e] == Some(
        WantsToMelee { target: player_entity },
    ) && ecs.positions@[e] == pre_ecs.positions@[e] && ecs.viewsheds@[e] == pre_ecs.viewsheds@[e]
        && map.blocked@ == pre_map.blocked@))
    &&& (dist2(pre_ecs.pos_of(e), player_pos) > 2 ==> ecs.wants_to_melee@[e]
        == pre_ecs.wants_to_melee@[e])
    &&& chase_move(pre_ecs, pre_map, ecs, map, e, player_pos)
    &&& (dist2(pre_ecs.pos_of(e), player_pos) > 2 ==> ({
        let sp = pre_ecs.pos_of(e);
        if sees(pre_ecs, e, player_pos) && reachable(
            pre_map,
            (sp.x as int, sp.y as int),
            (player_pos.x as int, player_pos.y as int),
        ) {
            ecs.positions@[e] != pre_ecs.positions@[e]
        } else {
            ecs.positions@[e] == pre_ecs.positions@[e] && ecs.viewsheds@[e]
                == pre_ecs.viewsheds@[e]
        }
    }))
}

/// The step of the AI pass at entity `e` of the chain `tr`: a hostile actor
/// satisfies `ai_step_post` over the states that surround its step; any
/// other entity leaves the state untouched.
pub open spec fn ai_trace_step(
    tr: Seq<(World, GameMap)>,
    e: int,
    player_pos: Point,
    player_entity: Entity,
) -> bool {
    if monster_actor(tr[0].0, e) {
        ai_step_post(tr[e].0, tr[e].1, tr[e + 1].0, tr[e + 1].1, e, player_pos, player_entity)
    } else {
        tr[e + 1] == tr[e]
    }
}

/// The whole AI pass as a chain of per-entity steps: `tr` lists the stores
/// and the map before each entity in turn was considered, and after the
/// last. Each hostile actor's melee choice, chase step over the blocked
/// bitmap as it stood at its own turn, and idling are pinned by
/// `ai_step_post` between its surrounding states.
pub open spec fn ai_trace(tr: Seq<(World, GameMap)>, player_pos: Point, player_entity: Entity) -> bool {
    &&& tr.len() == tr[0].0.n() + 1
    &&& forall|e: int|
        0 <= e < tr.len() - 1 ==> #[trigger] ai_trace_step(tr, e, player_pos, player_entity)
}

/// One hostile actor's step keeps the loop invariant.
#[verifier::rlimit(100)]
pub proof fn lemma_ai_step(
    o_ecs: World,
    o_map: GameMap,
    pre_ecs: World,
    pre_map: GameMap,
    ecs: World,
    map: GameMap,
    e: int,
    player_pos: Point,
    player_entity: Entity,
)
    requires
        o_ecs.wf(),
        pre_ecs.wf(),
        ecs.wf(),
        pre_ecs.n() == o_ecs.n(),
        ecs.n() == o_ecs.n(),
        0 <= e < o_ecs.n(),
        monster_actor(o_ecs, e),
        map.width == pre_map.width && map.height == pre_map.height,
        pre_map.width == o_map.width && pre_map.height == o_map.height,
        ai_inv(o_ecs, o_map, pre_ecs, pre_map, e, player_pos, player_entity),
        ai_step_post(pre_ecs, pre_map, ecs, map, e, player_pos, player_entity),
    ensures
        ai_inv(o_ecs, o_map, ecs, map, e + 1, player_pos, player_entity),
{
    assert(pre_ecs.positions@[e] == o_ecs.positions@[e] && pre_ecs.viewsheds@[e]
        == o_ecs.viewsheds@[e] && pre_ecs.wants_to_melee@[e] == o_ecs.wants_to_melee@[e]);
    assert(pre_ecs.pos_of(e) == o_ecs.pos_of(e));
    assert forall|q: int| e + 1 <= q < o_ecs.n() implies ((#[trigger] ecs.positions@[q])
        == o_ecs.positions@[q] && ecs.viewsheds@[q] == o_ecs.viewsheds@[q]
        && ecs.wants_to_melee@[q] == o_ecs.wants_to_melee@[q]) by {
        assert(ecs.positions@[q] == pre_ecs.positions@[q] && ecs.viewsheds@[q]
            == pre_ecs.viewsheds@[q] && ecs.wants_to_melee@[q] == pre_ecs.wants_to_melee@[q]);
        assert(pre_ecs.positions@[q] == o_ecs.positions@[q] && pre_ecs.viewsheds@[q]
            == o_ecs.viewsheds@[q] && pre_ecs.wants_to_melee@[q] == o_ecs.wants_to_melee@[q]);
    }
    assert forall|q: int| 0 <= q < e + 1 && !monster_actor(o_ecs, q) implies ((
    #[trigger] ecs.positions@[q]) == o_ecs.positions@[q] && ecs.viewsheds@[q]
        == o_ecs.viewsheds@[q] && ecs.wants_to_melee@[q] == o_ecs.wants_to_melee@[q]) by {
        assert(q != e);
        assert(ecs.positions@[q] == pre_ecs.positions@[q] && ecs.viewsheds@[q]
            == pre_ecs.viewsheds@[q] && ecs.wants_to_melee@[q] == pre_ecs.wants_to_melee@[q]);
    }
    if forall|q: int| 0 <= q < e + 1 ==> !monster_actor(o_ecs, q) {
        assert(!monster_actor(o_ecs, e));
        assert(false);
    }
    assert forall|q: int|
        0 <= q < e + 1 && (#[trigger] monster_actor(o_ecs, q)) && dist2(
            o_ecs.pos_of(q),
            player_pos,
        ) <= 2 implies (ecs.wants_to_melee@[q] == Some(WantsToMelee { target: player_entity })
        && ecs.positions@[q] == o_ecs.positions@[q] && ecs.viewsheds@[q]
        == o_ecs.viewsheds@[q]) by {
        if q != e {
            assert(ecs.positions@[q] == pre_ecs.positions@[q] && ecs.viewsheds@[q]
                == pre_ecs.viewsheds@[q] && ecs.wants_to_melee@[q] == pre_ecs.wants_to_melee@[q]);
        }
    }
    assert forall|q: int|
        0 <= q < e + 1 && (#[trigger] monster_actor(o_ecs, q)) && dist2(
            o_ecs.pos_of(q),
            player_pos,
        ) > 2 implies ecs.wants_to_melee@[q] == o_ecs.wants_to_melee@[q] by {
        if q != e {
            assert(ecs.positions@[q] == pre_ecs.positions@[q] && ecs.viewsheds@[q]
                == pre_ecs.viewsheds@[q] && ecs.wants_to_melee@[q] == pre_ecs.wants_to_melee@[q]);
        }
    }
    assert forall|q: int| 0 <= q < e + 1 && (#[trigger] monster_actor(o_ecs, q)) implies (
    ecs.positions@[q] == o_ecs.positions@[q] || (ecs.positions@[q] matches Some(np) && kings_step(
        (o_ecs.pos_of(q).x as int, o_ecs.pos_of(q).y as int),
        (np.x as int, np.y as int),
    ) && 1 <= np.x as int <= map.width - 1 && 1 <= np.y as int <= map.height - 1
        && ecs.viewsheds@[q] is Some && ecs.viewsheds@[q]->Some_0.dirty)) by {
        if q != e {
            assert(ecs.positions@[q] == pre_ecs.positions@[q] && ecs.viewsheds@[q]
                == pre_ecs.viewsheds@[q] && ecs.wants_to_melee@[q] == pre_ecs.wants_to_melee@[q]);
        } else {
            assert(chase_move(pre_ecs, pre_map, ecs, map, e, player_pos));
            assert(pre_ecs.pos_of(e) == o_ecs.pos_of(e));
        }
    }
    assert forall|q: int|
        0 <= q < e + 1 && (#[trigger] monster_actor(o_ecs, q)) && (forall|q2: int|
            0 <= q2 < q ==> !monster_actor(o_ecs, q2)) && dist2(o_ecs.pos_of(q), player_pos)
            > 2 implies ({
        let sp = o_ecs.pos_of(q);
        if sees(o_ecs, q, player_pos) && reachable(
            o_map,
            (sp.x as int, sp.y as int),
            (player_pos.x as int, player_pos.y as int),
        ) {
            ecs.positions@[q] != o_ecs.positions@[q]
        } else {
            ecs.positions@[q] == o_ecs.positions@[q] && ecs.viewsheds@[q] == o_ecs.viewsheds@[q]
        }
    }) by {
        if q != e {
            assert(ecs.positions@[q] == pre_ecs.positions@[q] && ecs.viewsheds@[q]
                == pre_ecs.viewsheds@[q] && ecs.wants_to_melee@[q] == pre_ecs.wants_to_melee@[q]);
        } else {
            assert(pre_map.blocked@ == o_map.blocked@);
            let sp = o_ecs.pos_of(e);
            lemma_reachable_same(
                pre_map,
                o_map,
                (sp.x as int, sp.y as int),
                (player_pos.x as int, player_pos.y as int),
            );
            assert(sees(pre_ecs, e, player_pos) == sees(o_ecs, e, player_pos));
        }
    }
}

/// An entity that is no hostile actor leaves the loop invariant untouched.
pub proof fn lemma_ai_skip(
    o_ecs: World,
    o_map: GameMap,
    ecs: World,
    map: GameMap,
    e: int,
    player_pos: Point,
    player_entity: Entity,
)
    requires
        o_ecs.wf(),
        ecs.wf(),
        ecs.n() == o_ecs.n(),
        0 <= e < o_ecs.n(),
        !monster_actor(o_ecs, e),
        ai_inv(o_ecs, o_map, ecs, map, e, player_pos, player_entity),
    ensures
        ai_inv(o_ecs, o_map, ecs, map, e + 1, player_pos, player_entity),
{
}

/// Everything one AI pass guarantees, from the map and stores `(m0, w0)`
/// it entered with to the `(m1, w1)` it left behind: a no-op outside the
/// monster turn; during it, terrain and every store but positions,
/// viewsheds and melee intents untouched, the per-monster summary
/// `ai_inv`, and a chain of per-entity steps witnessing each hostile
/// actor's exact melee, chase or idle behaviour.
pub open spec fn ai_post(
    m0: GameMap,
    w0: World,
    m1: GameMap,
    w1: World,
    player_pos: Point,
    player_entity: Entity,
    runstate: RunState,
) -> bool {
    &&& m1.wf()
    &&& m1.same_dims(m0)
    &&& m1.tiles@ == m0.tiles@
    &&& m1.rooms@ == m0.rooms@
    &&& m1.revealed_tiles@ == m0.revealed_tiles@
    &&& m1.visible_tiles@ == m0.visible_tiles@
    &&& m1.tile_content@ == m0.tile_content@
    &&& w1.wf()
    &&& w1.n() == w0.n()
    &&& w1.renderables@ == w0.renderables@
    &&& w1.players@ == w0.players@
    &&& w1.monsters@ == w0.monsters@
    &&& w1.names@ == w0.names@
    &&& w1.blockers@ == w0.blockers@
    &&& w1.combat_stats@ == w0.combat_stats@
    &&& w1.wants_to_use_item@ == w0.wants_to_use_item@
    &&& w1.wants_to_drop_item@ == w0.wants_to_drop_item@
    &&& w1.items@ == w0.items@
    &&& w1.potions@ == w0.potions@
    &&& w1.suffer_damage@ == w0.suffer_damage@
    &&& crate::map_indexing_system::positions_in_bounds(w1, m1)
    &&& (runstate != RunState::MonsterTurn ==> (m1.blocked@ == m0.blocked@ && w1.positions@
        == w0.positions@ && w1.viewsheds@ == w0.viewsheds@ && w1.wants_to_melee@
        == w0.wants_to_melee@))
    &&& (runstate == RunState::MonsterTurn ==> ai_inv(
        w0,
        m0,
        w1,
        m1,
        w0.n(),
        player_pos,
        player_entity,
    ))
    &&& (runstate == RunState::MonsterTurn ==> (exists|tr: Seq<(World, GameMap)>|
        #[trigger] ai_trace(tr, player_pos, player_entity) && tr[0] == (w0, m0) && tr[tr.len()
            - 1] == (w1, m1)))
}

/// Runs the per-monster decision during the monster turn.
pub struct MonsterAi {}

impl MonsterAi {
    /// For each hostile actor, in entity order: if within melee reach of the
    /// player (any of the eight neighboring cells or its own), queue a melee
    /// intent; otherwise, if the player's cell is in its viewshed, search
    /// for a route and take exactly one step along it, moving its blocked
    /// flag along; otherwise idle. A no-op outside the monster turn.
    #[verifier::loop_isolation(false)]
    #[verifier::rlimit(100)]
    pub fn run(
        map: &mut GameMap,
        ecs: &mut World,
        player_pos: Point,
        player_entity: Entity,
        runstate: RunState,
    )
        requires
            old(map).wf(),
            old(ecs).wf(),
            positions_in_bounds(*old(ecs), *old(map)),
            old(map).in_grid(player_pos.x as int, player_pos.y as int),
        ensures
            final(map).wf(),
            final(map).same_dims(*old(map)),
            final(map).tiles@ == old(map).tiles@,
            final(map).rooms@ == old(map).rooms@,
            final(map).revealed_tiles@ == old(map).revealed_tiles@,
            final(map).visible_tiles@ == old(map).visible_tiles@,
            final(map).tile_content@ == old(map).tile_content@,
            final(ecs).wf(),
            final(ecs).n() == old(ecs).n(),
            final(ecs).renderables@ == old(ecs).renderables@,
            final(ecs).players@ == old(ecs).players@,
            final(ecs).monsters@ == old(ecs).monsters@,
            final(ecs).names@ == old(ecs).names@,
            final(ecs).blockers@ == old(ecs).blockers@,
            final(ecs).combat_stats@ == old(ecs).combat_stats@,
            final(ecs).wants_to_use_item@ == old(ecs).wants_to_use_item@,
            final(ecs).wants_to_drop_item@ == old(ecs).wants_to_drop_item@,
            final(ecs).items@ == old(ecs).items@,
            final(ecs).potions@ == old(ecs).potions@,
            final(ecs).suffer_damage@ == old(ecs).suffer_damage@,
            positions_in_bounds(*final(ecs), *final(map)),
            runstate != RunState::MonsterTurn ==> (final(map).blocked@ == old(map).blocked@
                && final(ecs).positions@ == old(ecs).positions@ && final(ecs).viewsheds@ == old(
                ecs,
            ).viewsheds@ && final(ecs).wants_to_melee@ == old(ecs).wants_to_melee@),
            runstate == RunState::MonsterTurn ==> ai_inv(
                *old(ecs),
                *old(map),
                *final(ecs),
                *final(map),
                old(ecs).n(),
                player_pos,
                player_entity,
            ),
            runstate == RunState::MonsterTurn ==> (exists|tr: Seq<(World, GameMap)>|
                #[trigger] ai_trace(tr, player_pos, player_entity) && tr[0] == (
                *old(ecs),
                *old(map),
                ) && tr[tr.len() - 1] == (*final(ecs), *final(map))),
            ai_post(
                *old(map),
                *old(ecs),
                *final(map),
                *final(ecs),
                player_pos,
                player_entity,
                runstate,
            ),
    {
        if !matches!(runstate, RunState::MonsterTurn) {
            return ;
        }
        let n = ecs.positions.len();
        let ghost mut tr: Seq<(World, GameMap)> = seq![(*ecs, *map)];
        let mut e: usize = 0;
        while e < n
            invariant
                map.wf(),
                map.same_dims(*old(map)),
                map.tiles@ == old(map).tiles@,
                map.rooms@ == old(map).rooms@,
                map.revealed_tiles@ == old(map).revealed_tiles@,
                map.visible_tiles@ == old(map).visible_tiles@,
                map.tile_content@ == old(map).tile_content@,
                ecs.wf(),
                ecs.n() == old(ecs).n(),
                n == old(ecs).n(),
                e <= n,
                positions_in_bounds(*ecs, *map),
                ecs.renderables@ == old(ecs).renderables@,
                ecs.players@ == old(ecs).players@,
                ecs.monsters@ == old(ecs).monsters@,
                ecs.names@ == old(ecs).names@,
                ecs.blockers@ == old(ecs).blockers@,
                ecs.combat_stats@ == old(ecs).combat_stats@,
                ecs.wants_to_use_item@ == old(ecs).wants_to_use_item@,
                ecs.wants_to_drop_item@ == old(ecs).wants_to_drop_item@,
                ecs.items@ == old(ecs).items@,
                ecs.potions@ == old(ecs).potions@,
                ecs.suffer_damage@ == old(ecs).suffer_damage@,
                ai_inv(*old(ecs), *old(map), *ecs, *map, e as int, player_pos, player_entity),
                tr.len() == e + 1,
                tr[0] == (*old(ecs), *old(map)),
                tr[e as int] == (*ecs, *map),
                forall|k: int|
                    0 <= k < e ==> #[trigger] ai_trace_step(tr, k, player_pos, player_entity),
            decreases n - e,
        {
            let is_monster = ecs.monsters[e];
            let pos_some = ecs.positions[e].is_some();
            let vs_some = match &ecs.viewsheds[e] {
                Some(_) => true,
                None => false,
            };
            if is_monster && pos_some && vs_some {
                proof {
                    assert(ecs.positions@[e as int] == old(ecs).positions@[e as int]);
                    assert(ecs.viewsheds@[e as int] == old(ecs).viewsheds@[e as int]);
                    assert(monster_actor(*ecs, e as int));
                    assert(monster_actor(*old(ecs), e as int));
                }
                let ghost pre_map = *map;
                let ghost pre_ecs = *ecs;
                monster_step(map, ecs, e, player_pos, player_entity);
                proof {
                    assert(ai_step_post(
                        pre_ecs,
                        pre_map,
                        *ecs,
                        *map,
                        e as int,
                        player_pos,
                        player_entity,
                    ));
                    assert(monster_actor(pre_ecs, e as int) && pre_ecs.pos_of(e as int) == old(
                        ecs,
                    ).pos_of(e as int));
                    lemma_ai_step(
                        *old(ecs),
                        *old(map),
                        pre_ecs,
                        pre_map,
                        *ecs,
                        *map,
                        e as int,
                        player_pos,
                        player_entity,
                    );
                    let tr0 = tr;
                    tr = tr.push((*ecs, *map));
                    assert(tr[e as int] == (pre_ecs, pre_map));
                    assert(tr[e as int + 1] == (*ecs, *map));
                    assert(monster_actor(tr[0].0, e as int));
                    assert(ai_trace_step(tr, e as int, player_pos, player_entity));
                    assert forall|k: int| 0 <= k < e implies #[trigger] ai_trace_step(
                        tr,
                        k,
                        player_pos,
                        player_entity,
                    ) by {
                        assert(tr[k] == tr0[k] && tr[k + 1] == tr0[k + 1] && tr[0] == tr0[0]);
                        assert(ai_trace_step(tr0, k, player_pos, player_entity));
                    }
                }
            } else {
                proof {
                    assert(!monster_actor(*old(ecs), e as int)) by {
                        assert(ecs.positions@[e as int] == old(ecs).positions@[e as int]);
                        assert(ecs.viewsheds@[e as int] == old(ecs).viewsheds@[e as int]);
                    }
                    lemma_ai_skip(
                        *old(ecs),
                        *old(map),
                        *ecs,
                        *map,
                        e as int,
                        player_pos,
                        player_entity,
                    );
                    let tr0 = tr;
                    tr = tr.push((*ecs, *map));
                    assert(!monster_actor(tr[0].0, e as int));
                    assert(tr[e as int + 1] == tr[e as int]);
                    assert(ai_trace_step(tr, e as int, player_pos, player_entity));
                    assert forall|k: int| 0 <= k < e implies #[trigger] ai_trace_step(
                        tr,
                        k,
                        player_pos,
                        player_entity,
                    ) by {
                        assert(tr[k] == tr0[k] && tr[k + 1] == tr0[k + 1] && tr[0] == tr0[0]);
                        assert(ai_trace_step(tr0, k, player_pos, player_entity));
                    }
                }
            }
            e = e + 1;
        }
        proof {
            assert(tr[0].0 == *old(ecs));
            assert(tr.len() == tr[0].0.n() + 1);
            assert(ai_trace(tr, player_pos, player_entity));
            assert(tr[tr.len() - 1] == (*ecs, *map));
        }
    }
}

} // verus!
