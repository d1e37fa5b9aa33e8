//! Spawning: build the player and populate rooms with monsters and
//! potions at random interior cells.

use vstd::prelude::*;
use crate::components::{CombatStats, Name, Point, Position, Potion, Renderable, Rgb, Viewshed};
use crate::map::in_rect_interior;
use crate::rect::Rect;
use crate::rng::{rng_roll_total, rng_state_after, Rng};
use crate::world::{Entity, World};

verus! {

/// The first `n` entities carry the same components in `w1` and `w2`.
pub open spec fn entities_unchanged_below(w1: World, w2: World, n: int) -> bool {
    forall|q: int|
        0 <= q < n ==> ((#[trigger] w2.positions@[q]) == w1.positions@[q] && w2.renderables@[q]
            == w1.renderables@[q] && w2.players@[q] == w1.players@[q] && w2.viewsheds@[q]
            == w1.viewsheds@[q] && w2.monsters@[q] == w1.monsters@[q] && w2.names@[q]
            == w1.names@[q] && w2.blockers@[q] == w1.blockers@[q] && w2.combat_stats@[q]
            == w1.combat_stats@[q] && w2.wants_to_melee@[q] == w1.wants_to_melee@[q]
            && w2.wants_to_use_item@[q] == w1.wants_to_use_item@[q] && w2.wants_to_drop_item@[q]
            == w1.wants_to_drop_item@[q] && w2.items@[q] == w1.items@[q] && w2.potions@[q]
            == w1.potions@[q] && w2.suffer_damage@[q] == w1.suffer_damage@[q])
}

/// Leaving the first `n1` entities untouched is transitive.
proof fn lemma_unchanged_trans(w1: World, w2: World, w3: World, n1: int, n2: int)
    requires
        entities_unchanged_below(w1, w2, n1),
        entities_unchanged_below(w2, w3, n2),
        n1 <= n2,
    ensures
        entities_unchanged_below(w1, w3, n1),
{
    assert forall|q: int| 0 <= q < n1 implies ((#[trigger] w3.positions@[q]) == w1.positions@[q]
        && w3.renderables@[q] == w1.renderables@[q] && w3.players@[q] == w1.players@[q]
        && w3.viewsheds@[q] == w1.viewsheds@[q] && w3.monsters@[q] == w1.monsters@[q]
        && w3.names@[q] == w1.names@[q] && w3.blockers@[q] == w1.blockers@[q]
        && w3.combat_stats@[q] == w1.combat_stats@[q] && w3.wants_to_melee@[q]
        == w1.wants_to_melee@[q] && w3.wants_to_use_item@[q] == w1.wants_to_use_item@[q]
        && w3.wants_to_drop_item@[q] == w1.wants_to_drop_item@[q] && w3.items@[q] == w1.items@[q]
        && w3.potions@[q] == w1.potions@[q] && w3.suffer_damage@[q] == w1.suffer_damage@[q]) by {
        assert(w2.positions@[q] == w1.positions@[q]);
        assert(w3.positions@[q] == w2.positions@[q]);
    }
}

/// Spawn the player at `(player_x, player_y)` and return its handle.
pub fn player(ecs: &mut World, player_x: i32, player_y: i32) -> (e: Entity)
    requires
        old(ecs).wf(),
        old(ecs).n() < usize::MAX,
    ensures
        final(ecs).wf(),
        e.0 == old(ecs).n(),
        final(ecs).n() == old(ecs).n() + 1,
        entities_unchanged_below(*old(ecs), *final(ecs), old(ecs).n()),
        final(ecs).positions@[e.0 as int] == Some(Position { x: player_x, y: player_y }),
        final(ecs).players@[e.0 as int],
        !final(ecs).monsters@[e.0 as int],
        !final(ecs).blockers@[e.0 as int],
        final(ecs).viewsheds@[e.0 as int] matches Some(v) && v.range == 8 && v.dirty
            && v.visible_tiles@.len() == 0,
        final(ecs).combat_stats@[e.0 as int] == Some(
            (CombatStats { max_hp: 30, current_hp: 30, defense: 5, power: 5 }),
        ),
        final(ecs).names@[e.0 as int] matches Some(nm) && nm.name@ == "Player"@,
        final(ecs).renderables@[e.0 as int] == Some(
            (Renderable {
                glyph: 64,
                foreground: Rgb { r: 255, g: 255, b: 0 },
                background: Rgb { r: 0, g: 0, b: 0 },
                render_order: 0,
            }),
        ),
{
    let e = ecs.create_entity();
    ecs.positions.set(e.0, Some(Position { x: player_x, y: player_y }));
    ecs.renderables.set(
        e.0,
        Some(
            Renderable {
                glyph: 64,
                foreground: Rgb { r: 255, g: 255, b: 0 },
                background: Rgb { r: 0, g: 0, b: 0 },
                render_order: 0,
            },
        ),
    );
    ecs.players.set(e.0, true);
    ecs.viewsheds.set(e.0, Some(Viewshed { visible_tiles: Vec::new(), range: 8, dirty: true }));
    ecs.names.set(e.0, Some(Name { name: "Player".to_owned() }));
    ecs.combat_stats.set(
        e.0,
        Some(CombatStats { max_hp: 30, current_hp: 30, defense: 5, power: 5 }),
    );
    e
}

/// Spawn one hostile actor at `(x, y)`.
fn monster(ecs: &mut World, x: i32, y: i32, glyph: u16, name: &str)
    requires
        old(ecs).wf(),
        old(ecs).n() < usize::MAX,
    ensures
        final(ecs).wf(),
        final(ecs).n() == old(ecs).n() + 1,
        entities_unchanged_below(*old(ecs), *final(ecs), old(ecs).n()),
        final(ecs).positions@[old(ecs).n()] == Some(Position { x, y }),
        final(ecs).monsters@[old(ecs).n()],
        final(ecs).blockers@[old(ecs).n()],
        !final(ecs).players@[old(ecs).n()],
        !final(ecs).items@[old(ecs).n()],
        final(ecs).viewsheds@[old(ecs).n()] matches Some(v) && v.range == 8 && v.dirty
            && v.visible_tiles@.len() == 0,
        final(ecs).combat_stats@[old(ecs).n()] == Some(
            (CombatStats { max_hp: 16, current_hp: 16, defense: 1, power: 4 }),
        ),
        final(ecs).names@[old(ecs).n()] matches Some(nm) && nm.name@ == name@,
        final(ecs).renderables@[old(ecs).n()] == Some(
            (Renderable {
                glyph,
                foreground: Rgb { r: 255, g: 0, b: 0 },
                background: Rgb { r: 0, g: 0, b: 0 },
                render_order: 1,
            }),
        ),
{
    let e = ecs.create_entity();
    ecs.positions.set(e.0, Some(Position { x, y }));
    ecs.renderables.set(
        e.0,
        Some(
            Renderable {
                glyph,
                foreground: Rgb { r: 255, g: 0, b: 0 },
                background: Rgb { r: 0, g: 0, b: 0 },
                render_order: 1,
            },
        ),
    );
    ecs.viewsheds.set(e.0, Some(Viewshed { visible_tiles: Vec::new(), range: 8, dirty: true }));
    ecs.monsters.set(e.0, true);
    ecs.names.set(e.0, Some(Name { name: name.to_owned() }));
    ecs.blockers.set(e.0, true);
    ecs.combat_stats.set(
        e.0,
        Some(CombatStats { max_hp: 16, current_hp: 16, defense: 1, power: 4 }),
    );
}

/// Spawn one of the five monster kinds at `(x, y)`, picked by a die roll.
fn random_monster(ecs: &mut World, rng: &mut Rng, x: i32, y: i32)
    requires
        old(ecs).wf(),
        old(ecs).n() < usize::MAX,
    ensures
        final(ecs).wf(),
        final(ecs).n() == old(ecs).n() + 1,
        entities_unchanged_below(*old(ecs), *final(ecs), old(ecs).n()),
        final(ecs).positions@[old(ecs).n()] == Some(Position { x, y }),
        final(ecs).monsters@[old(ecs).n()],
        final(ecs).blockers@[old(ecs).n()],
        !final(ecs).players@[old(ecs).n()],
        !final(ecs).items@[old(ecs).n()],
        final(ecs).viewsheds@[old(ecs).n()] matches Some(v) && v.range == 8 && v.dirty
            && v.visible_tiles@.len() == 0,
        final(rng).state == rng_state_after(old(rng).state, 1),
        final(ecs).names@[old(ecs).n()] matches Some(nm) && nm.name@ == ({
            let roll = rng_roll_total(old(rng).state, 1, 5);
            if roll == 1 {
                "Orc"@
            } else if roll == 2 {
                "Goblin"@
            } else if roll == 3 {
                "Hobgoblin"@
            } else if roll == 4 {
                "Rust Monster"@
            } else {
                "Ferris The Rustacean"@
            }
        }),
        final(ecs).renderables@[old(ecs).n()] matches Some(r) && r.glyph == ({
            let roll = rng_roll_total(old(rng).state, 1, 5);
            if roll == 1 {
                111u16
            } else if roll == 2 {
                103u16
            } else if roll == 3 {
                104u16
            } else if roll == 4 {
                114u16
            } else {
                70u16
            }
        }) && r.render_order == 1,
{
    let roll = rng.roll_dice(1, 5);
    match roll {
        1 => monster(ecs, x, y, 111, "Orc"),
        2 => monster(ecs, x, y, 103, "Goblin"),
        3 => monster(ecs, x, y, 104, "Hobgoblin"),
        4 => monster(ecs, x, y, 114, "Rust Monster"),
        _ => monster(ecs, x, y, 70, "Ferris The Rustacean"),
    }
}

/// Spawn one health potion at `(x, y)`.
fn health_potion(ecs: &mut World, x: i32, y: i32)
    requires
        old(ecs).wf(),
        old(ecs).n() < usize::MAX,
    ensures
        final(ecs).wf(),
        final(ecs).n() == old(ecs).n() + 1,
        entities_unchanged_below(*old(ecs), *final(ecs), old(ecs).n()),
        final(ecs).positions@[old(ecs).n()] == Some(Position { x, y }),
        !final(ecs).monsters@[old(ecs).n()],
        !final(ecs).blockers@[old(ecs).n()],
        !final(ecs).players@[old(ecs).n()],
        final(ecs).items@[old(ecs).n()],
        final(ecs).potions@[old(ecs).n()] == Some((Potion { heal_amount: 8 })),
{
    let e = ecs.create_entity();
    ecs.positions.set(e.0, Some(Position { x, y }));
    ecs.renderables.set(
        e.0,
        Some(
            Renderable {
                glyph: 173,
                foreground: Rgb { r: 255, g: 0, b: 255 },
                background: Rgb { r: 0, g: 0, b: 0 },
                render_order: 2,
            },
        ),
    );
    ecs.names.set(e.0, Some(Name { name: "Health Potion".to_owned() }));
    ecs.items.set(e.0, true);
    ecs.potions.set(e.0, Some(Potion { heal_amount: 8 }));
}

/// Whether `pts` already holds the cell `(x, y)`.
fn spawn_point_taken(pts: &Vec<Point>, x: i32, y: i32) -> (r: bool)
    ensures
        r == pts@.contains(Point { x, y }),
{
    let n = pts.len();
    let mut j: usize = 0;
    while j < n
        invariant
            j <= n,
            n == pts@.len(),
            forall|k: int| 0 <= k < j ==> pts@[k] != (Point { x, y }),
        decreases n - j,
    {
        let p = pts[j];
        if p.x == x && p.y == y {
            assert(pts@[j as int] == (Point { x, y }));
            return true;
        }
        j = j + 1;
    }
    false
}

/// Pick up to `want` distinct random cells in the interior of `room`.
fn pick_spawn_points(rng: &mut Rng, room: &Rect, want: i32) -> (r: Vec<Point>)
    requires
        0 <= room.x1,
        room.x1 + 2 <= room.x2 <= 0x1000,
        0 <= room.y1,
        room.y1 + 2 <= room.y2 <= 0x1000,
    ensures
        forall|k: int|
            0 <= k < r@.len() ==> in_rect_interior(
                *room,
                (#[trigger] r@[k]).x as int,
                r@[k].y as int,
            ),
        forall|j: int, k: int| 0 <= j < k < r@.len() ==> r@[j] != r@[k],
        want >= 0 ==> r@.len() <= want,
        want < 0 ==> r@.len() == 0,
{
    let mut points: Vec<Point> = Vec::new();
    if want <= 0 {
        return points;
    }
    let mut i: i32 = 0;
    while i < want
        invariant
            0 <= i <= want,
            points@.len() <= i,
            0 <= room.x1,
            room.x1 + 2 <= room.x2 <= 0x1000,
            0 <= room.y1,
            room.y1 + 2 <= room.y2 <= 0x1000,
            forall|k: int|
                0 <= k < points@.len() ==> in_rect_interior(
                    *room,
                    (#[trigger] points@[k]).x as int,
                    points@[k].y as int,
                ),
            forall|j: int, k: int| 0 <= j < k < points@.len() ==> points@[j] != points@[k],
        decreases want - i,
    {
        let ghost len0 = points@.len();
        let mut added = false;
        let mut tries: i32 = 0;
        while tries < 20 && !added
            invariant
                0 <= tries <= 20,
                added ==> points@.len() == len0 + 1,
                !added ==> points@.len() == len0,
                0 <= room.x1,
                room.x1 + 2 <= room.x2 <= 0x1000,
                0 <= room.y1,
                room.y1 + 2 <= room.y2 <= 0x1000,
                forall|k: int|
                    0 <= k < points@.len() ==> in_rect_interior(
                        *room,
                        (#[trigger] points@[k]).x as int,
                        points@[k].y as int,
                    ),
                forall|j: int, k: int| 0 <= j < k < points@.len() ==> points@[j] != points@[k],
            decreases 20 - tries,
        {
            let x = room.x1 + rng.roll_dice(1, room.x2 - room.x1);
            let y = room.y1 + rng.roll_dice(1, room.y2 - room.y1);
            if !spawn_point_taken(&points, x, y) {
                let ghost old_pts = points@;
                points.push(Point { x, y });
                proof {
                    assert forall|j: int, k: int|
                        0 <= j < k < points@.len() implies points@[j] != points@[k] by {
                        if k == points@.len() - 1 {
                            assert(points@[j] == old_pts[j]);
                            assert(!old_pts.contains(Point { x, y }));
                            assert(points@[k] == (Point { x, y }));
                        } else {
                            assert(points@[j] == old_pts[j] && points@[k] == old_pts[k]);
                        }
                    }
                }
                added = true;
            }
            tries = tries + 1;
        }
        i = i + 1;
    }
    points
}

/// Spawn one random monster at each cell of `pts`, in order.
#[verifier::loop_isolation(false)]
#[verifier::rlimit(100)]
fn spawn_monsters(ecs: &mut World, rng: &mut Rng, pts: &Vec<Point>)
    requires
        old(ecs).wf(),
        old(ecs).n() + pts@.len() < usize::MAX,
    ensures
        final(ecs).wf(),
        final(ecs).n() == old(ecs).n() + pts@.len(),
        entities_unchanged_below(*old(ecs), *final(ecs), old(ecs).n()),
        forall|q: int|
            old(ecs).n() <= q < final(ecs).n() ==> ((#[trigger] final(ecs).positions@[q]) == Some(
                Position {
                    x: pts@[q - old(ecs).n()].x,
                    y: pts@[q - old(ecs).n()].y,
                },
            ) && final(ecs).monsters@[q] && !final(ecs).items@[q] && !final(ecs).players@[q]),
        forall|q: int|
            old(ecs).n() <= q < final(ecs).n() ==> ((#[trigger] final(ecs).monsters@[q])
                && !final(ecs).items@[q]),
        forall|q: int| old(ecs).n() <= q < final(ecs).n() ==> !(#[trigger] final(ecs).items@[q]),
{
    let ghost n0 = ecs.n();
    let nm = pts.len();
    let mut j: usize = 0;
    while j < nm
        invariant
            ecs.wf(),
            ecs.n() == n0 + j,
            j <= nm,
            nm == pts@.len(),
            n0 == old(ecs).n(),
            entities_unchanged_below(*old(ecs), *ecs, n0),
            forall|q: int|
                n0 <= q < ecs.n() ==> ((#[trigger] ecs.positions@[q]) == Some(
                    Position { x: pts@[q - n0].x, y: pts@[q - n0].y },
                ) && ecs.monsters@[q] && !ecs.items@[q] && !ecs.players@[q]),
        decreases nm - j,
    {
        let p = pts[j];
        let ghost n_pre = ecs.n();
        let ghost pre = *ecs;
        random_monster(ecs, rng, p.x, p.y);
        proof {
            assert(entities_unchanged_below(pre, *ecs, n_pre));
            lemma_unchanged_trans(*old(ecs), pre, *ecs, n0, n_pre);
            assert forall|q: int|
                n0 <= q < ecs.n() implies ((#[trigger] ecs.positions@[q]) == Some(
                Position { x: pts@[q - n0].x, y: pts@[q - n0].y },
            ) && ecs.monsters@[q] && !ecs.items@[q] && !ecs.players@[q]) by {
                if q < n_pre {
                    assert(ecs.positions@[q] == pre.positions@[q]);
                    assert(pre.positions@[q] == Some(
                        Position { x: pts@[q - n0].x, y: pts@[q - n0].y },
                    ) && pre.monsters@[q] && !pre.items@[q] && !pre.players@[q]);
                } else {
                    assert(q == n_pre);
                    assert(pts@[q - n0] == p);
                }
            }
        }
        j = j + 1;
    }
    proof {
        assert forall|q: int|
            n0 <= q < ecs.n() implies ((#[trigger] ecs.monsters@[q]) && !ecs.items@[q]) by {
            assert(ecs.positions@[q] == Some(
                Position { x: pts@[q - n0].x, y: pts@[q - n0].y },
            ) && ecs.monsters@[q] && !ecs.items@[q]);
        }
        assert forall|q: int| n0 <= q < ecs.n() implies !(#[trigger] ecs.items@[q]) by {
            assert(ecs.positions@[q] == Some(
                Position { x: pts@[q - n0].x, y: pts@[q - n0].y },
            ) && !ecs.items@[q]);
        }
    }
}

/// Spawn one health potion at each cell of `pts`, in order.
#[verifier::loop_isolation(false)]
#[verifier::rlimit(100)]
fn spawn_potions(ecs: &mut World, pts: &Vec<Point>)
    requires
        old(ecs).wf(),
        old(ecs).n() + pts@.len() < usize::MAX,
    ensures
        final(ecs).wf(),
        final(ecs).n() == old(ecs).n() + pts@.len(),
        entities_unchanged_below(*old(ecs), *final(ecs), old(ecs).n()),
        forall|q: int|
            old(ecs).n() <= q < final(ecs).n() ==> ((#[trigger] final(ecs).positions@[q]) == Some(
                Position {
                    x: pts@[q - old(ecs).n()].x,
                    y: pts@[q - old(ecs).n()].y,
                },
            ) && final(ecs).items@[q] && !final(ecs).monsters@[q] && !final(ecs).players@[q]),
        forall|q: int|
            old(ecs).n() <= q < final(ecs).n() ==> ((#[trigger] final(ecs).items@[q])
                && !final(ecs).monsters@[q]),
        forall|q: int|
            old(ecs).n() <= q < final(ecs).n() ==> !(#[trigger] final(ecs).monsters@[q]),
{
    let ghost n0 = ecs.n();
    let ni = pts.len();
    let mut k: usize = 0;
    while k < ni
        invariant
            ecs.wf(),
            ecs.n() == n0 + k,
            k <= ni,
            ni == pts@.len(),
            n0 == old(ecs).n(),
            entities_unchanged_below(*old(ecs), *ecs, n0),
            forall|q: int|
                n0 <= q < ecs.n() ==> ((#[trigger] ecs.positions@[q]) == Some(
                    Position { x: pts@[q - n0].x, y: pts@[q - n0].y },
                ) && ecs.items@[q] && !ecs.monsters@[q] && !ecs.players@[q]),
        decreases ni - k,
    {
        let p = pts[k];
        let ghost n_pre = ecs.n();
        let ghost pre = *ecs;
        health_potion(ecs, p.x, p.y);
        proof {
            assert(entities_unchanged_below(pre, *ecs, n_pre));
            lemma_unchanged_trans(*old(ecs), pre, *ecs, n0, n_pre);
            assert forall|q: int|
                n0 <= q < ecs.n() implies ((#[trigger] ecs.positions@[q]) == Some(
                Position { x: pts@[q - n0].x, y: pts@[q - n0].y },
            ) && ecs.items@[q] && !ecs.monsters@[q] && !ecs.players@[q]) by {
                if q < n_pre {
                    assert(ecs.positions@[q] == pre.positions@[q]);
                    assert(pre.positions@[q] == Some(
                        Position { x: pts@[q - n0].x, y: pts@[q - n0].y },
                    ) && pre.items@[q] && !pre.monsters@[q] && !pre.players@[q]);
                } else {
                    assert(q == n_pre);
                    assert(pts@[q - n0] == p);
                }
            }
        }
        k = k + 1;
    }
    proof {
        assert forall|q: int|
            n0 <= q < ecs.n() implies ((#[trigger] ecs.items@[q]) && !ecs.monsters@[q]) by {
            assert(ecs.positions@[q] == Some(
                Position { x: pts@[q - n0].x, y: pts@[q - n0].y },
            ) && ecs.items@[q] && !ecs.monsters@[q]);
        }
        assert forall|q: int| n0 <= q < ecs.n() implies !(#[trigger] ecs.monsters@[q]) by {
            assert(ecs.positions@[q] == Some(
                Position { x: pts@[q - n0].x, y: pts@[q - n0].y },
            ) && !ecs.monsters@[q]);
        }
    }
}

/// Fill a room: up to three monsters and one potion at distinct random
/// interior cells. Monster spawn cells are pairwise distinct, and so are
/// item spawn cells.
#[verifier::loop_isolation(false)]
#[verifier::rlimit(100)]
pub fn spawn_room(ecs: &mut World, room: &Rect, rng: &mut Rng)
    requires
        old(ecs).wf(),
        old(ecs).n() + 8 < usize::MAX,
        0 <= room.x1,
        room.x1 + 2 <= room.x2 <= 0x1000,
        0 <= room.y1,
        room.y1 + 2 <= room.y2 <= 0x1000,
    ensures
        final(ecs).wf(),
        final(ecs).n() >= old(ecs).n(),
        entities_unchanged_below(*old(ecs), *final(ecs), old(ecs).n()),
        forall|q: int|
            old(ecs).n() <= q < final(ecs).n() ==> ((#[trigger] final(ecs).positions@[q])
                matches Some(p) && in_rect_interior(*room, p.x as int, p.y as int) && !final(ecs).players@[q]),
        forall|q1: int, q2: int|
            old(ecs).n() <= q1 < q2 < final(ecs).n() && final(ecs).monsters@[q1] && final(ecs).monsters@[q2] ==> final(ecs).positions@[q1] != final(ecs).positions@[q2],
        forall|q1: int, q2: int|
            old(ecs).n() <= q1 < q2 < final(ecs).n() && final(ecs).items@[q1] && final(ecs).items@[q2] ==> final(ecs).positions@[q1] != final(ecs).positions@[q2],
{
    let num_monsters = rng.roll_dice(1, 6) - 3;
    let num_items = rng.roll_dice(1, 4) - 3;
    let monster_points = pick_spawn_points(rng, room, num_monsters);
    let item_points = pick_spawn_points(rng, room, num_items);
    let ghost n0 = ecs.n();
    spawn_monsters(ecs, rng, &monster_points);
    let ghost n1 = ecs.n();
    let ghost mid = *ecs;
    spawn_potions(ecs, &item_points);
    proof {
        let n2 = ecs.n();
        lemma_unchanged_trans(*old(ecs), mid, *ecs, n0, n1);
        assert forall|q: int|
            n0 <= q < n2 implies ((#[trigger] ecs.positions@[q]) matches Some(p)
            && in_rect_interior(*room, p.x as int, p.y as int) && !ecs.players@[q]) by {
            if q < n1 {
                assert(mid.positions@[q] == Some(
                    Position {
                        x: monster_points@[q - n0].x,
                        y: monster_points@[q - n0].y,
                    },
                ) && mid.monsters@[q]);
                assert(ecs.positions@[q] == mid.positions@[q]);
                assert(in_rect_interior(
                    *room,
                    monster_points@[q - n0].x as int,
                    monster_points@[q - n0].y as int,
                ));
                assert(!mid.players@[q]);
                assert(ecs.players@[q] == mid.players@[q]);
            } else {
                assert(ecs.positions@[q] == Some(
                    Position { x: item_points@[q - n1].x, y: item_points@[q - n1].y },
                ) && ecs.items@[q] && !ecs.players@[q]);
                assert(in_rect_interior(
                    *room,
                    item_points@[q - n1].x as int,
                    item_points@[q - n1].y as int,
                ));
            }
        }
        assert forall|q1: int, q2: int|
            n0 <= q1 < q2 < n2 && ecs.monsters@[q1] && ecs.monsters@[q2] implies ecs.positions@[q1]
            != ecs.positions@[q2] by {
            if q1 >= n1 {
                assert(ecs.positions@[q1] == Some(
                    Position { x: item_points@[q1 - n1].x, y: item_points@[q1 - n1].y },
                ) && !ecs.monsters@[q1]);
            }
            if q2 >= n1 {
                assert(ecs.positions@[q2] == Some(
                    Position { x: item_points@[q2 - n1].x, y: item_points@[q2 - n1].y },
                ) && !ecs.monsters@[q2]);
            }
            assert(q1 < n1 && q2 < n1);
            assert(ecs.positions@[q1] == mid.positions@[q1] && ecs.positions@[q2]
                == mid.positions@[q2]);
            assert(mid.positions@[q1] == Some(
                Position {
                    x: monster_points@[q1 - n0].x,
                    y: monster_points@[q1 - n0].y,
                },
            ));
            assert(mid.positions@[q2] == Some(
                Position {
                    x: monster_points@[q2 - n0].x,
                    y: monster_points@[q2 - n0].y,
                },
            ));
            assert(monster_points@[q1 - n0] != monster_points@[q2 - n0]);
        }
        assert forall|q1: int, q2: int|
            n0 <= q1 < q2 < n2 && ecs.items@[q1] && ecs.items@[q2] implies ecs.positions@[q1]
            != ecs.positions@[q2] by {
            if q1 < n1 {
                assert(ecs.positions@[q1] == mid.positions@[q1]);
                assert(mid.positions@[q1] == Some(
                    Position {
                        x: monster_points@[q1 - n0].x,
                        y: monster_points@[q1 - n0].y,
                    },
                ) && !mid.items@[q1]);
                assert(!ecs.items@[q1]);
            }
            if q2 < n1 {
                assert(ecs.positions@[q2] == mid.positions@[q2]);
                assert(mid.positions@[q2] == Some(
                    Position {
                        x: monster_points@[q2 - n0].x,
                        y: monster_points@[q2 - n0].y,
                    },
                ) && !mid.items@[q2]);
                assert(!ecs.items@[q2]);
            }
            assert(q1 >= n1 && q2 >= n1);
            assert(ecs.positions@[q1] == Some(
                Position { x: item_points@[q1 - n1].x, y: item_points@[q1 - n1].y },
            ));
            assert(ecs.positions@[q2] == Some(
                Position { x: item_points@[q2 - n1].x, y: item_points@[q2 - n1].y },
            ));
            assert(item_points@[q1 - n1] != item_points@[q2 - n1]);
        }
    }
}

} // verus!
