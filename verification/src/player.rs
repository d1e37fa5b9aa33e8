//! Player movement: one bounds-checked step per command. Bumping into an
//! actor with combat stats queues a melee intent instead of moving; moving
//! onto a free cell updates the position, marks the viewshed dirty and
//! refreshes the tracked player position, all as one operation.

use vstd::prelude::*;
use crate::components::{Point, Position, WantsToMelee};
use crate::scheduler::{Command, RunState, State};
use crate::world::World;

verus! {

/// The cell delta a movement command asks for.
pub open spec fn command_delta(c: Command) -> (int, int) {
    match c {
        Command::Left => (-1int, 0int),
        Command::Right => (1int, 0int),
        Command::Up => (0int, -1int),
        Command::Down => (0int, 1int),
        Command::UpLeft => (-1int, -1int),
        Command::UpRight => (1int, -1int),
        Command::DownLeft => (-1int, 1int),
        Command::DownRight => (1int, 1int),
        Command::Wait => (0int, 0int),
        Command::Inventory => (0int, 0int),
        Command::DropItem => (0int, 0int),
    }
}

/// The phase the input collaborator's answer produces: no input keeps
/// waiting, a menu command opens its menu, anything else spends the turn.
pub open spec fn input_state(c: Option<Command>) -> RunState {
    match c {
        None => RunState::AwaitingInput,
        Some(Command::Inventory) => RunState::ShowInventory,
        Some(Command::DropItem) => RunState::ShowDropItem,
        Some(_) => RunState::PlayerTurn,
    }
}

/// Entity `t` of `w` carries combat stats.
pub open spec fn has_stats(w: World, t: int) -> bool {
    0 <= t < w.n() && w.combat_stats@[t] is Some
}

/// How one player step relates the simulation before and after: if the
/// destination leaves the playable area nothing changes; if the destination
/// holds a combat-capable occupant, the last such occupant receives a melee
/// intent and the player stays put; otherwise the player moves there
/// exactly when the cell is not blocked.
pub open spec fn moved_rel(s0: State, s1: State, dx: int, dy: int) -> bool {
    let pid = s0.player_entity.0 as int;
    let px = s0.ecs.pos_of(pid).x as int;
    let py = s0.ecs.pos_of(pid).y as int;
    let nx = px + dx;
    let ny = py + dy;
    let di = s0.map.idx(nx, ny);
    let occ = s0.map.tile_content@[di]@;
    &&& s1.map == s0.map
    &&& s1.player_entity == s0.player_entity
    &&& s1.ecs.n() == s0.ecs.n()
    &&& s1.ecs.renderables@ == s0.ecs.renderables@
    &&& s1.ecs.players@ == s0.ecs.players@
    &&& s1.ecs.monsters@ == s0.ecs.monsters@
    &&& s1.ecs.names@ == s0.ecs.names@
    &&& s1.ecs.blockers@ == s0.ecs.blockers@
    &&& s1.ecs.combat_stats@ == s0.ecs.combat_stats@
    &&& s1.ecs.wants_to_use_item@ == s0.ecs.wants_to_use_item@
    &&& s1.ecs.wants_to_drop_item@ == s0.ecs.wants_to_drop_item@
    &&& s1.ecs.items@ == s0.ecs.items@
    &&& s1.ecs.potions@ == s0.ecs.potions@
    &&& s1.ecs.suffer_damage@ == s0.ecs.suffer_damage@
    &&& forall|q: int|
        0 <= q < s0.ecs.n() && q != pid ==> ((#[trigger] s1.ecs.positions@[q])
            == s0.ecs.positions@[q] && s1.ecs.viewsheds@[q] == s0.ecs.viewsheds@[q]
            && s1.ecs.wants_to_melee@[q] == s0.ecs.wants_to_melee@[q])
    &&& if !(1 <= nx <= s0.map.width - 1 && 1 <= ny <= s0.map.height - 1) {
        s1.ecs == s0.ecs && s1.player_pos == s0.player_pos
    } else {
        if exists|j: int| 0 <= j < occ.len() && has_stats(s0.ecs, (#[trigger] occ[j]).0 as int) {
            &&& exists|j: int|
                {
                    &&& 0 <= j < occ.len()
                    &&& has_stats(s0.ecs, (#[trigger] occ[j]).0 as int)
                    &&& s1.ecs.wants_to_melee@[pid] == Some(WantsToMelee { target: occ[j] })
                    &&& forall|k: int|
                        j < k < occ.len() ==> !has_stats(s0.ecs, (#[trigger] occ[k]).0 as int)
                }
            &&& s1.ecs.positions@[pid] == s0.ecs.positions@[pid]
            &&& s1.ecs.viewsheds@[pid] == s0.ecs.viewsheds@[pid]
            &&& s1.player_pos == s0.player_pos
        } else {
            &&& s1.ecs.wants_to_melee@[pid] == s0.ecs.wants_to_melee@[pid]
            &&& if !s0.map.blocked@[di] {
                &&& s1.ecs.positions@[pid] == Some(Position { x: nx as i32, y: ny as i32 })
                &&& s1.ecs.viewsheds@[pid] matches Some(v) && v.dirty && v.range
                    == s0.ecs.viewsheds@[pid]->Some_0.range && v.visible_tiles@
                    == s0.ecs.viewsheds@[pid]->Some_0.visible_tiles@
                &&& s1.player_pos == (Point { x: nx as i32, y: ny as i32 })
            } else {
                &&& s1.ecs.positions@[pid] == s0.ecs.positions@[pid]
                &&& s1.ecs.viewsheds@[pid] == s0.ecs.viewsheds@[pid]
                &&& s1.player_pos == s0.player_pos
            }
        }
    }
}

/// Try to move the player by one cell: melee a combat-capable occupant of
/// the destination instead of moving, walk onto free floor, and never
/// leave the playable area.
#[verifier::loop_isolation(false)]
#[verifier::rlimit(100)]
pub fn try_move_player(delta_x: i32, delta_y: i32, gs: &mut State)
    requires
        old(gs).wf(),
        -1 <= delta_x <= 1,
        -1 <= delta_y <= 1,
    ensures
        final(gs).wf(),
        final(gs).run_state == old(gs).run_state,
        moved_rel(*old(gs), *final(gs), delta_x as int, delta_y as int),
{
    let ghost s0 = *gs;
    let pid = gs.player_entity.0;
    let px = gs.player_pos.x;
    let py = gs.player_pos.y;
    proof {
        assert(gs.ecs.pos_of(pid as int).x == px && gs.ecs.pos_of(pid as int).y == py);
    }
    let nx = px + delta_x;
    let ny = py + delta_y;
    if nx < 1 || nx > gs.map.width - 1 || ny < 1 || ny > gs.map.height - 1 {
        return ;
    }
    let di = gs.map.xy_index(nx, ny);
    let ghost occ = gs.map.tile_content@[di as int]@;
    let cell_len = gs.map.tile_content[di].len();
    let mut hit: Option<usize> = None;
    let mut k: usize = 0;
    while k < cell_len
        invariant
            *gs == s0,
            cell_len == occ.len(),
            di == s0.map.idx(px + delta_x, py + delta_y),
            di < s0.map.tile_content@.len(),
            occ == s0.map.tile_content@[di as int]@,
            k <= cell_len,
            match hit {
                Some(h) => h < cell_len && has_stats(s0.ecs, occ[h as int].0 as int) && (forall|
                    k2: int,
                |
                    h < k2 < k ==> !has_stats(s0.ecs, (#[trigger] occ[k2]).0 as int)),
                None => forall|k2: int|
                    0 <= k2 < k ==> !has_stats(s0.ecs, (#[trigger] occ[k2]).0 as int),
            },
        decreases cell_len - k,
    {
        let t = gs.map.tile_content[di][k];
        let target_has_stats = if t.0 < gs.ecs.combat_stats.len() {
            gs.ecs.combat_stats[t.0].is_some()
        } else {
            false
        };
        if target_has_stats {
            hit = Some(k);
        }
        k = k + 1;
    }
    match hit {
        Some(h) => {
            let target = gs.map.tile_content[di][h];
            gs.ecs.wants_to_melee.set(pid, Some(WantsToMelee { target }));
            proof {
                assert(gs.ecs.wants_to_melee@[pid as int] == Some(
                    WantsToMelee { target: occ[h as int] },
                ));
                assert forall|q: int| #[trigger] gs.ecs.has_position(q) implies gs.map.in_grid(
                    gs.ecs.pos_of(q).x as int,
                    gs.ecs.pos_of(q).y as int,
                ) by {
                    assert(gs.ecs.positions@[q] == s0.ecs.positions@[q]);
                    assert(s0.ecs.has_position(q));
                }
            }
            return ;
        }
        None => {},
    }
    let blocked_here = gs.map.blocked[di];
    if !blocked_here {
        gs.ecs.move_entity(gs.player_entity, nx, ny);
        gs.player_pos = Point { x: nx, y: ny };
    }
    proof {
        assert forall|q: int| #[trigger] gs.ecs.has_position(q) implies gs.map.in_grid(
            gs.ecs.pos_of(q).x as int,
            gs.ecs.pos_of(q).y as int,
        ) by {
            if q != pid {
                assert(gs.ecs.positions@[q] == s0.ecs.positions@[q]);
                assert(s0.ecs.has_position(q));
            }
        }
    }
}

/// Act on the input collaborator's answer for this tick: nothing keeps
/// the scheduler waiting, a menu command opens its menu, and any other
/// command spends the player's turn, moving the player if it asked for a
/// step.
pub fn player_input(gs: &mut State, cmd: Option<Command>) -> (r: RunState)
    requires
        old(gs).wf(),
    ensures
        final(gs).wf(),
        final(gs).run_state == old(gs).run_state,
        r == input_state(cmd),
        cmd is None ==> *final(gs) == *old(gs),
        (cmd == Some(Command::Inventory) || cmd == Some(Command::DropItem)) ==> *final(gs)
            == *old(gs),
        cmd matches Some(c) ==> (c == Command::Inventory || c == Command::DropItem || moved_rel(
            *old(gs),
            *final(gs),
            command_delta(c).0,
            command_delta(c).1,
        )),
{
    match cmd {
        None => RunState::AwaitingInput,
        Some(c) => {
            match c {
                Command::Inventory => RunState::ShowInventory,
                Command::DropItem => RunState::ShowDropItem,
                Command::Left => {
                    try_move_player(-1, 0, gs);
                    RunState::PlayerTurn
                }
                Command::Right => {
                    try_move_player(1, 0, gs);
                    RunState::PlayerTurn
                }
                Command::Up => {
                    try_move_player(0, -1, gs);
                    RunState::PlayerTurn
                }
                Command::Down => {
                    try_move_player(0, 1, gs);
                    RunState::PlayerTurn
                }
                Command::UpLeft => {
                    try_move_player(-1, -1, gs);
                    RunState::PlayerTurn
                }
                Command::UpRight => {
                    try_move_player(1, -1, gs);
                    RunState::PlayerTurn
                }
                Command::DownLeft => {
                    try_move_player(-1, 1, gs);
                    RunState::PlayerTurn
                }
                Command::DownRight => {
                    try_move_player(1, 1, gs);
                    RunState::PlayerTurn
                }
                Command::Wait => {
                    try_move_player(0, 0, gs);
                    RunState::PlayerTurn
                }
            }
        }
    }
}

} // verus!
