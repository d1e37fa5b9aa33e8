use rogue_core::components::{CombatStats, Point, Position, SufferDamage, Viewshed, WantsToMelee};
use rogue_core::map::{GameMap, TileType};
use rogue_core::map_indexing_system::MapIndexingSystem;
use rogue_core::monster_ai_systems::MonsterAi;
use rogue_core::player::try_move_player;
use rogue_core::scheduler::{Command, ExternalInput, ItemMenuResult, RunState, State};
use rogue_core::spawner;
use rogue_core::rng::Rng;
use rogue_core::visibility_system::VisibilitySystem;
use rogue_core::world::{Entity, World};

fn quiet() -> ExternalInput {
    ExternalInput {
        command: None,
        menu: ItemMenuResult::NoResponse,
        menu_item: None,
        ranged: None,
        target: None,
    }
}

fn command(c: Command) -> ExternalInput {
    ExternalInput { command: Some(c), ..quiet() }
}

fn carve(m: &mut GameMap, x1: i32, y1: i32, x2: i32, y2: i32) {
    for y in y1..=y2 {
        for x in x1..=x2 {
            let i = (y as usize) * (m.width as usize) + (x as usize);
            m.tiles[i] = TileType::Floor;
        }
    }
}

fn add_monster(w: &mut World, x: i32, y: i32) -> Entity {
    let e = w.create_entity();
    w.positions[e.0] = Some(Position { x, y });
    w.viewsheds[e.0] = Some(Viewshed { visible_tiles: Vec::new(), range: 8, dirty: true });
    w.monsters[e.0] = true;
    w.blockers[e.0] = true;
    w.combat_stats[e.0] =
        Some(CombatStats { max_hp: 16, current_hp: 16, defense: 1, power: 4 });
    e
}

fn monster_pos(gs: &State, e: Entity) -> (i32, i32) {
    let p = gs.ecs.positions[e.0].unwrap();
    (p.x, p.y)
}

#[test]
fn reindex_is_idempotent() {
    let mut m = GameMap::random_room_dungeon(7);
    let mut w = World::new();
    let c0 = m.rooms[0].center();
    let c1 = m.rooms[1].center();
    spawner::player(&mut w, c0.0, c0.1);
    add_monster(&mut w, c1.0, c1.1);
    MapIndexingSystem::run(&mut m, &w);
    let blocked_once = m.blocked.clone();
    let content_once = m.tile_content.clone();
    MapIndexingSystem::run(&mut m, &w);
    assert_eq!(m.blocked, blocked_once);
    assert_eq!(m.tile_content, content_once);
}

#[test]
fn reindex_tracks_walls_and_blockers() {
    let mut m = GameMap::new(9, 9);
    carve(&mut m, 1, 1, 7, 7);
    let mut w = World::new();
    let p = spawner::player(&mut w, 2, 2);
    let mob = add_monster(&mut w, 5, 5);
    MapIndexingSystem::run(&mut m, &w);
    assert!(m.blocked[0], "walls block");
    assert!(!m.blocked[2 * 9 + 2], "the player does not block");
    assert!(m.blocked[5 * 9 + 5], "a monster blocks its cell");
    assert_eq!(m.tile_content[2 * 9 + 2], vec![p]);
    assert_eq!(m.tile_content[5 * 9 + 5], vec![mob]);
    assert!(m.tile_content[3 * 9 + 3].is_empty());
}

#[test]
fn revealed_only_ever_grows() {
    let mut m = GameMap::new(21, 21);
    carve(&mut m, 1, 1, 19, 19);
    let mut w = World::new();
    let p = spawner::player(&mut w, 4, 4);
    VisibilitySystem::run(&mut m, &mut w);
    let before = m.revealed_tiles.clone();
    assert!(before.iter().any(|&b| b), "the first pass revealed something");
    w.move_entity(p, 15, 15);
    VisibilitySystem::run(&mut m, &mut w);
    for i in 0..before.len() {
        if before[i] {
            assert!(m.revealed_tiles[i], "a revealed cell was forgotten");
        }
    }
    assert!(m.visible_tiles[15 * 21 + 15], "the new position is visible");
    assert!(!m.visible_tiles[4 * 21 + 4], "the old position left the visible mask");
    assert!(m.revealed_tiles[4 * 21 + 4], "the old position stays revealed");
}

#[test]
fn clean_viewsheds_are_not_recomputed() {
    let mut m = GameMap::new(11, 11);
    carve(&mut m, 1, 1, 9, 9);
    let mut w = World::new();
    spawner::player(&mut w, 5, 5);
    VisibilitySystem::run(&mut m, &mut w);
    let first = match &w.viewsheds[0] {
        Some(v) => {
            assert!(!v.dirty);
            v.visible_tiles.clone()
        }
        None => panic!("the player has a viewshed"),
    };
    // a second pass with a clean flag leaves the viewshed as it is
    VisibilitySystem::run(&mut m, &mut w);
    match &w.viewsheds[0] {
        Some(v) => assert_eq!(v.visible_tiles, first),
        None => panic!("the player has a viewshed"),
    }
}

#[test]
fn bumping_a_monster_queues_melee_instead_of_moving() {
    let mut m = GameMap::new(9, 9);
    carve(&mut m, 1, 1, 7, 7);
    let mut w = World::new();
    let p = spawner::player(&mut w, 3, 3);
    let mob = add_monster(&mut w, 4, 3);
    MapIndexingSystem::run(&mut m, &w);
    let mut gs = State::new(w, m, p, Point { x: 3, y: 3 });
    try_move_player(1, 0, &mut gs);
    assert_eq!(monster_pos(&gs, p), (3, 3), "the player did not move onto the monster");
    assert_eq!(gs.ecs.wants_to_melee[p.0], Some(WantsToMelee { target: mob }));
}

#[test]
fn walls_stop_the_player_and_floor_does_not() {
    let mut m = GameMap::new(9, 9);
    carve(&mut m, 1, 1, 7, 7);
    m.tiles[3 * 9 + 4] = TileType::Wall;
    let mut w = World::new();
    let p = spawner::player(&mut w, 3, 3);
    MapIndexingSystem::run(&mut m, &w);
    let mut gs = State::new(w, m, p, Point { x: 3, y: 3 });
    try_move_player(1, 0, &mut gs);
    assert_eq!(monster_pos(&gs, p), (3, 3), "a wall blocks the step");
    try_move_player(0, 1, &mut gs);
    assert_eq!(monster_pos(&gs, p), (3, 4), "open floor is walked onto");
    assert_eq!(gs.player_pos, Point { x: 3, y: 4 });
    match &gs.ecs.viewsheds[p.0] {
        Some(v) => assert!(v.dirty, "moving marks the viewshed dirty"),
        None => panic!("the player has a viewshed"),
    }
}

#[test]
fn scheduler_runs_one_full_turn_cycle() {
    let mut m = GameMap::new(9, 9);
    carve(&mut m, 1, 1, 7, 7);
    let mut w = World::new();
    let p = spawner::player(&mut w, 3, 3);
    let mut gs = State::new(w, m, p, Point { x: 3, y: 3 });
    assert_eq!(gs.run_state, RunState::PreRun);
    gs.tick(quiet());
    assert_eq!(gs.run_state, RunState::AwaitingInput);
    gs.tick(quiet());
    assert_eq!(gs.run_state, RunState::AwaitingInput, "no input keeps the scheduler waiting");
    gs.tick(command(Command::Right));
    assert_eq!(gs.run_state, RunState::PlayerTurn, "a move command spends the turn");
    assert_eq!(gs.player_pos, Point { x: 4, y: 3 });
    gs.tick(quiet());
    assert_eq!(gs.run_state, RunState::MonsterTurn);
    gs.tick(quiet());
    assert_eq!(gs.run_state, RunState::AwaitingInput);
}

#[test]
fn menu_phases_follow_the_collaborator() {
    let mut m = GameMap::new(9, 9);
    carve(&mut m, 1, 1, 7, 7);
    let mut w = World::new();
    let p = spawner::player(&mut w, 3, 3);
    let potion = w.create_entity();
    let mut gs = State::new(w, m, p, Point { x: 3, y: 3 });
    gs.run_state = RunState::ShowInventory;
    gs.tick(quiet());
    assert_eq!(gs.run_state, RunState::ShowInventory, "no answer keeps the menu open");
    gs.tick(ExternalInput { menu: ItemMenuResult::Cancel, ..quiet() });
    assert_eq!(gs.run_state, RunState::AwaitingInput, "cancel closes the menu");
    gs.run_state = RunState::ShowInventory;
    gs.tick(ExternalInput {
        menu: ItemMenuResult::Selected,
        menu_item: Some(potion),
        ..quiet()
    });
    assert_eq!(gs.run_state, RunState::PlayerTurn, "selection spends the turn");
    assert!(gs.ecs.wants_to_use_item[p.0].is_some());
    gs.run_state = RunState::ShowDropItem;
    gs.tick(ExternalInput {
        menu: ItemMenuResult::Selected,
        menu_item: Some(potion),
        ..quiet()
    });
    assert_eq!(gs.run_state, RunState::PlayerTurn);
    assert!(gs.ecs.wants_to_drop_item[p.0].is_some());
}

#[test]
fn adjacent_monster_queues_melee_on_its_turn() {
    // an 80 by 43 grid with one room spanning (10,10)-(20,15): the monster at
    // (15,15) stands one cell from the player at (16,15), so its turn must
    // produce a melee intent and no movement
    let mut m = GameMap::new(80, 43);
    carve(&mut m, 11, 11, 20, 15);
    let mut w = World::new();
    let p = spawner::player(&mut w, 16, 15);
    let mob = add_monster(&mut w, 15, 15);
    let mut gs = State::new(w, m, p, Point { x: 16, y: 15 });
    gs.tick(quiet());
    assert_eq!(gs.run_state, RunState::AwaitingInput);
    gs.run_state = RunState::MonsterTurn;
    gs.tick(quiet());
    assert_eq!(gs.ecs.wants_to_melee[mob.0], Some(WantsToMelee { target: p }));
    assert_eq!(monster_pos(&gs, mob), (15, 15), "a melee turn takes no step");
}

#[test]
fn monster_walks_a_corridor_one_step_per_turn() {
    // corridor of floor cells from (1,2) to (9,2); the monster starts at
    // (2,2), the player waits at (9,2), seven cells away
    let mut m = GameMap::new(12, 5);
    carve(&mut m, 1, 2, 10, 2);
    let mut w = World::new();
    let p = spawner::player(&mut w, 9, 2);
    let mob = add_monster(&mut w, 2, 2);
    let mut gs = State::new(w, m, p, Point { x: 9, y: 2 });
    gs.tick(quiet());
    // six monster turns close the gap one cell at a time, never stepping
    // onto a blocked cell
    for step in 1..=6 {
        gs.run_state = RunState::MonsterTurn;
        gs.tick(quiet());
        let (mx, my) = monster_pos(&gs, mob);
        assert_eq!((mx, my), (2 + step, 2), "one step per monster turn");
        assert_ne!((mx, my), (9, 2), "the monster never stands on the player");
        let i = (my as usize) * 12 + mx as usize;
        assert_eq!(gs.map.tiles[i], TileType::Floor);
    }
    assert!(gs.ecs.wants_to_melee[mob.0].is_none());
    // adjacent now: the next monster turn melees instead of moving
    gs.run_state = RunState::MonsterTurn;
    gs.tick(quiet());
    assert_eq!(monster_pos(&gs, mob), (8, 2));
    assert_eq!(gs.ecs.wants_to_melee[mob.0], Some(WantsToMelee { target: p }));
}

#[test]
fn monster_without_sight_of_the_player_idles() {
    let mut m = GameMap::new(30, 5);
    carve(&mut m, 1, 2, 28, 2);
    let mut w = World::new();
    let p = spawner::player(&mut w, 28, 2);
    let mob = add_monster(&mut w, 1, 2);
    let mut gs = State::new(w, m, p, Point { x: 28, y: 2 });
    gs.tick(quiet());
    gs.run_state = RunState::MonsterTurn;
    gs.tick(quiet());
    assert_eq!(monster_pos(&gs, mob), (1, 2), "the player is out of sight range");
    assert!(gs.ecs.wants_to_melee[mob.0].is_none());
}

#[test]
fn ai_is_inert_outside_the_monster_turn() {
    let mut m = GameMap::new(9, 9);
    carve(&mut m, 1, 1, 7, 7);
    let mut w = World::new();
    spawner::player(&mut w, 2, 2);
    let mob = add_monster(&mut w, 5, 5);
    MapIndexingSystem::run(&mut m, &w);
    let before = w.positions[mob.0];
    MonsterAi::run(
        &mut m,
        &mut w,
        Point { x: 2, y: 2 },
        Entity(0),
        RunState::PlayerTurn,
    );
    assert_eq!(w.positions[mob.0], before);
    assert!(w.wants_to_melee[mob.0].is_none());
}

#[test]
fn damage_records_accumulate() {
    let mut store: Vec<Option<SufferDamage>> = vec![None, None];
    SufferDamage::new_damage(&mut store, Entity(1), 4);
    SufferDamage::new_damage(&mut store, Entity(1), 3);
    assert!(store[0].is_none());
    match &store[1] {
        Some(d) => assert_eq!(d.amount, vec![4, 3]),
        None => panic!("damage was queued"),
    }
}

#[test]
fn spawned_room_contents_stay_inside_the_room() {
    let mut w = World::new();
    spawner::player(&mut w, 2, 2);
    let before = w.positions.len();
    let room = rogue_core::rect::Rect::new(10, 10, 8, 6);
    let mut rng = Rng::new(99);
    spawner::spawn_room(&mut w, &room, &mut rng);
    for e in before..w.positions.len() {
        let p = w.positions[e].expect("spawned entities have positions");
        assert!(p.x > room.x1 && p.x <= room.x2);
        assert!(p.y > room.y1 && p.y <= room.y2);
        assert!(!w.players[e]);
    }
    assert_eq!(w.positions[0], Some(Position { x: 2, y: 2 }), "the player is untouched");
}

#[test]
fn armed_nonblocking_occupant_is_attacked_not_stepped_onto() {
    let mut m = GameMap::new(9, 9);
    carve(&mut m, 1, 1, 7, 7);
    let mut w = World::new();
    let p = spawner::player(&mut w, 3, 3);
    // an armed occupant that does not carry the blocking marker
    let ghost_fighter = w.create_entity();
    w.positions[ghost_fighter.0] = Some(Position { x: 4, y: 3 });
    w.combat_stats[ghost_fighter.0] =
        Some(CombatStats { max_hp: 10, current_hp: 10, defense: 0, power: 1 });
    MapIndexingSystem::run(&mut m, &w);
    assert!(!m.blocked[3 * 9 + 4], "the occupant does not block its cell");
    let mut gs = State::new(w, m, p, Point { x: 3, y: 3 });
    try_move_player(1, 0, &mut gs);
    assert_eq!(gs.ecs.wants_to_melee[p.0], Some(WantsToMelee { target: ghost_fighter }));
    assert_eq!(monster_pos(&gs, p), (3, 3), "the attack replaces the step");
    assert_eq!(gs.player_pos, Point { x: 3, y: 3 });
}

#[test]
fn chase_step_hands_the_blocked_flag_along() {
    let mut m = GameMap::new(12, 5);
    carve(&mut m, 1, 2, 10, 2);
    let mut w = World::new();
    spawner::player(&mut w, 9, 2);
    let mob = add_monster(&mut w, 2, 2);
    MapIndexingSystem::run(&mut m, &w);
    VisibilitySystem::run(&mut m, &mut w);
    assert!(m.blocked[2 * 12 + 2], "the monster blocks its start cell");
    assert!(!m.blocked[2 * 12 + 3], "the destination starts unblocked");
    MonsterAi::run(&mut m, &mut w, Point { x: 9, y: 2 }, Entity(0), RunState::MonsterTurn);
    assert_eq!(w.positions[mob.0], Some(Position { x: 3, y: 2 }));
    assert!(!m.blocked[2 * 12 + 2], "the old cell is cleared");
    assert!(m.blocked[2 * 12 + 3], "the new cell is blocked");
}

#[test]
fn dungeon_rooms_have_sides_within_bounds() {
    for seed in [1u64, 17, 4242] {
        let m = GameMap::random_room_dungeon(seed);
        for r in &m.rooms {
            assert!((6..=10).contains(&(r.x2 - r.x1)), "room width within [6, 10]");
            assert!((6..=10).contains(&(r.y2 - r.y1)), "room height within [6, 10]");
        }
    }
}

#[test]
fn spawned_cells_are_distinct_per_kind() {
    let mut w = World::new();
    let before = w.positions.len();
    let room = rogue_core::rect::Rect::new(5, 5, 4, 4);
    let mut rng = Rng::new(3);
    spawner::spawn_room(&mut w, &room, &mut rng);
    let n = w.positions.len();
    for a in before..n {
        for b in (a + 1)..n {
            if (w.monsters[a] && w.monsters[b]) || (w.items[a] && w.items[b]) {
                assert_ne!(w.positions[a], w.positions[b], "spawn cells are distinct");
            }
        }
    }
}
