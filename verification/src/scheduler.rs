//! The turn scheduler: a finite state machine that gates when input is
//! accepted and when the fixed system pipeline (visibility, then hostile
//! AI, then the spatial index) runs to completion.

use vstd::prelude::*;
use crate::components::{Point, Position, WantsToDropItem, WantsToMelee, WantsToUseItem};
use crate::map::GameMap;
use crate::world::{Entity, World};

verus! {

/// The scheduler's phase. The modal phases suspend the pipeline and hand
/// control to the menu collaborators.
#[derive(Clone, Copy, PartialEq, Eq, Structural, Debug)]
pub enum RunState {
    AwaitingInput,
    PreRun,
    PlayerTurn,
    MonsterTurn,
    ShowInventory,
    ShowDropItem,
    ShowTargeting { range: i32, item: Entity },
}

/// What a menu collaborator reports back for one tick.
#[derive(Clone, Copy, PartialEq, Eq, Structural, Debug)]
pub enum ItemMenuResult {
    Cancel,
    NoResponse,
    Selected,
}

/// A player command, as the input collaborator maps raw keys to it.
/// Each direction moves one cell; `Wait` passes the turn.
#[derive(Clone, Copy, PartialEq, Eq, Structural, Debug)]
pub enum Command {
    Left,
    Right,
    Up,
    Down,
    UpLeft,
    UpRight,
    DownLeft,
    DownRight,
    Wait,
    Inventory,
    DropItem,
}

/// The simulation: the entity stores, the level map, the scheduler phase,
/// and the tracked player.
pub struct State {
    pub ecs: World,
    pub map: GameMap,
    pub run_state: RunState,
    pub player_pos: Point,
    pub player_entity: Entity,
}

impl State {
    /// The simulation's standing invariant: well-formed stores and map,
    /// every positioned entity inside the grid, and a tracked player that
    /// exists, stands at `player_pos`, and can see.
    pub open spec fn wf(self) -> bool {
        &&& self.ecs.wf()
        &&& self.map.wf()
        &&& crate::map_indexing_system::positions_in_bounds(self.ecs, self.map)
        &&& self.ecs.is_actor(self.player_entity.0 as int)
        &&& self.ecs.pos_of(self.player_entity.0 as int) == (Position {
            x: self.player_pos.x,
            y: self.player_pos.y,
        })
        &&& self.map.in_grid(self.player_pos.x as int, self.player_pos.y as int)
        &&& !self.ecs.monsters@[self.player_entity.0 as int]
    }

    /// Assemble a simulation in its initial phase.
    pub fn new(ecs: World, map: GameMap, player_entity: Entity, player_pos: Point) -> (r: State)
        requires
            ecs.wf(),
            map.wf(),
            crate::map_indexing_system::positions_in_bounds(ecs, map),
            ecs.is_actor(player_entity.0 as int),
            ecs.pos_of(player_entity.0 as int) == (Position {
                x: player_pos.x,
                y: player_pos.y,
            }),
            map.in_grid(player_pos.x as int, player_pos.y as int),
            !ecs.monsters@[player_entity.0 as int],
        ensures
            r.wf(),
            r.run_state == RunState::PreRun,
            r.ecs == ecs,
            r.map == map,
            r.player_entity == player_entity,
            r.player_pos == player_pos,
    {
        State { ecs, map, run_state: RunState::PreRun, player_pos, player_entity }
    }

    /// What one full pipeline pass leaves behind: a post-visibility and a
    /// post-AI snapshot connect the entry state `s0` to the final stores,
    /// map and tracked player position through the three systems'
    /// contracts, in their fixed order — visibility first, then the
    /// hostile AI, then the spatial index.
    pub open spec fn pipeline_post(s0: State, ecs1: World, map1: GameMap, pp1: Point) -> bool {
        exists|vm: GameMap, vw: World, am: GameMap, aw: World|
            #![trigger crate::monster_ai_systems::ai_post(
                vm,
                vw,
                am,
                aw,
                s0.player_pos,
                s0.player_entity,
                s0.run_state,
            )]
            {
                &&& crate::visibility_system::vis_post(s0.map, s0.ecs, vm, vw)
                &&& crate::monster_ai_systems::ai_post(
                    vm,
                    vw,
                    am,
                    aw,
                    s0.player_pos,
                    s0.player_entity,
                    s0.run_state,
                )
                &&& crate::map_indexing_system::index_post(am, aw, map1)
                &&& ecs1 == aw
                &&& pp1 == s0.player_pos
            }
    }

    /// Run the fixed pipeline to completion: visibility, then the hostile
    /// AI (active only in the monster turn), then the spatial index. The
    /// order is load-bearing: the AI reads viewsheds no older than the
    /// current positions, and the index reflects the AI's movement.
    #[verifier::loop_isolation(false)]
    #[verifier::rlimit(100)]
    pub fn run_systems(&mut self)
        requires
            old(self).wf(),
        ensures
            final(self).wf(),
            final(self).run_state == old(self).run_state,
            final(self).player_entity == old(self).player_entity,
            final(self).player_pos == old(self).player_pos,
            final(self).map.same_dims(old(self).map),
            final(self).map.tiles@ == old(self).map.tiles@,
            final(self).map.rooms@ == old(self).map.rooms@,
            final(self).ecs.n() == old(self).ecs.n(),
            forall|i: int|
                0 <= i < old(self).map.area() ==> (old(self).map.revealed_tiles@[i] ==> final(self).map.revealed_tiles@[i]),
            crate::map_indexing_system::spatially_indexed(final(self).map, final(self).ecs),
            old(self).run_state == RunState::MonsterTurn ==> (forall|e: int|
                0 <= e < old(self).ecs.n() && (#[trigger] crate::monster_ai_systems::monster_actor(
                    old(self).ecs,
                    e,
                )) && crate::monster_ai_systems::dist2(old(self).ecs.pos_of(e), old(self).player_pos)
                    <= 2 ==> final(self).ecs.wants_to_melee@[e] == Some(
                    (WantsToMelee { target: old(self).player_entity }),
                )),
            State::pipeline_post(
                *old(self),
                final(self).ecs,
                final(self).map,
                final(self).player_pos,
            ),
    {
        let ghost s0 = *self;
        crate::visibility_system::VisibilitySystem::run(&mut self.map, &mut self.ecs);
        proof {
            assert forall|q: int| #[trigger] self.ecs.has_position(q) implies self.map.in_grid(
                self.ecs.pos_of(q).x as int,
                self.ecs.pos_of(q).y as int,
            ) by {
                assert(self.ecs.positions@[q] == s0.ecs.positions@[q]);
                assert(s0.ecs.has_position(q));
            }
        }
        let ghost s1 = *self;
        crate::monster_ai_systems::MonsterAi::run(
            &mut self.map,
            &mut self.ecs,
            self.player_pos,
            self.player_entity,
            self.run_state,
        );
        let ghost s2 = *self;
        proof {
            let pid = self.player_entity.0 as int;
            assert(!crate::monster_ai_systems::monster_actor(s1.ecs, pid));
            if self.run_state == RunState::MonsterTurn {
                assert(self.ecs.positions@[pid] == s1.ecs.positions@[pid]
                    && self.ecs.viewsheds@[pid] == s1.ecs.viewsheds@[pid]);
            }
            assert(self.ecs.is_actor(pid));
            assert(self.ecs.pos_of(pid) == s0.ecs.pos_of(pid));
        }
        crate::map_indexing_system::MapIndexingSystem::run(&mut self.map, &self.ecs);
        proof {
            let pid = self.player_entity.0 as int;
            if s0.run_state == RunState::MonsterTurn {
                assert forall|e: int|
                    0 <= e < s0.ecs.n() && (#[trigger] crate::monster_ai_systems::monster_actor(
                        s0.ecs,
                        e,
                    )) && crate::monster_ai_systems::dist2(s0.ecs.pos_of(e), s0.player_pos)
                        <= 2 implies self.ecs.wants_to_melee@[e] == Some(
                    (WantsToMelee { target: s0.player_entity }),
                ) by {
                    assert(s1.ecs.positions@[e] == s0.ecs.positions@[e]);
                    assert(s1.ecs.viewsheds@[e] is Some);
                    assert(crate::monster_ai_systems::monster_actor(s1.ecs, e));
                    assert(s1.ecs.pos_of(e) == s0.ecs.pos_of(e));
                    assert(s2.ecs.wants_to_melee@[e] == Some(
                        (WantsToMelee { target: s0.player_entity }),
                    ));
                }
            }
            assert(crate::visibility_system::vis_post(s0.map, s0.ecs, s1.map, s1.ecs));
            assert(crate::monster_ai_systems::ai_post(
                s1.map,
                s1.ecs,
                s2.map,
                s2.ecs,
                s0.player_pos,
                s0.player_entity,
                s0.run_state,
            ));
            assert(crate::map_indexing_system::index_post(s2.map, s2.ecs, self.map));
            assert(self.ecs == s2.ecs);
            assert(State::pipeline_post(s0, self.ecs, self.map, self.player_pos));
        }
    }
}

/// Everything the outside collaborators hand the scheduler for one tick:
/// the input collaborator's command, a menu collaborator's answer with the
/// chosen item, the chosen item's range when it is ranged, and a chosen
/// target cell.
#[derive(Clone, Copy, PartialEq, Eq, Structural, Debug)]
pub struct ExternalInput {
    pub command: Option<Command>,
    pub menu: ItemMenuResult,
    pub menu_item: Option<Entity>,
    pub ranged: Option<i32>,
    pub target: Option<Point>,
}

/// The scheduler's transition function: the pipeline phases advance on
/// their own, waiting delegates to the input collaborator, and the modal
/// phases follow the menu collaborator's answer.
pub open spec fn next_state(s: RunState, input: ExternalInput) -> RunState {
    match s {
        RunState::PreRun => RunState::AwaitingInput,
        RunState::AwaitingInput => crate::player::input_state(input.command),
        RunState::PlayerTurn => RunState::MonsterTurn,
        RunState::MonsterTurn => RunState::AwaitingInput,
        RunState::ShowInventory => match input.menu {
            ItemMenuResult::Cancel => RunState::AwaitingInput,
            ItemMenuResult::NoResponse => RunState::ShowInventory,
            ItemMenuResult::Selected => if input.ranged is Some {
                RunState::ShowTargeting {
                    range: input.ranged->Some_0,
                    item: input.menu_item->Some_0,
                }
            } else {
                RunState::PlayerTurn
            },
        },
        RunState::ShowDropItem => match input.menu {
            ItemMenuResult::Cancel => RunState::AwaitingInput,
            ItemMenuResult::NoResponse => RunState::ShowDropItem,
            ItemMenuResult::Selected => RunState::PlayerTurn,
        },
        RunState::ShowTargeting { range, item } => match input.menu {
            ItemMenuResult::Cancel => RunState::AwaitingInput,
            ItemMenuResult::NoResponse => s,
            ItemMenuResult::Selected => RunState::PlayerTurn,
        },
    }
}

/// One full turn, from the first tick: the pipeline runs, input is awaited,
/// a command spends the player's turn, the monsters answer, and the
/// scheduler waits again.
pub proof fn lemma_turn_cycle(quiet: ExternalInput, acted: ExternalInput)
    requires
        quiet.command is None,
        acted.command matches Some(c) && c != Command::Inventory && c != Command::DropItem,
    ensures
        next_state(RunState::PreRun, quiet) == RunState::AwaitingInput,
        next_state(RunState::AwaitingInput, quiet) == RunState::AwaitingInput,
        next_state(RunState::AwaitingInput, acted) == RunState::PlayerTurn,
        next_state(RunState::PlayerTurn, quiet) == RunState::MonsterTurn,
        next_state(RunState::MonsterTurn, quiet) == RunState::AwaitingInput,
{
}

impl State {
    /// One simulation tick: run the pipeline and advance the phase, or
    /// delegate to the input or menu collaborator that the current phase
    /// waits on.
    #[verifier::loop_isolation(false)]
    #[verifier::rlimit(100)]
    pub fn tick(&mut self, input: ExternalInput)
        requires
            old(self).wf(),
            (old(self).run_state == RunState::ShowInventory || old(self).run_state
                == RunState::ShowDropItem) && input.menu == ItemMenuResult::Selected
                ==> input.menu_item is Some,
        ensures
            final(self).wf(),
            final(self).run_state == next_state(old(self).run_state, input),
            final(self).player_entity == old(self).player_entity,
            final(self).map.same_dims(old(self).map),
            final(self).map.tiles@ == old(self).map.tiles@,
            final(self).map.rooms@ == old(self).map.rooms@,
            forall|i: int|
                0 <= i < old(self).map.area() ==> (old(self).map.revealed_tiles@[i] ==> final(self).map.revealed_tiles@[i]),
            matches!(
                old(self).run_state,
                RunState::PreRun | RunState::PlayerTurn | RunState::MonsterTurn,
            ) ==> crate::map_indexing_system::spatially_indexed(final(self).map, final(self).ecs),
            matches!(
                old(self).run_state,
                RunState::PreRun | RunState::PlayerTurn | RunState::MonsterTurn,
            ) ==> State::pipeline_post(
                *old(self),
                final(self).ecs,
                final(self).map,
                final(self).player_pos,
            ),
            old(self).run_state == RunState::MonsterTurn ==> (forall|e: int|
                0 <= e < old(self).ecs.n() && (#[trigger] crate::monster_ai_systems::monster_actor(
                    old(self).ecs,
                    e,
                )) && crate::monster_ai_systems::dist2(old(self).ecs.pos_of(e), old(self).player_pos)
                    <= 2 ==> final(self).ecs.wants_to_melee@[e] == Some(
                    (WantsToMelee { target: old(self).player_entity }),
                )),
            old(self).run_state == RunState::AwaitingInput ==> (input.command is None ==> (final(self).ecs == old(self).ecs && final(self).map == old(self).map && final(self).player_pos
                == old(self).player_pos)),
            old(self).run_state == RunState::AwaitingInput ==> (input.command matches Some(c) ==> (
            c == Command::Inventory || c == Command::DropItem || crate::player::moved_rel(
                *old(self),
                *final(self),
                crate::player::command_delta(c).0,
                crate::player::command_delta(c).1,
            ))),
            (old(self).run_state == RunState::AwaitingInput && (input.command is None
                || input.command == Some(Command::Inventory) || input.command == Some(
                Command::DropItem,
            ))) ==> (final(self).ecs == old(self).ecs && final(self).map == old(self).map),
            matches!(
                old(self).run_state,
                RunState::ShowInventory | RunState::ShowDropItem | RunState::ShowTargeting {
                    ..
                },
            ) && input.menu != ItemMenuResult::Selected ==> (final(self).ecs == old(self).ecs
                && final(self).map == old(self).map),
            old(self).run_state == RunState::ShowInventory && input.menu
                == ItemMenuResult::Selected && input.ranged is None ==> final(self).ecs.wants_to_use_item@ == old(self).ecs.wants_to_use_item@.update(
                old(self).player_entity.0 as int,
                Some((WantsToUseItem { item: input.menu_item->Some_0, target: None })),
            ),
            old(self).run_state == RunState::ShowDropItem && input.menu
                == ItemMenuResult::Selected ==> final(self).ecs.wants_to_drop_item@ == old(self).ecs.wants_to_drop_item@.update(
                old(self).player_entity.0 as int,
                Some((WantsToDropItem { item: input.menu_item->Some_0 })),
            ),
            old(self).run_state matches RunState::ShowTargeting { range, item } ==> (input.menu
                == ItemMenuResult::Selected ==> final(self).ecs.wants_to_use_item@ == old(self).ecs.wants_to_use_item@.update(
                old(self).player_entity.0 as int,
                Some((WantsToUseItem { item, target: input.target })),
            )),
            matches!(
                old(self).run_state,
                RunState::ShowInventory | RunState::ShowDropItem | RunState::ShowTargeting {
                    ..
                },
            ) ==> (final(self).map == old(self).map && final(self).player_pos == old(self).player_pos && final(self).ecs.n() == old(self).ecs.n() && final(self).ecs.positions@
                == old(self).ecs.positions@ && final(self).ecs.renderables@ == old(self).ecs.renderables@ && final(self).ecs.players@ == old(self).ecs.players@ && final(self).ecs.viewsheds@ == old(self).ecs.viewsheds@ && final(self).ecs.monsters@ == old(self).ecs.monsters@ && final(self).ecs.names@ == old(self).ecs.names@ && final(self).ecs.blockers@
                == old(self).ecs.blockers@ && final(self).ecs.combat_stats@ == old(self).ecs.combat_stats@ && final(self).ecs.wants_to_melee@ == old(self).ecs.wants_to_melee@
                && final(self).ecs.items@ == old(self).ecs.items@ && final(self).ecs.potions@
                == old(self).ecs.potions@ && final(self).ecs.suffer_damage@ == old(self).ecs.suffer_damage@),
            old(self).run_state == RunState::ShowInventory ==> (final(self).ecs.wants_to_drop_item@
                == old(self).ecs.wants_to_drop_item@ && (!(input.menu == ItemMenuResult::Selected
                && input.ranged is None) ==> final(self).ecs.wants_to_use_item@ == old(self).ecs.wants_to_use_item@)),
            old(self).run_state == RunState::ShowDropItem ==> (final(self).ecs.wants_to_use_item@
                == old(self).ecs.wants_to_use_item@ && (input.menu != ItemMenuResult::Selected
                ==> final(self).ecs.wants_to_drop_item@ == old(self).ecs.wants_to_drop_item@)),
            old(self).run_state matches RunState::ShowTargeting { range, item } ==> (final(self).ecs.wants_to_drop_item@ == old(self).ecs.wants_to_drop_item@ && (input.menu
                != ItemMenuResult::Selected ==> final(self).ecs.wants_to_use_item@ == old(self).ecs.wants_to_use_item@)),
    {
        let state_now = self.run_state;
        match state_now {
            RunState::PreRun => {
                self.run_systems();
                self.run_state = RunState::AwaitingInput;
            }
            RunState::AwaitingInput => {
                let ns = crate::player::player_input(self, input.command);
                self.run_state = ns;
            }
            RunState::PlayerTurn => {
                self.run_systems();
                self.run_state = RunState::MonsterTurn;
            }
            RunState::MonsterTurn => {
                self.run_systems();
                self.run_state = RunState::AwaitingInput;
            }
            RunState::ShowInventory => {
                match input.menu {
                    ItemMenuResult::Cancel => {
                        self.run_state = RunState::AwaitingInput;
                    }
                    ItemMenuResult::NoResponse => {},
                    ItemMenuResult::Selected => {
                        let item = match input.menu_item {
                            Some(it) => it,
                            None => {
                                proof {
                                    assert(false);
                                }
                                Entity(0)
                            }
                        };
                        match input.ranged {
                            Some(r) => {
                                self.run_state = RunState::ShowTargeting { range: r, item };
                            }
                            None => {
                                self.ecs.wants_to_use_item.set(
                                    self.player_entity.0,
                                    Some(WantsToUseItem { item, target: None }),
                                );
                        proof {
                            assert forall|q: int| #[trigger] self.ecs.has_position(
                                q,
                            ) implies self.map.in_grid(
                                self.ecs.pos_of(q).x as int,
                                self.ecs.pos_of(q).y as int,
                            ) by {
                                assert(old(self).ecs.has_position(q));
                            }
                        }
                                self.run_state = RunState::PlayerTurn;
                            }
                        }
                    }
                }
            }
            RunState::ShowDropItem => {
                match input.menu {
                    ItemMenuResult::Cancel => {
                        self.run_state = RunState::AwaitingInput;
                    }
                    ItemMenuResult::NoResponse => {},
                    ItemMenuResult::Selected => {
                        let item = match input.menu_item {
                            Some(it) => it,
                            None => {
                                proof {
                                    assert(false);
                                }
                                Entity(0)
                            }
                        };
                        self.ecs.wants_to_drop_item.set(
                            self.player_entity.0,
                            Some(WantsToDropItem { item }),
                        );
                        proof {
                            assert forall|q: int| #[trigger] self.ecs.has_position(
                                q,
                            ) implies self.map.in_grid(
                                self.ecs.pos_of(q).x as int,
                                self.ecs.pos_of(q).y as int,
                            ) by {
                                assert(old(self).ecs.has_position(q));
                            }
                        }
                        self.run_state = RunState::PlayerTurn;
                    }
                }
            }
            RunState::ShowTargeting { range, item } => {
                match input.menu {
                    ItemMenuResult::Cancel => {
                        self.run_state = RunState::AwaitingInput;
                    }
                    ItemMenuResult::NoResponse => {},
                    ItemMenuResult::Selected => {
                        self.ecs.wants_to_use_item.set(
                            self.player_entity.0,
                            Some(WantsToUseItem { item, target: input.target }),
                        );
                        proof {
                            assert forall|q: int| #[trigger] self.ecs.has_position(
                                q,
                            ) implies self.map.in_grid(
                                self.ecs.pos_of(q).x as int,
                                self.ecs.pos_of(q).y as int,
                            ) by {
                                assert(old(self).ecs.has_position(q));
                            }
                        }
                        self.run_state = RunState::PlayerTurn;
                    }
                }
            }
        }
    }
}

} // verus!
