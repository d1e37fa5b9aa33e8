//! Entity storage: an arena of opaque entity handles with one sparse store
//! per component type. A query over components is an explicit walk over the
//! stores, all of which share one length.

use vstd::prelude::*;
use crate::components::{
    BlocksTile, CombatStats, Item, Monster, Name, Player, Position, Potion, Renderable,
    SufferDamage, Viewshed, WantsToDropItem, WantsToMelee, WantsToUseItem,
};

verus! {

/// An opaque handle to one entity: its index into every component store.
#[derive(Clone, Copy, PartialEq, Eq, Structural, Debug)]
pub struct Entity(pub usize);

/// All component stores. Marker components are stored as plain flags, data
/// components as options.
pub struct World {
    pub positions: Vec<Option<Position>>,
    pub renderables: Vec<Option<Renderable>>,
    pub players: Vec<bool>,
    pub viewsheds: Vec<Option<Viewshed>>,
    pub monsters: Vec<bool>,
    pub names: Vec<Option<Name>>,
    pub blockers: Vec<bool>,
    pub combat_stats: Vec<Option<CombatStats>>,
    pub wants_to_melee: Vec<Option<WantsToMelee>>,
    pub wants_to_use_item: Vec<Option<WantsToUseItem>>,
    pub wants_to_drop_item: Vec<Option<WantsToDropItem>>,
    pub items: Vec<bool>,
    pub potions: Vec<Option<Potion>>,
    pub suffer_damage: Vec<Option<SufferDamage>>,
}

impl World {
    /// How many entities have been created.
    pub open spec fn n(self) -> int {
        self.positions@.len() as int
    }

    /// Every store covers every entity.
    pub open spec fn wf(self) -> bool {
        &&& self.renderables@.len() == self.n()
        &&& self.players@.len() == self.n()
        &&& self.viewsheds@.len() == self.n()
        &&& self.monsters@.len() == self.n()
        &&& self.names@.len() == self.n()
        &&& self.blockers@.len() == self.n()
        &&& self.combat_stats@.len() == self.n()
        &&& self.wants_to_melee@.len() == self.n()
        &&& self.wants_to_use_item@.len() == self.n()
        &&& self.wants_to_drop_item@.len() == self.n()
        &&& self.items@.len() == self.n()
        &&& self.potions@.len() == self.n()
        &&& self.suffer_damage@.len() == self.n()
    }

    /// Entity `e` exists and has a position.
    pub open spec fn has_position(self, e: int) -> bool {
        0 <= e < self.n() && self.positions@[e] is Some
    }

    /// The position of entity `e`.
    pub open spec fn pos_of(self, e: int) -> Position
        recommends
            self.has_position(e),
    {
        self.positions@[e]->Some_0
    }

    /// Entity `e` exists and has a viewshed.
    pub open spec fn has_viewshed(self, e: int) -> bool {
        0 <= e < self.n() && self.viewsheds@[e] is Some
    }

    /// Entity `e` is an actor: it has both a position and a viewshed.
    pub open spec fn is_actor(self, e: int) -> bool {
        self.has_position(e) && self.has_viewshed(e)
    }

    pub fn new() -> (w: World)
        ensures
            w.wf(),
            w.n() == 0,
    {
        World {
            positions: Vec::new(),
            renderables: Vec::new(),
            players: Vec::new(),
            viewsheds: Vec::new(),
            monsters: Vec::new(),
            names: Vec::new(),
            blockers: Vec::new(),
            combat_stats: Vec::new(),
            wants_to_melee: Vec::new(),
            wants_to_use_item: Vec::new(),
            wants_to_drop_item: Vec::new(),
            items: Vec::new(),
            potions: Vec::new(),
            suffer_damage: Vec::new(),
        }
    }

    /// Create a fresh entity with no components and return its handle.
    pub fn create_entity(&mut self) -> (e: Entity)
        requires
            old(self).wf(),
            old(self).n() < usize::MAX,
        ensures
            final(self).wf(),
            e.0 == old(self).n(),
            final(self).n() == old(self).n() + 1,
            final(self).positions@ == old(self).positions@.push(None::<Position>),
            final(self).renderables@ == old(self).renderables@.push(None::<Renderable>),
            final(self).players@ == old(self).players@.push(false),
            final(self).viewsheds@ == old(self).viewsheds@.push(None::<Viewshed>),
            final(self).monsters@ == old(self).monsters@.push(false),
            final(self).names@ == old(self).names@.push(None::<Name>),
            final(self).blockers@ == old(self).blockers@.push(false),
            final(self).combat_stats@ == old(self).combat_stats@.push(None::<CombatStats>),
            final(self).wants_to_melee@ == old(self).wants_to_melee@.push(None::<WantsToMelee>),
            final(self).wants_to_use_item@ == old(self).wants_to_use_item@.push(
                None::<WantsToUseItem>,
            ),
            final(self).wants_to_drop_item@ == old(self).wants_to_drop_item@.push(
                None::<WantsToDropItem>,
            ),
            final(self).items@ == old(self).items@.push(false),
            final(self).potions@ == old(self).potions@.push(None::<Potion>),
            final(self).suffer_damage@ == old(self).suffer_damage@.push(None::<SufferDamage>),
    {
        let id = self.positions.len();
        self.positions.push(None);
        self.renderables.push(None);
        self.players.push(false);
        self.viewsheds.push(None);
        self.monsters.push(false);
        self.names.push(None);
        self.blockers.push(false);
        self.combat_stats.push(None);
        self.wants_to_melee.push(None);
        self.wants_to_use_item.push(None);
        self.wants_to_drop_item.push(None);
        self.items.push(false);
        self.potions.push(None);
        self.suffer_damage.push(None);
        Entity(id)
    }

    /// Move an actor to `(x, y)` and mark its viewshed dirty: position change
    /// and dirty-marking are one operation, so no mover can forget the flag.
    pub fn move_entity(&mut self, e: Entity, x: i32, y: i32)
        requires
            old(self).wf(),
            old(self).is_actor(e.0 as int),
        ensures
            final(self).wf(),
            final(self).n() == old(self).n(),
            final(self).positions@ == old(self).positions@.update(
                e.0 as int,
                Some(Position { x, y }),
            ),
            final(self).viewsheds@.len() == old(self).viewsheds@.len(),
            forall|i: int|
                0 <= i < old(self).n() && i != e.0 ==> final(self).viewsheds@[i]
                    == old(self).viewsheds@[i],
            final(self).viewsheds@[e.0 as int] matches Some(v) && v.dirty
                && v.range == old(self).viewsheds@[e.0 as int]->Some_0.range
                && v.visible_tiles@ == old(self).viewsheds@[e.0 as int]->Some_0.visible_tiles@,
            final(self).renderables@ == old(self).renderables@,
            final(self).players@ == old(self).players@,
            final(self).monsters@ == old(self).monsters@,
            final(self).names@ == old(self).names@,
            final(self).blockers@ == old(self).blockers@,
            final(self).combat_stats@ == old(self).combat_stats@,
            final(self).wants_to_melee@ == old(self).wants_to_melee@,
            final(self).wants_to_use_item@ == old(self).wants_to_use_item@,
            final(self).wants_to_drop_item@ == old(self).wants_to_drop_item@,
            final(self).items@ == old(self).items@,
            final(self).potions@ == old(self).potions@,
            final(self).suffer_damage@ == old(self).suffer_damage@,
    {
        self.positions.set(e.0, Some(Position { x, y }));
        let slot = &mut self.viewsheds[e.0];
        match slot {
            Some(v) => {
                v.dirty = true;
            }
            None => {}
        }
    }
}

} // verus!
