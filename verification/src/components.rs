//! Per-actor component data: position, sight, rendering hints, combat facts
//! and the one-step intent records the resolution collaborator consumes.

use vstd::prelude::*;
use crate::world::Entity;

verus! {

/// An actor's integer cell coordinates.
#[derive(Clone, Copy, PartialEq, Eq, Structural, Debug)]
pub struct Position {
    pub x: i32,
    pub y: i32,
}

/// A cell coordinate pair, as stored in a viewshed's visible-cell list and as
/// the tracked player position.
#[derive(Clone, Copy, PartialEq, Eq, Structural, Debug)]
pub struct Point {
    pub x: i32,
    pub y: i32,
}

/// An 8-bit colour triple. Rendering itself stays outside the core.
#[derive(Clone, Copy, PartialEq, Eq, Structural, Debug)]
pub struct Rgb {
    pub r: u8,
    pub g: u8,
    pub b: u8,
}

/// How the rendering collaborator should draw an actor.
#[derive(Clone, Copy, PartialEq, Eq, Structural, Debug)]
pub struct Renderable {
    pub glyph: u16,
    pub foreground: Rgb,
    pub background: Rgb,
    pub render_order: i32,
}

/// Marker: this actor is the player.
#[derive(Clone, Copy, PartialEq, Eq, Structural, Debug)]
pub struct Player {}

/// Per-actor visibility state: sight range, the recompute-needed flag and the
/// list of currently visible cells.
#[derive(Clone, Debug)]
pub struct Viewshed {
    pub visible_tiles: Vec<Point>,
    pub range: i32,
    pub dirty: bool,
}

/// Marker: this actor is hostile and chases the player.
#[derive(Clone, Copy, PartialEq, Eq, Structural, Debug)]
pub struct Monster {}

/// A display name.
#[derive(Clone, Debug)]
pub struct Name {
    pub name: String,
}

/// Marker: this actor occupies its cell exclusively.
#[derive(Clone, Copy, PartialEq, Eq, Structural, Debug)]
pub struct BlocksTile {}

/// Hit points and melee numbers, consumed by the combat collaborator.
#[derive(Clone, Copy, PartialEq, Eq, Structural, Debug)]
pub struct CombatStats {
    pub max_hp: i32,
    pub current_hp: i32,
    pub defense: i32,
    pub power: i32,
}

/// One-step intent: this actor wants to melee `target`.
#[derive(Clone, Copy, PartialEq, Eq, Structural, Debug)]
pub struct WantsToMelee {
    pub target: Entity,
}

/// One-step intent: this actor wants to use `item`, at `target` if ranged.
#[derive(Clone, Copy, PartialEq, Eq, Structural, Debug)]
pub struct WantsToUseItem {
    pub item: Entity,
    pub target: Option<Point>,
}

/// One-step intent: this actor wants to drop `item`.
#[derive(Clone, Copy, PartialEq, Eq, Structural, Debug)]
pub struct WantsToDropItem {
    pub item: Entity,
}

/// Marker: this entity can be picked up.
#[derive(Clone, Copy, PartialEq, Eq, Structural, Debug)]
pub struct Item {}

/// A drinkable item's healing strength.
#[derive(Clone, Copy, PartialEq, Eq, Structural, Debug)]
pub struct Potion {
    pub heal_amount: i32,
}

/// Damage queued against an actor, cleared by the damage collaborator.
#[derive(Clone, Debug)]
pub struct SufferDamage {
    pub amount: Vec<i32>,
}

impl SufferDamage {
    /// Queue `amount` damage against `victim`, starting a fresh record when
    /// none exists yet.
    pub fn new_damage(store: &mut Vec<Option<SufferDamage>>, victim: Entity, amount: i32)
        requires
            victim.0 < old(store).len(),
        ensures
            final(store).len() == old(store).len(),
            forall|i: int|
                0 <= i < old(store).len() && i != victim.0 ==> final(store)[i] == old(store)[i],
            old(store)[victim.0 as int] is Some ==> (final(store)[victim.0 as int] matches Some(d)
                && d.amount@ == old(store)[victim.0 as int]->Some_0.amount@.push(amount)),
            old(store)[victim.0 as int] is None ==> (final(store)[victim.0 as int] matches Some(d)
                && d.amount@ == seq![amount]),
    {
        let slot = &mut store[victim.0];
        match slot {
            Some(suffering) => {
                suffering.amount.push(amount);
            }
            None => {
                let mut first: Vec<i32> = Vec::new();
                first.push(amount);
                *slot = Some(SufferDamage { amount: first });
            }
        }
    }
}

} // verus!
