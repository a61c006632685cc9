//! What the simulation shows of itself: a read-only description of each
//! entity, and the rule by which an invulnerable ship blinks.

use vstd::prelude::*;
use crate::components::{EnemyType, Health, TeamColor};
use crate::vec2::Vec2;
use crate::world::{Entity, Slot, World, WorldView};

verus! {

/// What an entity is.
#[derive(Clone, Copy, Debug, PartialEq, Eq, Structural)]
pub enum EntityKind {
    Ship,
    Enemy(EnemyType),
}

/// What there is to draw of an entity.
#[derive(Clone, Copy, Debug, PartialEq, Eq, Structural)]
pub struct EntityInfo {
    pub kind: EntityKind,
    pub color: TeamColor,
    pub position: Vec2,
    pub radius: i64,
    /// False only for a ship that is dead.
    pub alive: bool,
    /// True only for a ship whose invulnerability is running.
    pub invulnerable: bool,
}

/// The description of what a slot holds.
pub open spec fn info_of(slot: Slot) -> Option<EntityInfo> {
    match slot {
        Slot::Vacant => None,
        Slot::Ship(ship) => Some(
            EntityInfo {
                kind: EntityKind::Ship,
                color: ship.color,
                position: ship.position.0,
                radius: ship.radius.0,
                alive: ship.health.alive,
                invulnerable: ship.health.invulnerable_timer > 0,
            },
        ),
        Slot::Enemy(enemy) => Some(
            EntityInfo {
                kind: EntityKind::Enemy(enemy.kind),
                color: enemy.color,
                position: enemy.position.0,
                radius: enemy.radius.0,
                alive: true,
                invulnerable: false,
            },
        ),
    }
}

/// The description of an entity; nothing for a handle to nothing.
pub open spec fn described(w: WorldView, entity: Entity) -> Option<EntityInfo> {
    if entity.0 < w.slots.len() {
        info_of(w.slots[entity.0 as int])
    } else {
        None
    }
}

/// A ship shows while it is alive; while it is invulnerable it blinks
/// instead, on for a tenth of a second and off for the next.
pub open spec fn shown(health: Health, tenths: u64) -> bool {
    if health.invulnerable_timer > 0 {
        tenths % 2 == 0
    } else {
        health.alive
    }
}

/// Describes an entity.
pub fn describe(world: &World, entity: Entity) -> (r: Option<EntityInfo>)
    ensures
        r == described(world@, entity),
{
    if entity.0 >= world.slots.len() {
        return None;
    }
    match world.slots[entity.0] {
        Slot::Vacant => None,
        Slot::Ship(ship) => Some(
            EntityInfo {
                kind: EntityKind::Ship,
                color: ship.color,
                position: ship.position.0,
                radius: ship.radius.0,
                alive: ship.health.alive,
                invulnerable: ship.health.invulnerable_timer > 0,
            },
        ),
        Slot::Enemy(enemy) => Some(
            EntityInfo {
                kind: EntityKind::Enemy(enemy.kind),
                color: enemy.color,
                position: enemy.position.0,
                radius: enemy.radius.0,
                alive: true,
                invulnerable: false,
            },
        ),
    }
}

/// Tells whether a ship is to be drawn, `tenths` tenths of a second into
/// the run.
pub fn is_shown(health: &Health, tenths: u64) -> (b: bool)
    ensures
        b == shown(*health, tenths),
{
    if health.invulnerable_timer > 0 {
        tenths % 2 == 0
    } else {
        health.alive
    }
}

} // verus!
