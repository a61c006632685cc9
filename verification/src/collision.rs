//! Contact between ships and enemies.
//!
//! Every contact of a tick is judged on the world as it stood when the
//! system started: an enemy that is caught still strikes the ships of the
//! other team that it touches, and a ship that is struck still catches the
//! enemies of its own team. A ship dies at most once per tick.

use vstd::prelude::*;
use crate::components::{Enemy, Health, Ship, RESPAWN_TIME};
use crate::vec2::lemma_square_bound;
use crate::world::{Slot, World, WorldView};

verus! {

/// The two circles overlap: their centres are closer than the sum of their
/// radii.
pub open spec fn touching(ship: Ship, enemy: Enemy) -> bool {
    ship.position.0.dist_sq(enemy.position.0) < (ship.radius.0 + enemy.radius.0) * (ship.radius.0
        + enemy.radius.0)
}

/// The slot holds a living ship of the enemy's team that touches it.
pub open spec fn catches(slot: Slot, enemy: Enemy) -> bool {
    slot matches Slot::Ship(ship) && ship.health.alive && ship.color == enemy.color && touching(
        ship,
        enemy,
    )
}

/// The slot holds an enemy of the other team that touches the ship.
pub open spec fn strikes(slot: Slot, ship: Ship) -> bool {
    slot matches Slot::Enemy(enemy) && enemy.color != ship.color && touching(ship, enemy)
}

/// Some living ship of its own team touches the enemy.
pub open spec fn caught(slots: Seq<Slot>, enemy: Enemy) -> bool {
    exists|i: int| 0 <= i < slots.len() && catches(#[trigger] slots[i], enemy)
}

/// The ship is alive and vulnerable, and some enemy of the other team
/// touches it.
pub open spec fn struck(slots: Seq<Slot>, ship: Ship) -> bool {
    &&& ship.health.alive
    &&& ship.health.invulnerable_timer == 0
    &&& exists|i: int| 0 <= i < slots.len() && strikes(#[trigger] slots[i], ship)
}

/// A ship that was just struck: dead, with the full wait ahead of it.
pub open spec fn killed(ship: Ship) -> Ship {
    Ship { health: Health { alive: false, respawn_timer: RESPAWN_TIME, ..ship.health }, ..ship }
}

/// A slot after contacts were resolved: a caught enemy is gone, a struck
/// ship is dead, and nothing else changes.
pub open spec fn slot_after_collision(slots: Seq<Slot>, slot: Slot) -> Slot {
    match slot {
        Slot::Vacant => Slot::Vacant,
        Slot::Ship(ship) => if struck(slots, ship) {
            Slot::Ship(killed(ship))
        } else {
            slot
        },
        Slot::Enemy(enemy) => if caught(slots, enemy) {
            Slot::Vacant
        } else {
            slot
        },
    }
}

/// The world after contacts were resolved.
pub open spec fn after_collision(w: WorldView) -> WorldView {
    w.with_slots(Seq::new(w.slots.len(), |i: int| slot_after_collision(w.slots, w.slots[i])))
}

/// Resolving contacts never revives a ship, never kills an invulnerable or
/// untouched one, never moves anything, and never creates an enemy.
pub proof fn lemma_collision_effects(slots: Seq<Slot>, i: int)
    requires
        0 <= i < slots.len(),
    ensures
        ({
            let before = slots[i];
            let after = slot_after_collision(slots, before);
            &&& before is Vacant ==> after is Vacant
            &&& before is Enemy ==> after == before || after is Vacant
            &&& before matches Slot::Ship(ship) ==> {
                &&& after is Ship
                &&& after->Ship_0.position == ship.position
                &&& after->Ship_0.color == ship.color
                &&& after->Ship_0.health.invulnerable_timer == ship.health.invulnerable_timer
                &&& !ship.health.alive ==> after == before
                &&& ship.health.invulnerable_timer > 0 ==> after == before
                &&& after->Ship_0.health.alive ==> after == before
            }
        }),
{
}

/// Tells whether a ship and an enemy overlap.
pub fn is_touching(ship: &Ship, enemy: &Enemy) -> (b: bool)
    requires
        ship.wf(),
        enemy.wf(),
    ensures
        b == touching(*ship, *enemy),
{
    let gap = ship.position.0.distance_squared(enemy.position.0);
    let reach = ship.radius.0 + enemy.radius.0;
    proof {
        lemma_square_bound(reach as int);
    }
    gap < reach * reach
}

/// Tells whether a living ship of its own team touches the enemy.
pub fn is_caught(slots: &Vec<Slot>, enemy: &Enemy) -> (b: bool)
    requires
        enemy.wf(),
        forall|i: int| 0 <= i < slots.len() ==> (#[trigger] slots@[i]).wf(),
    ensures
        b == caught(slots@, *enemy),
{
    let mut i: usize = 0;
    while i < slots.len()
        invariant
            i <= slots.len(),
            enemy.wf(),
            forall|k: int| 0 <= k < slots.len() ==> (#[trigger] slots@[k]).wf(),
            forall|k: int| 0 <= k < i ==> !catches(#[trigger] slots@[k], *enemy),
        decreases slots.len() - i,
    {
        match slots[i] {
            Slot::Ship(ship) => {
                if ship.health.alive && ship.color == enemy.color && is_touching(&ship, enemy) {
                    return true;
                }
            },
            _ => {},
        }
        i = i + 1;
    }
    false
}

/// Tells whether an enemy of the other team strikes the ship.
pub fn is_struck(slots: &Vec<Slot>, ship: &Ship) -> (b: bool)
    requires
        ship.wf(),
        forall|i: int| 0 <= i < slots.len() ==> (#[trigger] slots@[i]).wf(),
    ensures
        b == struck(slots@, *ship),
{
    if !ship.health.alive || ship.health.invulnerable_timer > 0 {
        return false;
    }
    let mut i: usize = 0;
    while i < slots.len()
        invariant
            i <= slots.len(),
            ship.wf(),
            ship.health.alive,
            ship.health.invulnerable_timer == 0,
            forall|k: int| 0 <= k < slots.len() ==> (#[trigger] slots@[k]).wf(),
            forall|k: int| 0 <= k < i ==> !strikes(#[trigger] slots@[k], *ship),
        decreases slots.len() - i,
    {
        match slots[i] {
            Slot::Enemy(enemy) => {
                if enemy.color != ship.color && is_touching(ship, &enemy) {
                    return true;
                }
            },
            _ => {},
        }
        i = i + 1;
    }
    false
}

/// Resolves the contacts of one tick.
pub fn collision_system(world: &mut World)
    requires
        old(world)@.wf(),
    ensures
        final(world)@ == after_collision(old(world)@),
        final(world)@.wf(),
{
    let mut next: Vec<Slot> = Vec::new();
    let mut i: usize = 0;
    while i < world.slots.len()
        invariant
            i <= world.slots.len(),
            *world == *old(world),
            world@.wf(),
            next.len() == i,
            forall|k: int|
                0 <= k < i ==> next@[k] == slot_after_collision(world.slots@, world.slots@[k]),
            forall|k: int| 0 <= k < i ==> (#[trigger] next@[k]).wf(),
        decreases world.slots.len() - i,
    {
        let slot = match world.slots[i] {
            Slot::Vacant => Slot::Vacant,
            Slot::Ship(ship) => {
                if is_struck(&world.slots, &ship) {
                    Slot::Ship(
                        Ship {
                            health: Health {
                                alive: false,
                                respawn_timer: RESPAWN_TIME,
                                ..ship.health
                            },
                            ..ship
                        },
                    )
                } else {
                    Slot::Ship(ship)
                }
            },
            Slot::Enemy(enemy) => {
                if is_caught(&world.slots, &enemy) {
                    Slot::Vacant
                } else {
                    Slot::Enemy(enemy)
                }
            },
        };
        next.push(slot);
        i = i + 1;
    }
    proof {
        assert(next@ =~= after_collision(old(world)@).slots);
    }
    world.slots = next;
}

} // verus!
