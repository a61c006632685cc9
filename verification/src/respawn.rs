//! Death, respawn and invulnerability timers.

use vstd::prelude::*;
use crate::components::{Health, Position, Ship, INVULNERABLE_TIME};
use crate::vec2::Vec2;
use crate::world::{Slot, World, WorldView, MAX_ENTITIES};

verus! {

/// A timer after one tick: one less, and never below zero.
pub open spec fn ticked(timer: u32) -> u32 {
    if timer > 0 {
        (timer - 1) as u32
    } else {
        0
    }
}

/// A ship after the first half of the respawn step. A dead ship waits one
/// tick less; when the wait is over it is alive again, invulnerable for
/// `INVULNERABLE_TIME`, and back at the origin.
pub open spec fn revived(ship: Ship) -> Ship {
    if ship.health.alive {
        ship
    } else {
        let wait = ticked(ship.health.respawn_timer);
        if wait == 0 {
            Ship {
                position: Position(Vec2 { x: 0, y: 0 }),
                health: Health {
                    alive: true,
                    respawn_timer: 0,
                    invulnerable_timer: INVULNERABLE_TIME,
                },
                ..ship
            }
        } else {
            Ship { health: Health { respawn_timer: wait, ..ship.health }, ..ship }
        }
    }
}

/// A ship after the whole respawn step: revived if its wait is over, and
/// then one tick less invulnerable. The tick that revives a ship already
/// counts against its invulnerability.
pub open spec fn respawned(ship: Ship) -> Ship {
    let ship = revived(ship);
    Ship {
        health: Health { invulnerable_timer: ticked(ship.health.invulnerable_timer), ..ship.health },
        ..ship
    }
}

/// A slot after the respawn step.
pub open spec fn slot_after_respawn(slot: Slot) -> Slot {
    match slot {
        Slot::Ship(ship) => Slot::Ship(respawned(ship)),
        _ => slot,
    }
}

/// The world after the respawn step.
pub open spec fn after_respawn(w: WorldView) -> WorldView {
    w.with_slots(Seq::new(w.slots.len(), |i: int| slot_after_respawn(w.slots[i])))
}

/// A dead ship after `n` respawn steps, none of which revived it.
pub open spec fn respawned_times(ship: Ship, n: nat) -> Ship
    decreases n,
{
    if n == 0 {
        ship
    } else {
        respawned(respawned_times(ship, (n - 1) as nat))
    }
}

/// A ship that dies with a wait of `w` ticks stays dead for `w - 1` respawn
/// steps and is revived by step `w`: alive, at the origin, and with
/// `INVULNERABLE_TIME - 1` ticks of invulnerability left.
pub proof fn lemma_respawn_after_wait(ship: Ship, n: nat)
    requires
        !ship.health.alive,
        ship.health.respawn_timer >= 1,
        n <= ship.health.respawn_timer,
    ensures
        n < ship.health.respawn_timer ==> {
            &&& !respawned_times(ship, n).health.alive
            &&& respawned_times(ship, n).health.respawn_timer == ship.health.respawn_timer - n
            &&& respawned_times(ship, n).position == ship.position
        },
        n == ship.health.respawn_timer ==> {
            &&& respawned_times(ship, n).health.alive
            &&& respawned_times(ship, n).health.invulnerable_timer == INVULNERABLE_TIME - 1
            &&& respawned_times(ship, n).position == Position(Vec2 { x: 0, y: 0 })
        },
    decreases n,
{
    if n > 0 {
        lemma_respawn_after_wait(ship, (n - 1) as nat);
    }
}

/// The respawn step keeps a ship well formed and touches neither its team,
/// its owner, its input nor its radius.
pub proof fn lemma_respawned(ship: Ship)
    requires
        ship.wf(),
    ensures
        respawned(ship).wf(),
        respawned(ship).color == ship.color,
        respawned(ship).owner == ship.owner,
        respawned(ship).input == ship.input,
        respawned(ship).radius == ship.radius,
        ship.health.alive ==> respawned(ship).health.alive && respawned(ship).position
            == ship.position,
{
}

/// Takes one tick off a timer.
pub fn tick_down(timer: u32) -> (r: u32)
    ensures
        r == ticked(timer),
{
    if timer > 0 {
        timer - 1
    } else {
        0
    }
}

/// Runs the respawn step on one ship.
pub fn respawn_ship(ship: Ship) -> (r: Ship)
    requires
        ship.wf(),
    ensures
        r == respawned(ship),
        r.wf(),
{
    let mut ship = ship;
    if !ship.health.alive {
        ship.health.respawn_timer = tick_down(ship.health.respawn_timer);
        if ship.health.respawn_timer == 0 {
            ship.health.alive = true;
            ship.health.invulnerable_timer = INVULNERABLE_TIME;
            ship.position = Position(Vec2::zero());
        }
    }
    ship.health.invulnerable_timer = tick_down(ship.health.invulnerable_timer);
    ship
}

/// Runs the respawn step on every ship.
pub fn respawn_system(world: &mut World)
    requires
        old(world)@.wf(),
    ensures
        final(world)@ == after_respawn(old(world)@),
        final(world)@.wf(),
{
    let mut i: usize = 0;
    while i < world.slots.len()
        invariant
            i <= world.slots.len(),
            world.slots.len() == old(world).slots.len(),
            world.wave == old(world).wave,
            world.bounds == old(world).bounds,
            world.bounds.wf(),
            world.slots.len() <= MAX_ENTITIES,
            forall|k: int| 0 <= k < i ==> world.slots@[k] == slot_after_respawn(old(world).slots@[k]),
            forall|k: int| i <= k < world.slots.len() ==> world.slots@[k] == old(world).slots@[k],
            forall|k: int| 0 <= k < world.slots.len() ==> (#[trigger] world.slots@[k]).wf(),
        decreases world.slots.len() - i,
    {
        match world.slots[i] {
            Slot::Ship(ship) => {
                let next = respawn_ship(ship);
                world.slots.set(i, Slot::Ship(next));
            },
            _ => {},
        }
        i = i + 1;
    }
    proof {
        assert(world@.slots =~= after_respawn(old(world)@).slots);
    }
}

} // verus!
