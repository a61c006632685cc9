//! The tick: the five systems that every world runs, in their fixed order.

use vstd::prelude::*;
use crate::ai::{after_chaser_ai, chaser_ai};
use crate::collision::{after_collision, collision_system};
use crate::components::SHIP_RADIUS;
use crate::movement::{
    after_enemy_movement, after_ship_movement, enemy_movement, lemma_ships_stay_inside,
    ship_movement, ships_inside,
};
use crate::respawn::{after_respawn, respawn_system};
use crate::world::{Slot, World, WorldView};

verus! {

/// The world one tick later: ships move, enemies move, chasers pick their
/// targets, contacts are resolved, and the dead wait or return. A chaser
/// therefore flies each tick along the line it chose the tick before.
pub open spec fn after_tick(w: WorldView) -> WorldView {
    after_respawn(after_collision(after_chaser_ai(after_enemy_movement(after_ship_movement(w)))))
}

/// The world `n` ticks later, under unchanged inputs.
pub open spec fn after_ticks(w: WorldView, n: nat) -> WorldView
    decreases n,
{
    if n == 0 {
        w
    } else {
        after_tick(after_ticks(w, (n - 1) as nat))
    }
}

/// A tick neither creates nor renumbers entities and leaves the resources
/// alone: the slots stay as many, a ship stays a ship of its team and owner
/// with the input it had, and a slot that holds no enemy holds none
/// afterwards.
pub proof fn lemma_tick_frame(w: WorldView, i: int)
    requires
        0 <= i < w.slots.len(),
    ensures
        after_tick(w).slots.len() == w.slots.len(),
        after_tick(w).wave == w.wave,
        after_tick(w).bounds == w.bounds,
        w.slots[i] matches Slot::Ship(ship) ==> {
            &&& after_tick(w).slots[i] is Ship
            &&& after_tick(w).slots[i]->Ship_0.owner == ship.owner
            &&& after_tick(w).slots[i]->Ship_0.color == ship.color
            &&& after_tick(w).slots[i]->Ship_0.input == ship.input
            &&& after_tick(w).slots[i]->Ship_0.radius == ship.radius
        },
        w.slots[i] is Vacant ==> after_tick(w).slots[i] is Vacant,
        !(w.slots[i] is Enemy) ==> !(after_tick(w).slots[i] is Enemy),
{
}

/// Ships never leave the arena: if every ship lies inside the walls, every
/// ship lies inside them a tick later.
pub proof fn lemma_tick_keeps_ships_inside(w: WorldView)
    requires
        w.wf(),
        ships_inside(w),
    ensures
        ships_inside(after_tick(w)),
{
    lemma_ships_stay_inside(w);
    let moved = after_ship_movement(w);
    let next = after_tick(w);
    assert forall|i: int| 0 <= i < next.slots.len() implies ((#[trigger] next.slots[i]) matches Slot::Ship(
        ship,
    ) ==> next.bounds.contains(ship.position.0, SHIP_RADIUS as int)) by {
        if next.slots[i] is Ship {
            let before = moved.slots[i]->Ship_0;
            assert(moved.bounds.contains(before.position.0, SHIP_RADIUS as int));
        }
    }
}

/// Advances the world by one tick.
pub fn tick(world: &mut World)
    requires
        old(world)@.wf(),
    ensures
        final(world)@ == after_tick(old(world)@),
        final(world)@.wf(),
{
    ship_movement(world);
    enemy_movement(world);
    chaser_ai(world);
    collision_system(world);
    respawn_system(world);
}

} // verus!
