//! Kinematics: ships under input, enemies along their velocity or on their
//! orbit, and the walls.

use vstd::prelude::*;
use crate::angle::{heading, heading_of, lemma_heading_length, wrap_angle, wrapped};
use crate::components::{
    ArenaBounds, Enemy, OrbitData, Position, Ship, Velocity, ENEMY_RADIUS, SHIP_RADIUS,
    SHIP_STEP, TICK_RATE,
};
use crate::math::{div_toward_zero, lemma_trunc_div_bounds, trunc_div};
use crate::vec2::{lemma_scaled_direction, Vec2, COORD_MAX};
use crate::world::{Slot, World, WorldView, MAX_ENTITIES};

verus! {

/// `v` brought into `[lo, hi]`.
pub open spec fn clamped(v: int, lo: int, hi: int) -> int
    recommends
        lo <= hi,
{
    if v < lo {
        lo
    } else if v > hi {
        hi
    } else {
        v
    }
}

/// A ship after one tick of movement. A ship without input stays where it
/// is; one with input moves `SHIP_STEP` in the direction of the input,
/// whatever the input's magnitude, and is then held inside the walls.
pub open spec fn ship_moved(ship: Ship, bounds: ArenaBounds) -> Ship {
    let d = ship.input.direction;
    if d.x == 0 && d.y == 0 {
        ship
    } else {
        let step = d.scaled_to(SHIP_STEP as int);
        let reach_x = bounds.half_width - SHIP_RADIUS;
        let reach_y = bounds.half_height - SHIP_RADIUS;
        Ship {
            position: Position(
                Vec2 {
                    x: clamped(ship.position.0.x + step.x, -reach_x, reach_x) as i64,
                    y: clamped(ship.position.0.y + step.y, -reach_y, reach_y) as i64,
                },
            ),
            ..ship
        }
    }
}

/// Position and velocity along one axis after a tick of free flight between
/// walls at `-limit` and `limit`: beyond a wall the position is put back on
/// it and the velocity is reversed.
pub open spec fn bounced(position: int, velocity: int, limit: int) -> (int, int) {
    let p = position + trunc_div(velocity, TICK_RATE as int);
    if p > limit || p < -limit {
        (clamped(p, -limit, limit), -velocity)
    } else {
        (p, velocity)
    }
}

/// An orbit after one tick: the phase has advanced by the angular speed.
pub open spec fn orbit_advanced(orbit: OrbitData) -> OrbitData {
    OrbitData {
        angle: wrapped(orbit.angle + trunc_div(orbit.speed as int, TICK_RATE as int)) as i64,
        ..orbit
    }
}

/// Where an orbit puts its enemy.
pub open spec fn orbit_position(orbit: OrbitData) -> Vec2 {
    let arm = heading(orbit.angle as int, orbit.radius as int);
    Vec2 { x: (orbit.center.x + arm.x) as i64, y: (orbit.center.y + arm.y) as i64 }
}

/// An enemy after one tick of movement.
pub open spec fn enemy_moved(enemy: Enemy, bounds: ArenaBounds) -> Enemy {
    match enemy.orbit {
        Some(orbit) => {
            let next = orbit_advanced(orbit);
            Enemy { position: Position(orbit_position(next)), orbit: Some(next), ..enemy }
        },
        None => {
            let x = bounced(
                enemy.position.0.x as int,
                enemy.velocity.0.x as int,
                bounds.half_width - ENEMY_RADIUS,
            );
            let y = bounced(
                enemy.position.0.y as int,
                enemy.velocity.0.y as int,
                bounds.half_height - ENEMY_RADIUS,
            );
            Enemy {
                position: Position(Vec2 { x: x.0 as i64, y: y.0 as i64 }),
                velocity: Velocity(Vec2 { x: x.1 as i64, y: y.1 as i64 }),
                ..enemy
            }
        },
    }
}

/// A slot after the ships have moved.
pub open spec fn slot_after_ship_movement(slot: Slot, bounds: ArenaBounds) -> Slot {
    match slot {
        Slot::Ship(ship) => Slot::Ship(ship_moved(ship, bounds)),
        _ => slot,
    }
}

/// A slot after the enemies have moved.
pub open spec fn slot_after_enemy_movement(slot: Slot, bounds: ArenaBounds) -> Slot {
    match slot {
        Slot::Enemy(enemy) => Slot::Enemy(enemy_moved(enemy, bounds)),
        _ => slot,
    }
}

/// The world after the ships have moved.
pub open spec fn after_ship_movement(w: WorldView) -> WorldView {
    w.with_slots(
        Seq::new(w.slots.len(), |i: int| slot_after_ship_movement(w.slots[i], w.bounds)),
    )
}

/// The world after the enemies have moved.
pub open spec fn after_enemy_movement(w: WorldView) -> WorldView {
    w.with_slots(
        Seq::new(w.slots.len(), |i: int| slot_after_enemy_movement(w.slots[i], w.bounds)),
    )
}

/// Moving keeps a ship well formed. A ship that moved, or that was inside
/// the walls already, is inside them afterwards; a ship without input does
/// not move at all.
pub proof fn lemma_ship_moved(ship: Ship, bounds: ArenaBounds)
    requires
        ship.wf(),
        bounds.wf(),
    ensures
        ship_moved(ship, bounds).wf(),
        ship.input.direction != (Vec2 { x: 0, y: 0 }) ==> bounds.contains(
            ship_moved(ship, bounds).position.0,
            SHIP_RADIUS as int,
        ),
        bounds.contains(ship.position.0, SHIP_RADIUS as int) ==> bounds.contains(
            ship_moved(ship, bounds).position.0,
            SHIP_RADIUS as int,
        ),
        ship.input.direction == (Vec2 { x: 0, y: 0 }) ==> ship_moved(ship, bounds) == ship,
{
    lemma_scaled_direction(ship.input.direction, SHIP_STEP as int);
}

/// Every ship lies inside the walls.
pub open spec fn ships_inside(w: WorldView) -> bool {
    forall|i: int|
        0 <= i < w.slots.len() ==> ((#[trigger] w.slots[i]) matches Slot::Ship(ship)
            ==> w.bounds.contains(ship.position.0, SHIP_RADIUS as int))
}

/// After the ships have moved, every ship under input lies inside the
/// walls, and so does every ship that lay inside them before. If all ships
/// lay inside, all still do.
pub proof fn lemma_ships_stay_inside(w: WorldView)
    requires
        w.wf(),
    ensures
        forall|i: int|
            0 <= i < w.slots.len() ==> ((#[trigger] w.slots[i]) matches Slot::Ship(ship) ==> {
                let after = after_ship_movement(w).slots[i]->Ship_0;
                &&& after_ship_movement(w).slots[i] is Ship
                &&& (ship.input.direction != (Vec2 { x: 0, y: 0 }) || w.bounds.contains(
                    ship.position.0,
                    SHIP_RADIUS as int,
                )) ==> w.bounds.contains(after.position.0, SHIP_RADIUS as int)
            }),
        ships_inside(w) ==> ships_inside(after_ship_movement(w)),
{
    assert forall|i: int| 0 <= i < w.slots.len() implies ((#[trigger] w.slots[i]) matches Slot::Ship(
        ship,
    ) ==> {
        let after = after_ship_movement(w).slots[i]->Ship_0;
        &&& after_ship_movement(w).slots[i] is Ship
        &&& (ship.input.direction != (Vec2 { x: 0, y: 0 }) || w.bounds.contains(
            ship.position.0,
            SHIP_RADIUS as int,
        )) ==> w.bounds.contains(after.position.0, SHIP_RADIUS as int)
    }) by {
        if let Slot::Ship(ship) = w.slots[i] {
            lemma_ship_moved(ship, w.bounds);
        }
    }
}

/// Free flight keeps a coordinate between the walls, and a coordinate that
/// crossed a wall ends on it with its velocity reversed.
pub proof fn lemma_bounced(position: int, velocity: int, limit: int)
    requires
        limit >= 0,
    ensures
        -limit <= bounced(position, velocity, limit).0 <= limit,
        bounced(position, velocity, limit).1 == velocity || bounced(position, velocity, limit).1
            == -velocity,
        position + trunc_div(velocity, TICK_RATE as int) > limit ==> bounced(
            position,
            velocity,
            limit,
        ) == (limit, -velocity),
        position + trunc_div(velocity, TICK_RATE as int) < -limit ==> bounced(
            position,
            velocity,
            limit,
        ) == (-limit, -velocity),
{
}

/// An orbiter stays on its circle: after a step its squared distance from
/// the centre lies strictly between `r * r - 4 * r - 2` and
/// `(r + 1) * (r + 1)`, where `r` is the radius of the orbit. The phase
/// stays in range and nothing else about the orbit changes.
pub proof fn lemma_orbiter_on_circle(enemy: Enemy, bounds: ArenaBounds)
    requires
        enemy.wf(),
        enemy.orbit is Some,
    ensures
        ({
            let orbit = enemy.orbit->Some_0;
            let after = enemy_moved(enemy, bounds);
            let r = orbit.radius as int;
            &&& after.orbit == Some(orbit_advanced(orbit))
            &&& orbit_advanced(orbit).wf()
            &&& r * r - 4 * r - 2 < after.position.0.dist_sq(orbit.center)
            &&& after.position.0.dist_sq(orbit.center) < (r + 1) * (r + 1)
            &&& after.wf()
        }),
{
    let orbit = enemy.orbit->Some_0;
    let next = orbit_advanced(orbit);
    lemma_heading_length(next.angle as int, next.radius as int);
}

/// Moving keeps an enemy well formed, and one that flies freely ends the
/// tick between the walls.
pub proof fn lemma_enemy_moved(enemy: Enemy, bounds: ArenaBounds)
    requires
        enemy.wf(),
        bounds.wf(),
    ensures
        enemy_moved(enemy, bounds).wf(),
        enemy.orbit is None ==> bounds.contains(
            enemy_moved(enemy, bounds).position.0,
            ENEMY_RADIUS as int,
        ),
{
    if enemy.orbit is Some {
        lemma_orbiter_on_circle(enemy, bounds);
    } else {
        lemma_bounced(
            enemy.position.0.x as int,
            enemy.velocity.0.x as int,
            bounds.half_width - ENEMY_RADIUS,
        );
        lemma_bounced(
            enemy.position.0.y as int,
            enemy.velocity.0.y as int,
            bounds.half_height - ENEMY_RADIUS,
        );
    }
}

/// Brings `v` into `[lo, hi]`.
pub fn clamp(v: i64, lo: i64, hi: i64) -> (r: i64)
    requires
        lo <= hi,
    ensures
        r == clamped(v as int, lo as int, hi as int),
{
    if v < lo {
        lo
    } else if v > hi {
        hi
    } else {
        v
    }
}

/// Moves one ship by one tick.
pub fn move_ship(ship: Ship, bounds: &ArenaBounds) -> (moved: Ship)
    requires
        ship.wf(),
        bounds.wf(),
    ensures
        moved == ship_moved(ship, *bounds),
        moved.wf(),
{
    proof {
        lemma_ship_moved(ship, *bounds);
    }
    let d = ship.input.direction;
    if d.is_zero() {
        return ship;
    }
    let step = d.scale_to_length(SHIP_STEP);
    let reach_x = bounds.half_width - SHIP_RADIUS;
    let reach_y = bounds.half_height - SHIP_RADIUS;
    let x = clamp(ship.position.0.x + step.x, -reach_x, reach_x);
    let y = clamp(ship.position.0.y + step.y, -reach_y, reach_y);
    Ship { position: Position(Vec2 { x, y }), ..ship }
}

/// Advances one coordinate by one tick of free flight between the walls.
fn bounce(position: i64, velocity: i64, limit: i64) -> (r: (i64, i64))
    requires
        -COORD_MAX <= position <= COORD_MAX,
        -COORD_MAX <= velocity <= COORD_MAX,
        0 <= limit <= COORD_MAX,
    ensures
        r.0 == bounced(position as int, velocity as int, limit as int).0,
        r.1 == bounced(position as int, velocity as int, limit as int).1,
{
    proof {
        lemma_trunc_div_bounds(velocity as int, TICK_RATE as int);
    }
    let p = position + div_toward_zero(velocity, TICK_RATE);
    if p > limit || p < -limit {
        (clamp(p, -limit, limit), -velocity)
    } else {
        (p, velocity)
    }
}

/// Moves one enemy by one tick.
pub fn move_enemy(enemy: Enemy, bounds: &ArenaBounds) -> (moved: Enemy)
    requires
        enemy.wf(),
        bounds.wf(),
    ensures
        moved == enemy_moved(enemy, *bounds),
        moved.wf(),
{
    proof {
        lemma_enemy_moved(enemy, *bounds);
    }
    match enemy.orbit {
        Some(orbit) => {
            proof {
                lemma_trunc_div_bounds(orbit.speed as int, TICK_RATE as int);
                lemma_heading_length(
                    orbit_advanced(orbit).angle as int,
                    orbit.radius as int,
                );
            }
            let angle = wrap_angle(orbit.angle + div_toward_zero(orbit.speed, TICK_RATE));
            let arm = heading_of(angle, orbit.radius);
            let next = OrbitData { angle, ..orbit };
            Enemy {
                position: Position(
                    Vec2 { x: orbit.center.x + arm.x, y: orbit.center.y + arm.y },
                ),
                orbit: Some(next),
                ..enemy
            }
        },
        None => {
            let x = bounce(
                enemy.position.0.x,
                enemy.velocity.0.x,
                bounds.half_width - ENEMY_RADIUS,
            );
            let y = bounce(
                enemy.position.0.y,
                enemy.velocity.0.y,
                bounds.half_height - ENEMY_RADIUS,
            );
            Enemy {
                position: Position(Vec2 { x: x.0, y: y.0 }),
                velocity: Velocity(Vec2 { x: x.1, y: y.1 }),
                ..enemy
            }
        },
    }
}

/// Moves every ship by one tick, under the input it holds.
pub fn ship_movement(world: &mut World)
    requires
        old(world)@.wf(),
    ensures
        final(world)@ == after_ship_movement(old(world)@),
        final(world)@.wf(),
{
    let mut i: usize = 0;
    while i < world.slots.len()
        invariant
            i <= world.slots.len(),
            world.slots.len() == old(world).slots.len(),
            world.wave == old(world).wave,
            world.bounds == old(world).bounds,
            world.bounds.wf(),
            world.slots.len() <= MAX_ENTITIES,
            forall|k: int|
                0 <= k < i ==> world.slots@[k] == slot_after_ship_movement(
                    old(world).slots@[k],
                    world.bounds,
                ),
            forall|k: int| i <= k < world.slots.len() ==> world.slots@[k] == old(world).slots@[k],
            forall|k: int| 0 <= k < world.slots.len() ==> (#[trigger] world.slots@[k]).wf(),
        decreases world.slots.len() - i,
    {
        match world.slots[i] {
            Slot::Ship(ship) => {
                let moved = move_ship(ship, &world.bounds);
                world.slots.set(i, Slot::Ship(moved));
            },
            _ => {},
        }
        i = i + 1;
    }
    proof {
        assert(world@.slots =~= after_ship_movement(old(world)@).slots);
    }
}

/// Moves every enemy by one tick.
pub fn enemy_movement(world: &mut World)
    requires
        old(world)@.wf(),
    ensures
        final(world)@ == after_enemy_movement(old(world)@),
        final(world)@.wf(),
{
    let mut i: usize = 0;
    while i < world.slots.len()
        invariant
            i <= world.slots.len(),
            world.slots.len() == old(world).slots.len(),
            world.wave == old(world).wave,
            world.bounds == old(world).bounds,
            world.bounds.wf(),
            world.slots.len() <= MAX_ENTITIES,
            forall|k: int|
                0 <= k < i ==> world.slots@[k] == slot_after_enemy_movement(
                    old(world).slots@[k],
                    world.bounds,
                ),
            forall|k: int| i <= k < world.slots.len() ==> world.slots@[k] == old(world).slots@[k],
            forall|k: int| 0 <= k < world.slots.len() ==> (#[trigger] world.slots@[k]).wf(),
        decreases world.slots.len() - i,
    {
        match world.slots[i] {
            Slot::Enemy(enemy) => {
                let moved = move_enemy(enemy, &world.bounds);
                world.slots.set(i, Slot::Enemy(moved));
            },
            _ => {},
        }
        i = i + 1;
    }
    proof {
        assert(world@.slots =~= after_enemy_movement(old(world)@).slots);
    }
}

} // verus!
