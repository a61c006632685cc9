//! A self-contained simulation: one world, driven tick by tick, with the
//! handful of calls needed to set up a scene and look at the outcome.

use vstd::prelude::*;
use crate::components::{
    ArenaBounds, Enemy, EnemyType, OrbitData, OwnedBy, Position, Radius, Ship, TeamColor,
    Velocity, WaveState, CENTER_MAX, DRIFTER_SPEED, ENEMY_RADIUS, ORBITER_RADIUS, ORBITER_SPEED,
    RADIUS_MAX,
};
use crate::math::floor_sqrt;
use crate::protocol::PlayerInput;
use crate::systems::{after_ticks, tick};
use crate::vec2::{Vec2, COORD_MAX};
use crate::world::{count_enemies, Entity, Slot, World, WorldView, MAX_ENTITIES};

verus! {

/// A simulation that runs on its own, without a network.
pub struct GameSim {
    pub world: World,
}

impl View for GameSim {
    type V = WorldView;

    open spec fn view(&self) -> WorldView {
        self.world@
    }
}

/// Where the entity in a slot is; the origin for a vacant slot.
pub open spec fn position_of(slot: Slot) -> Vec2 {
    match slot {
        Slot::Ship(ship) => ship.position.0,
        Slot::Enemy(enemy) => enemy.position.0,
        Slot::Vacant => Vec2 { x: 0, y: 0 },
    }
}

/// The velocity of the entity in a slot; zero for a vacant slot.
pub open spec fn velocity_of(slot: Slot) -> Vec2 {
    match slot {
        Slot::Ship(ship) => ship.velocity.0,
        Slot::Enemy(enemy) => enemy.velocity.0,
        Slot::Vacant => Vec2 { x: 0, y: 0 },
    }
}

/// The entity counts as alive: a ship that is alive, or an enemy that
/// exists.
pub open spec fn alive_in(w: WorldView, entity: Entity) -> bool {
    w.contains(entity) && (w.slots[entity.0 as int] matches Slot::Ship(ship)
        ==> ship.health.alive)
}

/// An orbiter as a scene places it: at phase zero on a circle of radius
/// `radius` around `center`, turning at the standard speed.
pub open spec fn placed_orbiter(color: TeamColor, center: Vec2, radius: i64) -> Enemy {
    Enemy::orbiting(
        color,
        Vec2 { x: (center.x + radius) as i64, y: center.y },
        OrbitData { center, radius, angle: 0, speed: ORBITER_SPEED },
    )
}

/// An enemy of the given kind as a scene places it at `pos`: a drifter
/// flying along the x axis, a chaser at rest, or an orbiter on the standard
/// circle around `pos`.
pub open spec fn placed_enemy(kind: EnemyType, color: TeamColor, pos: Vec2) -> Enemy {
    match kind {
        EnemyType::Drifter => Enemy::linear(
            color,
            EnemyType::Drifter,
            pos,
            Vec2 { x: DRIFTER_SPEED, y: 0 },
        ),
        EnemyType::Chaser => Enemy::linear(color, EnemyType::Chaser, pos, Vec2 { x: 0, y: 0 }),
        EnemyType::Orbiter => placed_orbiter(color, pos, ORBITER_RADIUS),
    }
}

impl GameSim {
    /// An empty simulation in the standard arena.
    pub fn new() -> (sim: GameSim)
        ensures
            sim@.wf(),
            sim@.slots == Seq::<Slot>::empty(),
            sim@.wave == WaveState::initial(),
            sim@.bounds == ArenaBounds::standard(),
    {
        GameSim { world: World::new(ArenaBounds::default()) }
    }

    /// Adds a ship at `pos`: alive, at rest, without input, and owned by a
    /// client numbered like its slot.
    pub fn spawn_player(&mut self, color: TeamColor, pos: Vec2) -> (entity: Entity)
        requires
            old(self)@.wf(),
            old(self)@.slots.len() < MAX_ENTITIES,
            pos.within(COORD_MAX as int),
        ensures
            final(self)@.wf(),
            entity.0 == old(self)@.slots.len(),
            final(self)@ == old(self)@.with_slots(
                old(self)@.slots.push(
                    Slot::Ship(Ship::fresh(OwnedBy(entity.0 as u64), color, pos)),
                ),
            ),
    {
        let owner = OwnedBy(self.world.slots.len() as u64);
        self.world.spawn(Slot::Ship(Ship::new(owner, color, pos)))
    }

    /// Adds a drifter at `pos` with velocity `vel`.
    pub fn spawn_drifter(&mut self, color: TeamColor, pos: Vec2, vel: Vec2) -> (entity: Entity)
        requires
            old(self)@.wf(),
            old(self)@.slots.len() < MAX_ENTITIES,
            pos.within(COORD_MAX as int),
            vel.within(COORD_MAX as int),
        ensures
            final(self)@.wf(),
            entity.0 == old(self)@.slots.len(),
            final(self)@ == old(self)@.with_slots(
                old(self)@.slots.push(
                    Slot::Enemy(Enemy::linear(color, EnemyType::Drifter, pos, vel)),
                ),
            ),
    {
        self.world.spawn(
            Slot::Enemy(
                Enemy {
                    color,
                    kind: EnemyType::Drifter,
                    position: Position(pos),
                    velocity: Velocity(vel),
                    radius: Radius(ENEMY_RADIUS),
                    orbit: None,
                },
            ),
        )
    }

    /// Adds a chaser at rest at `pos`.
    pub fn spawn_chaser(&mut self, color: TeamColor, pos: Vec2) -> (entity: Entity)
        requires
            old(self)@.wf(),
            old(self)@.slots.len() < MAX_ENTITIES,
            pos.within(COORD_MAX as int),
        ensures
            final(self)@.wf(),
            entity.0 == old(self)@.slots.len(),
            final(self)@ == old(self)@.with_slots(
                old(self)@.slots.push(
                    Slot::Enemy(
                        Enemy::linear(color, EnemyType::Chaser, pos, Vec2 { x: 0, y: 0 }),
                    ),
                ),
            ),
    {
        self.world.spawn(
            Slot::Enemy(
                Enemy {
                    color,
                    kind: EnemyType::Chaser,
                    position: Position(pos),
                    velocity: Velocity(Vec2::zero()),
                    radius: Radius(ENEMY_RADIUS),
                    orbit: None,
                },
            ),
        )
    }

    /// Adds an orbiter on the circle of radius `radius` around `center`.
    pub fn spawn_orbiter(&mut self, color: TeamColor, center: Vec2, radius: i64) -> (entity:
        Entity)
        requires
            old(self)@.wf(),
            old(self)@.slots.len() < MAX_ENTITIES,
            center.within(CENTER_MAX as int),
            0 <= radius <= RADIUS_MAX,
        ensures
            final(self)@.wf(),
            entity.0 == old(self)@.slots.len(),
            final(self)@ == old(self)@.with_slots(
                old(self)@.slots.push(Slot::Enemy(placed_orbiter(color, center, radius))),
            ),
    {
        self.world.spawn(
            Slot::Enemy(
                Enemy {
                    color,
                    kind: EnemyType::Orbiter,
                    position: Position(Vec2 { x: center.x + radius, y: center.y }),
                    velocity: Velocity(Vec2::zero()),
                    radius: Radius(ENEMY_RADIUS),
                    orbit: Some(OrbitData { center, radius, angle: 0, speed: ORBITER_SPEED }),
                },
            ),
        )
    }

    /// Adds an enemy of the given kind at `pos`, with the motion that is
    /// usual for the kind.
    pub fn spawn_enemy(&mut self, etype: EnemyType, color: TeamColor, pos: Vec2) -> (entity:
        Entity)
        requires
            old(self)@.wf(),
            old(self)@.slots.len() < MAX_ENTITIES,
            pos.within(COORD_MAX as int),
            etype == EnemyType::Orbiter ==> pos.within(CENTER_MAX as int),
        ensures
            final(self)@.wf(),
            entity.0 == old(self)@.slots.len(),
            final(self)@ == old(self)@.with_slots(
                old(self)@.slots.push(Slot::Enemy(placed_enemy(etype, color, pos))),
            ),
    {
        match etype {
            EnemyType::Drifter => self.spawn_drifter(color, pos, Vec2::new(DRIFTER_SPEED, 0)),
            EnemyType::Chaser => self.spawn_chaser(color, pos),
            EnemyType::Orbiter => self.spawn_orbiter(color, pos, ORBITER_RADIUS),
        }
    }

    /// Sets the direction a ship steers in from now on. A direction out of
    /// range, or a handle that is no ship, changes nothing.
    pub fn set_input(&mut self, entity: Entity, direction: Vec2)
        requires
            old(self)@.wf(),
        ensures
            final(self)@.wf(),
            final(self)@ == old(self)@.with_input(entity, PlayerInput { direction }),
    {
        let _ = self.world.set_input(entity, direction);
    }

    /// Runs the simulation for `ticks` ticks.
    pub fn step(&mut self, ticks: u32)
        requires
            old(self)@.wf(),
        ensures
            final(self)@.wf(),
            final(self)@ == after_ticks(old(self)@, ticks as nat),
    {
        let mut done: u32 = 0;
        while done < ticks
            invariant
                done <= ticks,
                self@.wf(),
                self@ == after_ticks(old(self)@, done as nat),
            decreases ticks - done,
        {
            tick(&mut self.world);
            done = done + 1;
        }
    }

    /// Where an entity is.
    pub fn position(&self, entity: Entity) -> (p: Vec2)
        requires
            self@.contains(entity),
        ensures
            p == position_of(self@.slots[entity.0 as int]),
    {
        match self.world.slots[entity.0] {
            Slot::Ship(ship) => ship.position.0,
            Slot::Enemy(enemy) => enemy.position.0,
            Slot::Vacant => Vec2::zero(),
        }
    }

    /// Tells whether an entity is alive: a ship that is alive, or an enemy
    /// that has not been despawned.
    pub fn is_alive(&self, entity: Entity) -> (b: bool)
        ensures
            b == alive_in(self@, entity),
    {
        match self.world.ship(entity) {
            Some(ship) => ship.health.alive,
            None => self.world.contains(entity),
        }
    }

    /// Tells whether an entity is dead or gone.
    pub fn is_dead(&self, entity: Entity) -> (b: bool)
        ensures
            b == !alive_in(self@, entity),
    {
        !self.is_alive(entity)
    }

    /// The distance between two entities, rounded down to a whole step.
    pub fn distance(&self, a: Entity, b: Entity) -> (d: i64)
        requires
            self@.wf(),
            self@.contains(a),
            self@.contains(b),
        ensures
            d == floor_sqrt(
                position_of(self@.slots[a.0 as int]).dist_sq(
                    position_of(self@.slots[b.0 as int]),
                ) as nat,
            ),
    {
        let pos_a = self.position(a);
        let pos_b = self.position(b);
        pos_a.distance(pos_b)
    }

    /// Tells whether an entity is still in the world.
    pub fn entity_exists(&self, entity: Entity) -> (b: bool)
        ensures
            b == self@.contains(entity),
    {
        self.world.contains(entity)
    }

    /// The velocity of an entity.
    pub fn velocity(&self, entity: Entity) -> (v: Vec2)
        requires
            self@.contains(entity),
        ensures
            v == velocity_of(self@.slots[entity.0 as int]),
    {
        match self.world.slots[entity.0] {
            Slot::Ship(ship) => ship.velocity.0,
            Slot::Enemy(enemy) => enemy.velocity.0,
            Slot::Vacant => Vec2::zero(),
        }
    }

    /// The wave state.
    pub fn wave_state(&self) -> (w: WaveState)
        ensures
            w == self@.wave,
    {
        self.world.wave
    }

    /// Counts the enemies.
    pub fn enemy_count(&mut self) -> (n: usize)
        ensures
            n == count_enemies(old(self)@.slots),
            final(self)@ == old(self)@,
    {
        self.world.enemy_count()
    }
}

impl Default for GameSim {
    fn default() -> (sim: GameSim)
        ensures
            sim@.wf(),
            sim@.slots == Seq::<Slot>::empty(),
            sim@.wave == WaveState::initial(),
            sim@.bounds == ArenaBounds::standard(),
    {
        GameSim::new()
    }
}

} // verus!
