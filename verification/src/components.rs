//! The data that entities carry, the two game resources, and the tuning
//! constants.
//!
//! Distances are in fixed-point steps (`UNIT` to the world unit), speeds in
//! steps per second, angles in microradians, and timers in ticks.

use vstd::prelude::*;
use crate::angle::FULL_TURN;
use crate::protocol::PlayerInput;
use crate::vec2::{Vec2, COORD_MAX};

verus! {

/// Simulation steps per second.
pub const TICK_RATE: i64 = 60;

/// Speed of a ship under input: 300 units per second.
pub const SHIP_SPEED: i64 = 300_000;

/// Distance that a ship under input covers in one tick.
pub const SHIP_STEP: i64 = 5_000;

pub const SHIP_RADIUS: i64 = 15_000;

pub const ENEMY_RADIUS: i64 = 10_000;

/// Speed of a drifter: 120 units per second.
pub const DRIFTER_SPEED: i64 = 120_000;

/// Speed of a chaser: 150 units per second.
pub const CHASER_SPEED: i64 = 150_000;

/// Distance that a chaser covers in one tick.
pub const CHASER_STEP: i64 = 2_500;

/// Angular speed of an orbiter: 2 radians per second.
pub const ORBITER_SPEED: i64 = 2_000_000;

pub const ORBITER_RADIUS: i64 = 80_000;

/// Ticks that a dead ship waits before it comes back: 2 seconds.
pub const RESPAWN_TIME: u32 = 120;

/// Ticks of invulnerability granted on respawn: 1 second.
pub const INVULNERABLE_TIME: u32 = 60;

/// Ticks of pause between two waves: 3 seconds.
pub const WAVE_BREATHER: u32 = 180;

/// Largest radius an entity or an orbit may have.
pub const RADIUS_MAX: i64 = 400_000_000;

/// Largest magnitude of a coordinate of an orbit's centre. With
/// `RADIUS_MAX` this keeps every point of an orbit within `COORD_MAX`.
pub const CENTER_MAX: i64 = 600_000_000;

/// Largest magnitude of an orbiter's angular speed.
pub const ANGULAR_SPEED_MAX: i64 = 1_000_000_000_000;

/// One of the two teams. Ships and enemies both belong to one.
#[derive(Clone, Copy, Debug, PartialEq, Eq, Hash, Structural)]
pub enum TeamColor {
    Red,
    Blue,
}

impl TeamColor {
    pub open spec fn spec_opposite(self) -> TeamColor {
        match self {
            TeamColor::Red => TeamColor::Blue,
            TeamColor::Blue => TeamColor::Red,
        }
    }

    /// The other team.
    #[verifier::when_used_as_spec(spec_opposite)]
    pub fn opposite(self) -> (other: TeamColor)
        ensures
            other == self.spec_opposite(),
            other != self,
    {
        match self {
            TeamColor::Red => TeamColor::Blue,
            TeamColor::Blue => TeamColor::Red,
        }
    }
}

/// There are two teams: the opposite of the opposite is the team itself, and
/// a team differs from another exactly when that one is its opposite.
pub proof fn lemma_opposite_involution(a: TeamColor, b: TeamColor)
    ensures
        a.opposite().opposite() == a,
        a != b <==> b == a.opposite(),
{
}

#[derive(Clone, Copy, Debug, PartialEq, Eq, Structural)]
pub struct Position(pub Vec2);

#[derive(Clone, Copy, Debug, PartialEq, Eq, Structural)]
pub struct Velocity(pub Vec2);

#[derive(Clone, Copy, Debug, PartialEq, Eq, Structural)]
pub struct Radius(pub i64);

/// The client that controls a ship.
#[derive(Clone, Copy, Debug, PartialEq, Eq, Structural)]
pub struct OwnedBy(pub u64);

/// Whether a ship is alive, and its two timers.
#[derive(Clone, Copy, Debug, PartialEq, Eq, Structural)]
pub struct Health {
    pub alive: bool,
    /// Ticks until a dead ship comes back.
    pub respawn_timer: u32,
    /// Ticks of invulnerability that are left.
    pub invulnerable_timer: u32,
}

impl Health {
    /// Alive, with no timer running.
    pub open spec fn fresh() -> Health {
        Health { alive: true, respawn_timer: 0, invulnerable_timer: 0 }
    }
}

impl Default for Health {
    fn default() -> (h: Health)
        ensures
            h == Health::fresh(),
    {
        Health { alive: true, respawn_timer: 0, invulnerable_timer: 0 }
    }
}

/// How an enemy moves: in a straight line between the walls, after the
/// nearest ship of the other team, or on a circle.
#[derive(Clone, Copy, Debug, PartialEq, Eq, Structural)]
pub enum EnemyType {
    Drifter,
    Chaser,
    Orbiter,
}

/// The circle an orbiter runs on, and where on it the orbiter is.
#[derive(Clone, Copy, Debug, PartialEq, Eq, Structural)]
pub struct OrbitData {
    pub center: Vec2,
    pub radius: i64,
    /// Phase, in `[0, FULL_TURN)`.
    pub angle: i64,
    /// Microradians per second; the sign gives the sense of rotation.
    pub speed: i64,
}

impl OrbitData {
    pub open spec fn wf(self) -> bool {
        &&& self.center.within(CENTER_MAX as int)
        &&& 0 <= self.radius <= RADIUS_MAX
        &&& 0 <= self.angle < FULL_TURN
        &&& -ANGULAR_SPEED_MAX <= self.speed <= ANGULAR_SPEED_MAX
    }

    pub fn is_wf(&self) -> (b: bool)
        ensures
            b == self.wf(),
    {
        in_range(self.center, CENTER_MAX) && 0 <= self.radius && self.radius <= RADIUS_MAX && 0
            <= self.angle && self.angle < FULL_TURN && -ANGULAR_SPEED_MAX <= self.speed
            && self.speed <= ANGULAR_SPEED_MAX
    }
}

/// Tells whether both components of `v` lie within `bound` of zero.
pub fn in_range(v: Vec2, bound: i64) -> (b: bool)
    requires
        bound >= 0,
    ensures
        b == v.within(bound as int),
{
    -bound <= v.x && v.x <= bound && -bound <= v.y && v.y <= bound
}

/// A player's ship with everything attached to it.
#[derive(Clone, Copy, Debug, PartialEq, Eq, Structural)]
pub struct Ship {
    pub owner: OwnedBy,
    pub color: TeamColor,
    pub position: Position,
    pub velocity: Velocity,
    pub radius: Radius,
    pub health: Health,
    /// The direction most recently received from the owner.
    pub input: PlayerInput,
}

impl Ship {
    pub open spec fn wf(self) -> bool {
        &&& self.position.0.within(COORD_MAX as int)
        &&& self.velocity.0.within(COORD_MAX as int)
        &&& 0 <= self.radius.0 <= RADIUS_MAX
        &&& self.input.valid()
    }

    /// A ship as it is when its owner connects: at rest at `position`, alive,
    /// with no input.
    pub open spec fn fresh(owner: OwnedBy, color: TeamColor, position: Vec2) -> Ship {
        Ship {
            owner,
            color,
            position: Position(position),
            velocity: Velocity(Vec2 { x: 0, y: 0 }),
            radius: Radius(SHIP_RADIUS),
            health: Health::fresh(),
            input: PlayerInput { direction: Vec2 { x: 0, y: 0 } },
        }
    }

    pub fn is_wf(&self) -> (b: bool)
        ensures
            b == self.wf(),
    {
        in_range(self.position.0, COORD_MAX) && in_range(self.velocity.0, COORD_MAX) && 0
            <= self.radius.0 && self.radius.0 <= RADIUS_MAX && self.input.is_valid()
    }

    /// A fresh ship.
    pub fn new(owner: OwnedBy, color: TeamColor, position: Vec2) -> (ship: Ship)
        ensures
            ship == Ship::fresh(owner, color, position),
    {
        Ship {
            owner,
            color,
            position: Position(position),
            velocity: Velocity(Vec2::zero()),
            radius: Radius(SHIP_RADIUS),
            health: Health::default(),
            input: PlayerInput { direction: Vec2::zero() },
        }
    }
}

/// A server-controlled enemy. One that carries orbit data runs on its
/// circle; any other moves along its velocity.
#[derive(Clone, Copy, Debug, PartialEq, Eq, Structural)]
pub struct Enemy {
    pub color: TeamColor,
    pub kind: EnemyType,
    pub position: Position,
    pub velocity: Velocity,
    pub radius: Radius,
    pub orbit: Option<OrbitData>,
}

impl Enemy {
    pub open spec fn wf(self) -> bool {
        &&& self.position.0.within(COORD_MAX as int)
        &&& self.velocity.0.within(COORD_MAX as int)
        &&& 0 <= self.radius.0 <= RADIUS_MAX
        &&& self.orbit matches Some(orbit) ==> orbit.wf()
    }

    pub fn is_wf(&self) -> (b: bool)
        ensures
            b == self.wf(),
    {
        in_range(self.position.0, COORD_MAX) && in_range(self.velocity.0, COORD_MAX) && 0
            <= self.radius.0 && self.radius.0 <= RADIUS_MAX && match self.orbit {
            Some(orbit) => orbit.is_wf(),
            None => true,
        }
    }

    /// An enemy that moves in a straight line.
    pub open spec fn linear(
        color: TeamColor,
        kind: EnemyType,
        position: Vec2,
        velocity: Vec2,
    ) -> Enemy {
        Enemy {
            color,
            kind,
            position: Position(position),
            velocity: Velocity(velocity),
            radius: Radius(ENEMY_RADIUS),
            orbit: None,
        }
    }

    /// An orbiter, placed at `position` until its first step.
    pub open spec fn orbiting(color: TeamColor, position: Vec2, orbit: OrbitData) -> Enemy {
        Enemy {
            color,
            kind: EnemyType::Orbiter,
            position: Position(position),
            velocity: Velocity(Vec2 { x: 0, y: 0 }),
            radius: Radius(ENEMY_RADIUS),
            orbit: Some(orbit),
        }
    }
}

/// Progress through the waves.
#[derive(Clone, Copy, Debug, PartialEq, Eq, Structural)]
pub struct WaveState {
    pub current_wave: u32,
    pub enemies_remaining: u32,
    /// Ticks of pause that are left; counts only while `active` is false.
    pub breather_timer: u32,
    pub active: bool,
}

impl WaveState {
    /// Before the first wave: pausing, with the pause already over.
    pub open spec fn initial() -> WaveState {
        WaveState { current_wave: 0, enemies_remaining: 0, breather_timer: 0, active: false }
    }
}

impl Default for WaveState {
    fn default() -> (w: WaveState)
        ensures
            w == WaveState::initial(),
    {
        WaveState { current_wave: 0, enemies_remaining: 0, breather_timer: 0, active: false }
    }
}

/// Half the extent of the playable rectangle, which is centred on the origin.
#[derive(Clone, Copy, Debug, PartialEq, Eq, Structural)]
pub struct ArenaBounds {
    pub half_width: i64,
    pub half_height: i64,
}

impl ArenaBounds {
    /// The arena holds a ship and fits the coordinate range.
    pub open spec fn wf(self) -> bool {
        &&& SHIP_RADIUS <= self.half_width <= COORD_MAX
        &&& SHIP_RADIUS <= self.half_height <= COORD_MAX
    }

    pub fn is_wf(&self) -> (b: bool)
        ensures
            b == self.wf(),
    {
        SHIP_RADIUS <= self.half_width && self.half_width <= COORD_MAX && SHIP_RADIUS
            <= self.half_height && self.half_height <= COORD_MAX
    }

    /// 1200 by 800 units.
    pub open spec fn standard() -> ArenaBounds {
        ArenaBounds { half_width: 600_000, half_height: 400_000 }
    }

    /// A circle of radius `radius` around `p` lies inside the arena.
    pub open spec fn contains(self, p: Vec2, radius: int) -> bool {
        &&& -(self.half_width - radius) <= p.x <= self.half_width - radius
        &&& -(self.half_height - radius) <= p.y <= self.half_height - radius
    }
}

impl Default for ArenaBounds {
    fn default() -> (b: ArenaBounds)
        ensures
            b == ArenaBounds::standard(),
            b.wf(),
    {
        ArenaBounds { half_width: 600_000, half_height: 400_000 }
    }
}

} // verus!
