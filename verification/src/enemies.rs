//! The spawner: what a wave consists of and where its enemies appear.
//!
//! Every random choice is one uniform draw of an integer. `spawn_from_rolls`
//! turns the draws for one enemy into that enemy, and its contract says
//! exactly which; `spawn_wave` makes the draws and promises what holds of
//! every outcome.

use vstd::prelude::*;
use crate::angle::{heading, heading_of, lemma_heading_length, FULL_TURN};
use crate::components::{
    ArenaBounds, Enemy, EnemyType, OrbitData, Position, Radius, TeamColor, Velocity,
    DRIFTER_SPEED, ENEMY_RADIUS, ORBITER_RADIUS, ORBITER_SPEED,
};
use crate::vec2::Vec2;
use crate::world::{Slot, World, MAX_ENTITIES};

verus! {

/// Distance between the spawn line and the wall: 20 units.
pub const EDGE_INSET: i64 = 20_000;

/// The kind roll is a draw from `[0, ROLL_RANGE)`.
pub const ROLL_RANGE: i64 = 1_000;

/// Share of orbiters, in parts of `ROLL_RANGE`.
pub const ORBITER_CHANCE: i64 = 200;

/// Largest wave number that can be spawned.
pub const WAVE_MAX: u32 = 1_000_000_000;

/// Share of chasers in wave `wave`, in parts of `ROLL_RANGE`: a tenth per
/// wave, up to six tenths.
pub open spec fn chaser_chance(wave: int) -> int {
    if wave >= 6 {
        600
    } else {
        100 * wave
    }
}

/// Number of enemies in wave `wave`.
pub open spec fn wave_size(wave: int) -> int {
    3 * wave + 2
}

/// The kind that a roll selects: chasers below the chaser share, orbiters
/// in the band above it, drifters beyond.
pub open spec fn kind_for(wave: int, roll: int) -> EnemyType {
    if roll < chaser_chance(wave) {
        EnemyType::Chaser
    } else if roll < chaser_chance(wave) + ORBITER_CHANCE {
        EnemyType::Orbiter
    } else {
        EnemyType::Drifter
    }
}

/// Half the extent of the region that orbit centres are drawn from: the
/// inner six tenths of the arena.
pub open spec fn inner_extent(half: int) -> int {
    half * 3 / 5
}

/// The point at `along` on spawn line `side` (top, bottom, right, left).
pub open spec fn edge_point(side: int, along: int, bounds: ArenaBounds) -> Vec2 {
    if side == 0 {
        Vec2 { x: along as i64, y: (bounds.half_height - EDGE_INSET) as i64 }
    } else if side == 1 {
        Vec2 { x: along as i64, y: (-bounds.half_height + EDGE_INSET) as i64 }
    } else if side == 2 {
        Vec2 { x: (bounds.half_width - EDGE_INSET) as i64, y: along as i64 }
    } else {
        Vec2 { x: (-bounds.half_width + EDGE_INSET) as i64, y: along as i64 }
    }
}

/// The point lies on one of the four spawn lines, which run parallel to the
/// walls at a distance of `EDGE_INSET` and span the arena.
pub open spec fn on_spawn_line(p: Vec2, bounds: ArenaBounds) -> bool {
    ||| (p.y == bounds.half_height - EDGE_INSET || p.y == -bounds.half_height + EDGE_INSET)
        && -bounds.half_width <= p.x < bounds.half_width
    ||| (p.x == bounds.half_width - EDGE_INSET || p.x == -bounds.half_width + EDGE_INSET)
        && -bounds.half_height <= p.y < bounds.half_height
}

/// The draws that decide one enemy. A draw that the enemy's kind does not
/// use is zero.
#[derive(Clone, Copy, Debug, PartialEq, Eq, Structural)]
pub struct SpawnRolls {
    /// Team: 0 is red, 1 is blue.
    pub team: i64,
    /// Kind roll, in `[0, ROLL_RANGE)`.
    pub kind: i64,
    /// Spawn line, in `[0, 4)`.
    pub side: i64,
    /// Place along the spawn line.
    pub along: i64,
    /// Drifters: direction of flight. Orbiters: initial phase.
    pub angle: i64,
    /// Orbiters: centre of the orbit.
    pub center: Vec2,
    /// Orbiters: sense of rotation, 0 or 1.
    pub sense: i64,
}

impl SpawnRolls {
    /// Every draw lies in the range it was drawn from.
    pub open spec fn valid(self, bounds: ArenaBounds) -> bool {
        &&& 0 <= self.team < 2
        &&& 0 <= self.kind < ROLL_RANGE
        &&& 0 <= self.side < 4
        &&& self.side < 2 ==> -bounds.half_width <= self.along < bounds.half_width
        &&& self.side >= 2 ==> -bounds.half_height <= self.along < bounds.half_height
        &&& 0 <= self.angle < FULL_TURN
        &&& -inner_extent(bounds.half_width as int) <= self.center.x < inner_extent(
            bounds.half_width as int,
        )
        &&& -inner_extent(bounds.half_height as int) <= self.center.y < inner_extent(
            bounds.half_height as int,
        )
        &&& 0 <= self.sense < 2
    }
}

/// The team that a draw selects.
pub open spec fn team_for(draw: int) -> TeamColor {
    if draw == 0 {
        TeamColor::Red
    } else {
        TeamColor::Blue
    }
}

/// The enemy that the draws decide. A drifter flies at `DRIFTER_SPEED` in
/// the drawn direction; a chaser starts at rest; an orbiter gets the drawn
/// centre and phase, the standard radius, and the standard angular speed in
/// the drawn sense.
pub open spec fn spawned(rolls: SpawnRolls, wave: int, bounds: ArenaBounds) -> Enemy {
    let color = team_for(rolls.team as int);
    let position = edge_point(rolls.side as int, rolls.along as int, bounds);
    match kind_for(wave, rolls.kind as int) {
        EnemyType::Drifter => Enemy::linear(
            color,
            EnemyType::Drifter,
            position,
            heading(rolls.angle as int, DRIFTER_SPEED as int),
        ),
        EnemyType::Chaser => Enemy::linear(
            color,
            EnemyType::Chaser,
            position,
            Vec2 { x: 0, y: 0 },
        ),
        EnemyType::Orbiter => Enemy::orbiting(
            color,
            position,
            OrbitData {
                center: rolls.center,
                radius: ORBITER_RADIUS,
                angle: rolls.angle,
                speed: if rolls.sense == 0 {
                    ORBITER_SPEED
                } else {
                    (-ORBITER_SPEED) as i64
                },
            },
        ),
    }
}

/// The enemy is one that the spawner can produce for wave `wave`.
pub open spec fn spawnable(enemy: Enemy, wave: int, bounds: ArenaBounds) -> bool {
    exists|rolls: SpawnRolls| rolls.valid(bounds) && enemy == #[trigger] spawned(rolls, wave, bounds)
}

/// Whatever the draws, a spawned enemy is well formed, appears on a spawn
/// line and never inside it, has the standard radius, and carries exactly
/// the motion data of its kind.
pub proof fn lemma_spawned(rolls: SpawnRolls, wave: int, bounds: ArenaBounds)
    requires
        rolls.valid(bounds),
        bounds.wf(),
    ensures
        ({
            let e = spawned(rolls, wave, bounds);
            &&& e.wf()
            &&& on_spawn_line(e.position.0, bounds)
            &&& e.radius == Radius(ENEMY_RADIUS)
            &&& e.kind == kind_for(wave, rolls.kind as int)
            &&& e.kind == EnemyType::Orbiter <==> e.orbit is Some
            &&& e.kind != EnemyType::Drifter ==> e.velocity == Velocity(Vec2 { x: 0, y: 0 })
            &&& e.kind == EnemyType::Drifter ==> {
                let speed = DRIFTER_SPEED as int;
                &&& speed * speed - 4 * speed - 2 < e.velocity.0.norm_sq()
                &&& e.velocity.0.norm_sq() < (speed + 1) * (speed + 1)
            }
            &&& e.orbit matches Some(orbit) ==> {
                &&& orbit.radius == ORBITER_RADIUS
                &&& (orbit.speed == ORBITER_SPEED || orbit.speed == -ORBITER_SPEED)
            }
        }),
{
    lemma_heading_length(rolls.angle as int, DRIFTER_SPEED as int);
}

/// No kind is left out and none is favoured beyond its share: of the
/// `ROLL_RANGE` rolls, `chaser_chance` select a chaser, `ORBITER_CHANCE` an
/// orbiter, and the rest a drifter.
pub proof fn lemma_kind_shares(wave: int, roll: int)
    requires
        wave >= 0,
        0 <= roll < ROLL_RANGE,
    ensures
        0 <= chaser_chance(wave) <= 600,
        kind_for(wave, roll) == EnemyType::Chaser <==> roll < chaser_chance(wave),
        kind_for(wave, roll) == EnemyType::Orbiter <==> chaser_chance(wave) <= roll
            < chaser_chance(wave) + ORBITER_CHANCE,
        kind_for(wave, roll) == EnemyType::Drifter <==> chaser_chance(wave) + ORBITER_CHANCE
            <= roll,
{
}

/// The kind that a roll selects in wave `wave`.
pub fn kind_for_roll(wave: u32, roll: i64) -> (kind: EnemyType)
    ensures
        kind == kind_for(wave as int, roll as int),
{
    let chasers: i64 = if wave >= 6 {
        600
    } else {
        100 * (wave as i64)
    };
    if roll < chasers {
        EnemyType::Chaser
    } else if roll < chasers + ORBITER_CHANCE {
        EnemyType::Orbiter
    } else {
        EnemyType::Drifter
    }
}

/// The point at `along` on spawn line `side`.
pub fn edge_position(side: i64, along: i64, bounds: &ArenaBounds) -> (p: Vec2)
    requires
        bounds.wf(),
    ensures
        p == edge_point(side as int, along as int, *bounds),
{
    if side == 0 {
        Vec2 { x: along, y: bounds.half_height - EDGE_INSET }
    } else if side == 1 {
        Vec2 { x: along, y: -bounds.half_height + EDGE_INSET }
    } else if side == 2 {
        Vec2 { x: bounds.half_width - EDGE_INSET, y: along }
    } else {
        Vec2 { x: -bounds.half_width + EDGE_INSET, y: along }
    }
}

/// Builds the enemy that the draws decide.
pub fn spawn_from_rolls(rolls: &SpawnRolls, wave: u32, bounds: &ArenaBounds) -> (enemy: Enemy)
    requires
        rolls.valid(*bounds),
        bounds.wf(),
    ensures
        enemy == spawned(*rolls, wave as int, *bounds),
        enemy.wf(),
        on_spawn_line(enemy.position.0, *bounds),
{
    proof {
        lemma_spawned(*rolls, wave as int, *bounds);
    }
    let color = if rolls.team == 0 {
        TeamColor::Red
    } else {
        TeamColor::Blue
    };
    let position = edge_position(rolls.side, rolls.along, bounds);
    match kind_for_roll(wave, rolls.kind) {
        EnemyType::Drifter => Enemy {
            color,
            kind: EnemyType::Drifter,
            position: Position(position),
            velocity: Velocity(heading_of(rolls.angle, DRIFTER_SPEED)),
            radius: Radius(ENEMY_RADIUS),
            orbit: None,
        },
        EnemyType::Chaser => Enemy {
            color,
            kind: EnemyType::Chaser,
            position: Position(position),
            velocity: Velocity(Vec2::zero()),
            radius: Radius(ENEMY_RADIUS),
            orbit: None,
        },
        EnemyType::Orbiter => Enemy {
            color,
            kind: EnemyType::Orbiter,
            position: Position(position),
            velocity: Velocity(Vec2::zero()),
            radius: Radius(ENEMY_RADIUS),
            orbit: Some(
                OrbitData {
                    center: rolls.center,
                    radius: ORBITER_RADIUS,
                    angle: rolls.angle,
                    speed: if rolls.sense == 0 {
                        ORBITER_SPEED
                    } else {
                        -ORBITER_SPEED
                    },
                },
            ),
        },
    }
}

/// `rand::rngs::ThreadRng`, the handle to a thread's random number
/// generator. It is carried from `rand::rng` to `random_range` and never
/// looked into.
#[verifier::external_type_specification]
#[verifier::external_body]
pub struct ExThreadRng(rand::rngs::ThreadRng);

/// `rand::rng`: a handle to the calling thread's generator. Nothing is
/// claimed about it.
#[verifier::external_body]
fn thread_generator() -> rand::rngs::ThreadRng {
    rand::rng()
}

/// `rand::Rng::random_range` on a half-open range of `i64`: the value drawn
/// lies in the range. The range must not be empty, or the call would panic.
#[verifier::external_body]
fn random_in(rng: &mut rand::rngs::ThreadRng, low: i64, high: i64) -> (r: i64)
    requires
        low < high,
    ensures
        low <= r < high,
{
    rand::Rng::random_range(rng, low..high)
}

/// Draws a point on one of the four spawn lines.
fn random_edge_position(rng: &mut rand::rngs::ThreadRng, bounds: &ArenaBounds) -> (r: (i64, i64))
    requires
        bounds.wf(),
    ensures
        0 <= r.0 < 4,
        r.0 < 2 ==> -bounds.half_width <= r.1 < bounds.half_width,
        r.0 >= 2 ==> -bounds.half_height <= r.1 < bounds.half_height,
{
    let side = random_in(rng, 0, 4);
    let along = if side < 2 {
        random_in(rng, -bounds.half_width, bounds.half_width)
    } else {
        random_in(rng, -bounds.half_height, bounds.half_height)
    };
    (side, along)
}

/// Makes the draws for one enemy of wave `wave`, in a fixed order: team,
/// kind, spawn line, place, and then what the kind calls for.
fn draw_rolls(rng: &mut rand::rngs::ThreadRng, wave: u32, bounds: &ArenaBounds) -> (rolls:
    SpawnRolls)
    requires
        bounds.wf(),
    ensures
        rolls.valid(*bounds),
        only_needed_draws(rolls, wave as int),
{
    let team = random_in(rng, 0, 2);
    let kind = random_in(rng, 0, ROLL_RANGE);
    let (side, along) = random_edge_position(rng, bounds);
    let mut rolls = SpawnRolls { team, kind, side, along, angle: 0, center: Vec2::zero(), sense: 0 };
    match kind_for_roll(wave, kind) {
        EnemyType::Drifter => {
            rolls.angle = random_in(rng, 0, FULL_TURN);
        },
        EnemyType::Chaser => {},
        EnemyType::Orbiter => {
            let inner_x = bounds.half_width * 3 / 5;
            let inner_y = bounds.half_height * 3 / 5;
            let x = random_in(rng, -inner_x, inner_x);
            let y = random_in(rng, -inner_y, inner_y);
            rolls.center = Vec2 { x, y };
            rolls.angle = random_in(rng, 0, FULL_TURN);
            rolls.sense = random_in(rng, 0, 2);
        },
    }
    rolls
}

/// Only the draws that the enemy's kind calls for were made, and every
/// other is zero: a chaser needs neither an angle nor an orbit, a drifter
/// needs no orbit.
pub open spec fn only_needed_draws(rolls: SpawnRolls, wave: int) -> bool {
    match kind_for(wave, rolls.kind as int) {
        EnemyType::Drifter => rolls.center == (Vec2 { x: 0, y: 0 }) && rolls.sense == 0,
        EnemyType::Chaser => rolls.angle == 0 && rolls.center == (Vec2 { x: 0, y: 0 })
            && rolls.sense == 0,
        EnemyType::Orbiter => true,
    }
}

/// Spawns wave `wave`: `3 * wave + 2` enemies are appended to the world and
/// nothing else changes. Which enemies they are is left to chance; each is
/// one that the spawner can produce, so each is well formed and sits on a
/// spawn line.
pub fn spawn_wave(world: &mut World, wave: u32)
    requires
        old(world)@.wf(),
        wave <= WAVE_MAX,
        old(world)@.slots.len() + wave_size(wave as int) <= MAX_ENTITIES,
    ensures
        final(world)@.wf(),
        final(world)@.wave == old(world)@.wave,
        final(world)@.bounds == old(world)@.bounds,
        final(world)@.slots.len() == old(world)@.slots.len() + wave_size(wave as int),
        final(world)@.slots.take(old(world)@.slots.len() as int) == old(world)@.slots,
        forall|i: int|
            old(world)@.slots.len() <= i < final(world)@.slots.len() ==> {
                &&& (#[trigger] final(world)@.slots[i]) is Enemy
                &&& spawnable(
                    final(world)@.slots[i]->Enemy_0,
                    wave as int,
                    old(world)@.bounds,
                )
                &&& on_spawn_line(final(world)@.slots[i]->Enemy_0.position.0, old(world)@.bounds)
            },
{
    let count: u32 = wave * 3 + 2;
    let mut rng = thread_generator();
    let mut made: u32 = 0;
    while made < count
        invariant
            made <= count,
            count == wave_size(wave as int),
            world@.wf(),
            world@.wave == old(world)@.wave,
            world@.bounds == old(world)@.bounds,
            old(world)@.slots.len() + count <= MAX_ENTITIES,
            world@.slots.len() == old(world)@.slots.len() + made,
            world@.slots.take(old(world)@.slots.len() as int) == old(world)@.slots,
            forall|i: int|
                old(world)@.slots.len() <= i < world@.slots.len() ==> {
                    &&& (#[trigger] world@.slots[i]) is Enemy
                    &&& spawnable(world@.slots[i]->Enemy_0, wave as int, old(world)@.bounds)
                    &&& on_spawn_line(world@.slots[i]->Enemy_0.position.0, old(world)@.bounds)
                },
        decreases count - made,
    {
        let rolls = draw_rolls(&mut rng, wave, &world.bounds);
        let enemy = spawn_from_rolls(&rolls, wave, &world.bounds);
        let ghost before = world@.slots;
        world.spawn(Slot::Enemy(enemy));
        proof {
            assert(world@.slots.take(old(world)@.slots.len() as int) =~= before.take(
                old(world)@.slots.len() as int,
            ));
            assert forall|i: int| old(world)@.slots.len() <= i < world@.slots.len() implies {
                &&& (#[trigger] world@.slots[i]) is Enemy
                &&& spawnable(world@.slots[i]->Enemy_0, wave as int, old(world)@.bounds)
                &&& on_spawn_line(world@.slots[i]->Enemy_0.position.0, old(world)@.bounds)
            } by {
                if i < before.len() {
                    assert(world@.slots[i] == before[i]);
                }
            }
        }
        made = made + 1;
    }
}

} // verus!
