//! Chaser targeting.
//!
//! A chaser steers at the nearest living ship of the other team. Ships are
//! compared in slot order and the first of several equally near ships wins,
//! so the choice does not depend on anything but the world's contents.

use vstd::prelude::*;
use crate::components::{
    ArenaBounds, Enemy, EnemyType, TeamColor, Velocity, CHASER_SPEED, CHASER_STEP,
    ENEMY_RADIUS, TICK_RATE,
};
use crate::math::trunc_div;
use crate::movement::enemy_moved;
use crate::vec2::{
    lemma_component_bound, lemma_magnified_norm_bounds, lemma_scaled_component_of_magnitude,
    lemma_scaled_direction, lemma_scaled_length, Vec2, COORD_MAX, NORM_SCALE, NORM_SCALE_SQ,
};
use crate::world::{Slot, World, WorldView};

verus! {

/// The slot holds a ship that a chaser of team `color` may go after.
pub open spec fn eligible(slot: Slot, color: TeamColor) -> bool {
    slot matches Slot::Ship(ship) && ship.color != color && ship.health.alive
}

/// The squared distance from `from` to the ship in slot `j`.
pub open spec fn range_sq(slots: Seq<Slot>, from: Vec2, j: int) -> int {
    (slots[j]->Ship_0).position.0.dist_sq(from)
}

/// Slot `j` holds the ship that a chaser of team `color` at `from` goes
/// after: an eligible ship, no farther than any other eligible ship, and
/// ahead in slot order of every other one at the same distance.
pub open spec fn is_target(slots: Seq<Slot>, from: Vec2, color: TeamColor, j: int) -> bool {
    &&& 0 <= j < slots.len()
    &&& eligible(slots[j], color)
    &&& forall|k: int|
        0 <= k < slots.len() && eligible(#[trigger] slots[k], color) ==> {
            ||| range_sq(slots, from, j) < range_sq(slots, from, k)
            ||| (range_sq(slots, from, j) == range_sq(slots, from, k) && j <= k)
        }
}

/// Some ship is eligible.
pub open spec fn has_target(slots: Seq<Slot>, color: TeamColor) -> bool {
    exists|j: int| 0 <= j < slots.len() && eligible(#[trigger] slots[j], color)
}

/// The slot of the target; meaningful when there is one.
pub open spec fn target_of(slots: Seq<Slot>, from: Vec2, color: TeamColor) -> int {
    choose|j: int| is_target(slots, from, color, j)
}

/// The velocity of a chaser at `from` that goes after a ship at `to`:
/// `CHASER_SPEED` along the line between them, and zero when they coincide.
pub open spec fn pursuit(from: Vec2, to: Vec2) -> Vec2 {
    Vec2 { x: (to.x - from.x) as i64, y: (to.y - from.y) as i64 }.scaled_to(CHASER_SPEED as int)
}

/// An enemy after targeting: a chaser with a target heads for it, anything
/// else is left alone.
pub open spec fn steered(slots: Seq<Slot>, enemy: Enemy) -> Enemy {
    if enemy.kind == EnemyType::Chaser && has_target(slots, enemy.color) {
        let target = slots[target_of(slots, enemy.position.0, enemy.color)]->Ship_0;
        Enemy { velocity: Velocity(pursuit(enemy.position.0, target.position.0)), ..enemy }
    } else {
        enemy
    }
}

/// A slot after targeting.
pub open spec fn slot_after_ai(slots: Seq<Slot>, slot: Slot) -> Slot {
    match slot {
        Slot::Enemy(enemy) => Slot::Enemy(steered(slots, enemy)),
        _ => slot,
    }
}

/// The world after targeting.
pub open spec fn after_chaser_ai(w: WorldView) -> WorldView {
    w.with_slots(Seq::new(w.slots.len(), |i: int| slot_after_ai(w.slots, w.slots[i])))
}

/// There is at most one target.
pub proof fn lemma_target_unique(slots: Seq<Slot>, from: Vec2, color: TeamColor, a: int, b: int)
    requires
        is_target(slots, from, color, a),
        is_target(slots, from, color, b),
    ensures
        a == b,
{
}

/// A target, once found, is the one that `target_of` names.
pub proof fn lemma_target_found(slots: Seq<Slot>, from: Vec2, color: TeamColor, j: int)
    requires
        is_target(slots, from, color, j),
    ensures
        has_target(slots, color),
        target_of(slots, from, color) == j,
{
    lemma_target_unique(slots, from, color, j, target_of(slots, from, color));
}

/// A pursuing chaser never moves away from its target along either axis:
/// no component of its velocity points against the line to the target, and
/// none exceeds `CHASER_SPEED`.
pub proof fn lemma_pursuit_toward(from: Vec2, to: Vec2)
    requires
        from.within(COORD_MAX as int),
        to.within(COORD_MAX as int),
    ensures
        pursuit(from, to).within(CHASER_SPEED as int),
        to.x >= from.x ==> pursuit(from, to).x >= 0,
        to.x <= from.x ==> pursuit(from, to).x <= 0,
        to.y >= from.y ==> pursuit(from, to).y >= 0,
        to.y <= from.y ==> pursuit(from, to).y <= 0,
        from == to ==> pursuit(from, to) == (Vec2 { x: 0, y: 0 }),
{
    let line = Vec2 { x: (to.x - from.x) as i64, y: (to.y - from.y) as i64 };
    lemma_scaled_direction(line, CHASER_SPEED as int);
}

/// The position of a chaser at `from` after one tick of flight along its
/// pursuit of `to`, walls aside.
pub open spec fn pursuit_step(from: Vec2, to: Vec2) -> Vec2 {
    let v = pursuit(from, to);
    Vec2 {
        x: (from.x + trunc_div(v.x as int, TICK_RATE as int)) as i64,
        y: (from.y + trunc_div(v.y as int, TICK_RATE as int)) as i64,
    }
}

/// A pursuing chaser closes in. If it is at least one tick's flight away
/// from the point it pursues, one tick of flight brings it strictly nearer
/// to that point, and along each axis it ends between where it was and the
/// point, so it neither overshoots nor runs into a wall on the way.
pub proof fn lemma_pursuit_closes_in(from: Vec2, to: Vec2)
    requires
        from.within(COORD_MAX as int),
        to.within(COORD_MAX as int),
        from.dist_sq(to) >= CHASER_STEP * CHASER_STEP,
    ensures
        pursuit_step(from, to).dist_sq(to) < from.dist_sq(to),
        from.x <= to.x ==> from.x <= pursuit_step(from, to).x <= to.x,
        from.x >= to.x ==> from.x >= pursuit_step(from, to).x >= to.x,
        from.y <= to.y ==> from.y <= pursuit_step(from, to).y <= to.y,
        from.y >= to.y ==> from.y >= pursuit_step(from, to).y >= to.y,
{
    let line = Vec2 { x: (to.x - from.x) as i64, y: (to.y - from.y) as i64 };
    let len = CHASER_SPEED as int;
    let k = NORM_SCALE as int;
    let a: int = if line.x >= 0 { line.x as int } else { -line.x };
    let b: int = if line.y >= 0 { line.y as int } else { -line.y };
    assert(line.norm_sq() == from.dist_sq(to)) by (nonlinear_arith)
        requires
            line.x == to.x - from.x,
            line.y == to.y - from.y,
            line.norm_sq() == line.x * line.x + line.y * line.y,
            from.dist_sq(to) == (from.x - to.x) * (from.x - to.x) + (from.y - to.y) * (from.y
                - to.y),
    ;
    assert(a * a + b * b == line.norm_sq()) by (nonlinear_arith)
        requires
            a == line.x || a == -line.x,
            b == line.y || b == -line.y,
            line.norm_sq() == line.x * line.x + line.y * line.y,
    ;
    assert(CHASER_STEP * CHASER_STEP == 6_250_000) by (nonlinear_arith)
        requires
            CHASER_STEP == 2_500,
    ;
    assert(!(line.x == 0 && line.y == 0)) by (nonlinear_arith)
        requires
            line.norm_sq() == line.x * line.x + line.y * line.y,
            line.norm_sq() >= 1,
    ;
    lemma_magnified_norm_bounds(line);
    let n = line.magnified_norm();
    let t = line.norm_sq() * NORM_SCALE_SQ as int;
    // The magnified length is at least a tick's flight, magnified.
    let floor = CHASER_STEP * k;
    assert(floor * floor <= t) by (nonlinear_arith)
        requires
            floor == CHASER_STEP * k,
            t == line.norm_sq() * (k * k),
            line.norm_sq() >= CHASER_STEP * CHASER_STEP,
    ;
    assert(n >= floor) by (nonlinear_arith)
        requires
            floor * floor <= t,
            t < (n + 1) * (n + 1),
            n >= 0,
            floor >= 0,
    ;
    let x = (a * len * k) / n;
    let y = (b * len * k) / n;
    lemma_component_bound(a, b, len, n);
    lemma_component_bound(b, a, len, n);
    lemma_scaled_component_of_magnitude(line.x as int, len, n);
    lemma_scaled_component_of_magnitude(line.y as int, len, n);
    lemma_scaled_length(line, len);
    lemma_scaled_direction(line, len);
    let v = pursuit(from, to);
    assert(v.norm_sq() == x * x + y * y) by (nonlinear_arith)
        requires
            v.x == x || v.x == -x,
            v.y == y || v.y == -y,
            v.norm_sq() == v.x * v.x + v.y * v.y,
    ;
    // Each component of the velocity is at most sixty times that of the line.
    lemma_quotient_bound(a, len, k, n);
    lemma_quotient_bound(b, len, k, n);
    let sx = x / (TICK_RATE as int);
    let sy = y / (TICK_RATE as int);
    // The flight is not nothing.
    if sx == 0 && sy == 0 {
        assert(x * x + y * y < 7_200) by (nonlinear_arith)
            requires
                0 <= x < 60,
                0 <= y < 60,
        ;
        assert(len * len - 4 * len - 2 > 7_200) by (nonlinear_arith)
            requires
                len == 150_000,
        ;
    }
    let step = pursuit_step(from, to);
    let ra = a - sx;
    let rb = b - sy;
    assert(step.dist_sq(to) == ra * ra + rb * rb) by (nonlinear_arith)
        requires
            step.dist_sq(to) == (step.x - to.x) * (step.x - to.x) + (step.y - to.y) * (step.y
                - to.y),
            step.x - to.x == ra || step.x - to.x == -ra,
            step.y - to.y == rb || step.y - to.y == -rb,
    ;
    assert(ra * ra + rb * rb < a * a + b * b) by (nonlinear_arith)
        requires
            ra == a - sx,
            rb == b - sy,
            0 <= sx <= a,
            0 <= sy <= b,
            sx > 0 || sy > 0,
    ;
}

/// A chaser that flies the line it chose gets nearer to the point it
/// chose it for. If the chaser and the point lie between the walls and at
/// least one tick's flight apart, moving the chaser by one tick along its
/// pursuit of the point puts it where `pursuit_step` says, strictly nearer
/// to the point, and keeps its velocity.
pub proof fn lemma_chaser_approaches(enemy: Enemy, to: Vec2, bounds: ArenaBounds)
    requires
        enemy.wf(),
        bounds.wf(),
        enemy.orbit is None,
        enemy.velocity == Velocity(pursuit(enemy.position.0, to)),
        bounds.contains(enemy.position.0, ENEMY_RADIUS as int),
        bounds.contains(to, ENEMY_RADIUS as int),
        enemy.position.0.dist_sq(to) >= CHASER_STEP * CHASER_STEP,
    ensures
        enemy_moved(enemy, bounds).position.0 == pursuit_step(enemy.position.0, to),
        enemy_moved(enemy, bounds).velocity == enemy.velocity,
        enemy_moved(enemy, bounds).position.0.dist_sq(to) < enemy.position.0.dist_sq(to),
{
    lemma_pursuit_closes_in(enemy.position.0, to);
}

/// With `n` at least `CHASER_STEP` magnified, the component `a` rescaled to
/// `CHASER_SPEED` is at most `TICK_RATE` times `a`.
proof fn lemma_quotient_bound(a: int, len: int, k: int, n: int)
    requires
        0 <= a,
        len == CHASER_SPEED,
        k > 0,
        n >= CHASER_STEP * k,
    ensures
        0 <= (a * len * k) / n <= TICK_RATE * a,
        0 <= ((a * len * k) / n) / (TICK_RATE as int) <= a,
{
    let p = a * len * k;
    let bound = TICK_RATE * a;
    assert(p == bound * (CHASER_STEP * k)) by (nonlinear_arith)
        requires
            p == a * len * k,
            bound == 60 * a,
            len == 150_000,
            CHASER_STEP == 2_500,
    ;
    assert(0 <= p <= bound * n) by (nonlinear_arith)
        requires
            p == bound * (CHASER_STEP * k),
            n >= CHASER_STEP * k,
            bound >= 0,
            CHASER_STEP * k >= 0,
    ;
    assert(0 <= p / n <= bound) by (nonlinear_arith)
        requires
            0 <= p <= bound * n,
            n > 0,
            bound >= 0,
    ;
}

/// Targeting looks at nothing but the living ships of the other team: two
/// worlds that agree on those steer a chaser alike.
pub proof fn lemma_steering_ignores_others(a: Seq<Slot>, b: Seq<Slot>, enemy: Enemy)
    requires
        a.len() == b.len(),
        forall|k: int|
            0 <= k < a.len() ==> {
                ||| a[k] == b[k]
                ||| (!eligible(#[trigger] a[k], enemy.color) && !eligible(
                    #[trigger] b[k],
                    enemy.color,
                ))
            },
    ensures
        steered(a, enemy) == steered(b, enemy),
{
    let from = enemy.position.0;
    let color = enemy.color;
    if has_target(a, color) {
        let j = choose|j: int| 0 <= j < a.len() && eligible(#[trigger] a[j], color);
        assert(eligible(b[j], color));
    }
    if has_target(b, color) {
        let j = choose|j: int| 0 <= j < b.len() && eligible(#[trigger] b[j], color);
        assert(eligible(a[j], color));
    }
    if enemy.kind == EnemyType::Chaser && has_target(a, color) {
        lemma_target_exists(a, from, color);
        let t = target_of(a, from, color);
        assert forall|k: int| 0 <= k < b.len() && eligible(#[trigger] b[k], color) implies {
            ||| range_sq(b, from, t) < range_sq(b, from, k)
            ||| (range_sq(b, from, t) == range_sq(b, from, k) && t <= k)
        } by {
            assert(eligible(a[k], color));
        }
        lemma_target_found(b, from, color, t);
    }
}

/// Where a ship is eligible there is a target.
pub proof fn lemma_target_exists(slots: Seq<Slot>, from: Vec2, color: TeamColor)
    requires
        has_target(slots, color),
    ensures
        is_target(slots, from, color, target_of(slots, from, color)),
{
    let j = nearest_in_prefix(slots, from, color, slots.len() as int);
    lemma_nearest_in_prefix(slots, from, color, slots.len() as int);
    assert(is_target(slots, from, color, j));
}

/// The target among the first `n` slots, or -1 if none of them is eligible.
pub open spec fn nearest_in_prefix(slots: Seq<Slot>, from: Vec2, color: TeamColor, n: int) -> int
    decreases n,
{
    if n <= 0 {
        -1
    } else {
        let best = nearest_in_prefix(slots, from, color, n - 1);
        if eligible(slots[n - 1], color) && (best < 0 || range_sq(slots, from, n - 1) < range_sq(
            slots,
            from,
            best,
        )) {
            n - 1
        } else {
            best
        }
    }
}

/// `nearest_in_prefix` is the target among the first `n` slots.
pub proof fn lemma_nearest_in_prefix(slots: Seq<Slot>, from: Vec2, color: TeamColor, n: int)
    requires
        0 <= n <= slots.len(),
    ensures
        ({
            let j = nearest_in_prefix(slots, from, color, n);
            &&& -1 <= j < n
            &&& j < 0 ==> forall|k: int| 0 <= k < n ==> !eligible(#[trigger] slots[k], color)
            &&& j >= 0 ==> eligible(slots[j], color)
            &&& j >= 0 ==> forall|k: int|
                0 <= k < n && eligible(#[trigger] slots[k], color) ==> {
                    ||| range_sq(slots, from, j) < range_sq(slots, from, k)
                    ||| (range_sq(slots, from, j) == range_sq(slots, from, k) && j <= k)
                }
        }),
    decreases n,
{
    if n > 0 {
        lemma_nearest_in_prefix(slots, from, color, n - 1);
    }
}

/// Finds the target of a chaser of team `color` at `from`.
pub fn find_target(slots: &Vec<Slot>, from: Vec2, color: TeamColor) -> (r: Option<usize>)
    requires
        from.within(COORD_MAX as int),
        forall|i: int| 0 <= i < slots.len() ==> (#[trigger] slots@[i]).wf(),
    ensures
        r.is_some() <==> has_target(slots@, color),
        r matches Some(j) ==> is_target(slots@, from, color, j as int) && j == target_of(
            slots@,
            from,
            color,
        ),
{
    let mut best: Option<usize> = None;
    let mut best_range: i64 = 0;
    let mut i: usize = 0;
    while i < slots.len()
        invariant
            i <= slots.len(),
            from.within(COORD_MAX as int),
            forall|k: int| 0 <= k < slots.len() ==> (#[trigger] slots@[k]).wf(),
            best matches Some(j) ==> j == nearest_in_prefix(slots@, from, color, i as int)
                && best_range == range_sq(slots@, from, j as int) && j < i,
            best.is_none() ==> nearest_in_prefix(slots@, from, color, i as int) == -1,
        decreases slots.len() - i,
    {
        proof {
            lemma_nearest_in_prefix(slots@, from, color, i as int);
        }
        match slots[i] {
            Slot::Ship(ship) => {
                if ship.color != color && ship.health.alive {
                    let range = ship.position.0.distance_squared(from);
                    if best.is_none() || range < best_range {
                        best = Some(i);
                        best_range = range;
                    }
                }
            },
            _ => {},
        }
        i = i + 1;
    }
    proof {
        lemma_nearest_in_prefix(slots@, from, color, slots.len() as int);
        match best {
            Some(j) => {
                lemma_target_found(slots@, from, color, j as int);
            },
            None => {},
        }
    }
    best
}

/// Steers one enemy.
pub fn steer(slots: &Vec<Slot>, enemy: Enemy) -> (r: Enemy)
    requires
        enemy.wf(),
        forall|i: int| 0 <= i < slots.len() ==> (#[trigger] slots@[i]).wf(),
    ensures
        r == steered(slots@, enemy),
        r.wf(),
{
    match enemy.kind {
        EnemyType::Chaser => {
            match find_target(slots, enemy.position.0, enemy.color) {
                Some(j) => {
                    match slots[j] {
                        Slot::Ship(ship) => {
                            proof {
                                lemma_pursuit_toward(enemy.position.0, ship.position.0);
                            }
                            let line = ship.position.0.minus(enemy.position.0);
                            let velocity = line.scale_to_length(CHASER_SPEED);
                            Enemy { velocity: Velocity(velocity), ..enemy }
                        },
                        _ => enemy,
                    }
                },
                None => enemy,
            }
        },
        _ => enemy,
    }
}

/// Points every chaser at its target. A chaser without a target keeps the
/// velocity it has.
pub fn chaser_ai(world: &mut World)
    requires
        old(world)@.wf(),
    ensures
        final(world)@ == after_chaser_ai(old(world)@),
        final(world)@.wf(),
{
    let mut next: Vec<Slot> = Vec::new();
    let mut i: usize = 0;
    while i < world.slots.len()
        invariant
            i <= world.slots.len(),
            *world == *old(world),
            world@.wf(),
            next.len() == i,
            forall|k: int| 0 <= k < i ==> next@[k] == slot_after_ai(world.slots@, world.slots@[k]),
            forall|k: int| 0 <= k < i ==> (#[trigger] next@[k]).wf(),
        decreases world.slots.len() - i,
    {
        let slot = match world.slots[i] {
            Slot::Enemy(enemy) => {
                Slot::Enemy(steer(&world.slots, enemy))
            },
            other => other,
        };
        next.push(slot);
        i = i + 1;
    }
    proof {
        assert(next@ =~= after_chaser_ai(old(world)@).slots);
    }
    world.slots = next;
}

} // verus!
