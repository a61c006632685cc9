//! The wave director: a wave is active until its last enemy is gone, then
//! the arena rests for `WAVE_BREATHER` ticks, then the next wave is spawned.

use vstd::prelude::*;
use crate::components::{WaveState, WAVE_BREATHER};
use crate::enemies::{on_spawn_line, spawn_wave, spawnable, wave_size, WAVE_MAX};
use crate::respawn::{tick_down, ticked};
use crate::systems::{after_tick, tick};
use crate::world::{count_enemies, lemma_count_enemies, World, WorldView, MAX_ENTITIES};

verus! {

/// The wave state after the director has looked at a world with `enemies`
/// enemies. An active wave with no enemy left turns into a breather; a
/// breather loses a tick, the very tick it starts included, and when none is
/// left the next wave is due and active.
pub open spec fn directed(wave: WaveState, enemies: nat) -> WaveState {
    let resting = !wave.active || enemies == 0;
    let timer = if wave.active && enemies == 0 {
        WAVE_BREATHER
    } else {
        wave.breather_timer
    };
    if !resting {
        WaveState { enemies_remaining: enemies as u32, ..wave }
    } else if ticked(timer) == 0 {
        WaveState {
            current_wave: (wave.current_wave + 1) as u32,
            enemies_remaining: enemies as u32,
            breather_timer: 0,
            active: true,
        }
    } else {
        WaveState {
            current_wave: wave.current_wave,
            enemies_remaining: enemies as u32,
            breather_timer: ticked(timer),
            active: false,
        }
    }
}

/// The director spawns a wave on this step.
pub open spec fn wave_due(wave: WaveState, enemies: nat) -> bool {
    directed(wave, enemies).current_wave != wave.current_wave
}

/// The wave state after `n` steps of the director over an arena without
/// enemies.
pub open spec fn directed_idle(wave: WaveState, n: nat) -> WaveState
    decreases n,
{
    if n == 0 {
        wave
    } else {
        directed(directed_idle(wave, (n - 1) as nat), 0)
    }
}

/// The round trip of a cleared wave. From the step on which an active wave
/// is found cleared, the director rests through `WAVE_BREATHER - 1` steps,
/// wave number unchanged and timer counting down, and on step
/// `WAVE_BREATHER` it raises the wave number by exactly one, becomes active
/// and calls for the next wave.
pub proof fn lemma_breather_round_trip(wave: WaveState, n: nat)
    requires
        wave.active,
        wave.current_wave < u32::MAX,
        1 <= n <= WAVE_BREATHER,
    ensures
        n < WAVE_BREATHER ==> {
            &&& !directed_idle(wave, n).active
            &&& directed_idle(wave, n).current_wave == wave.current_wave
            &&& directed_idle(wave, n).breather_timer == WAVE_BREATHER - n
        },
        n == WAVE_BREATHER ==> {
            &&& directed_idle(wave, n).active
            &&& directed_idle(wave, n).current_wave == wave.current_wave + 1
            &&& wave_due(directed_idle(wave, (n - 1) as nat), 0)
        },
    decreases n,
{
    if n == 1 {
        assert(directed_idle(wave, 0) == wave);
    } else {
        lemma_breather_round_trip(wave, (n - 1) as nat);
    }
}

/// The director changes the wave number only by raising it by one, and it
/// does so exactly when it leaves a breather.
pub proof fn lemma_directed(wave: WaveState, enemies: nat)
    requires
        wave.current_wave < u32::MAX,
        enemies <= MAX_ENTITIES,
    ensures
        directed(wave, enemies).enemies_remaining == enemies,
        wave_due(wave, enemies) <==> directed(wave, enemies).current_wave == wave.current_wave
            + 1,
        wave_due(wave, enemies) ==> directed(wave, enemies).active && (!wave.active || enemies
            == 0),
        wave.active && enemies > 0 ==> directed(wave, enemies) == (WaveState {
            enemies_remaining: enemies as u32,
            ..wave
        }),
        wave.active && enemies == 0 ==> !directed(wave, enemies).active && directed(
            wave,
            enemies,
        ).breather_timer == WAVE_BREATHER - 1,
{
}

/// Runs the director for one tick: counts the enemies, updates the wave
/// state, and spawns the next wave when it is due. The enemies of a new
/// wave are appended; nothing that exists is touched.
pub fn wave_manager(world: &mut World)
    requires
        old(world)@.wf(),
        old(world)@.wave.current_wave < WAVE_MAX,
        old(world)@.slots.len() + wave_size(old(world)@.wave.current_wave + 1) <= MAX_ENTITIES,
    ensures
        final(world)@.wf(),
        final(world)@.bounds == old(world)@.bounds,
        final(world)@.wave == directed(old(world)@.wave, count_enemies(old(world)@.slots)),
        !wave_due(old(world)@.wave, count_enemies(old(world)@.slots)) ==> final(world)@.slots
            == old(world)@.slots,
        wave_due(old(world)@.wave, count_enemies(old(world)@.slots)) ==> {
            &&& final(world)@.slots.len() == old(world)@.slots.len() + wave_size(
                final(world)@.wave.current_wave as int,
            )
            &&& final(world)@.slots.take(old(world)@.slots.len() as int) == old(world)@.slots
            &&& forall|i: int|
                old(world)@.slots.len() <= i < final(world)@.slots.len() ==> {
                    &&& (#[trigger] final(world)@.slots[i]) is Enemy
                    &&& spawnable(
                        final(world)@.slots[i]->Enemy_0,
                        final(world)@.wave.current_wave as int,
                        old(world)@.bounds,
                    )
                    &&& on_spawn_line(
                        final(world)@.slots[i]->Enemy_0.position.0,
                        old(world)@.bounds,
                    )
                }
        },
{
    proof {
        lemma_count_enemies(world@.slots);
    }
    let enemies = world.enemy_count();
    world.wave.enemies_remaining = enemies as u32;
    if world.wave.active && world.wave.enemies_remaining == 0 {
        world.wave.active = false;
        world.wave.breather_timer = WAVE_BREATHER;
    }
    if !world.wave.active {
        world.wave.breather_timer = tick_down(world.wave.breather_timer);
        if world.wave.breather_timer == 0 {
            world.wave.current_wave = world.wave.current_wave + 1;
            world.wave.active = true;
            let number = world.wave.current_wave;
            spawn_wave(world, number);
        }
    }
}

/// The world after one tick of the authoritative simulation, up to the
/// enemies of a wave that the tick may have spawned: the five systems, and
/// then the director's update of the wave state.
pub open spec fn after_server_tick(w: WorldView) -> WorldView {
    let t = after_tick(w);
    WorldView { wave: directed(t.wave, count_enemies(t.slots)), ..t }
}

/// Advances the authoritative world by one tick: the five systems and then
/// the director. Unless a wave was due, the outcome is a function of the
/// world before; when one was due, new enemies follow the slots that were
/// there, each of them one that the spawner can produce.
pub fn server_tick(world: &mut World)
    requires
        old(world)@.wf(),
        old(world)@.wave.current_wave < WAVE_MAX,
        old(world)@.slots.len() + wave_size(old(world)@.wave.current_wave + 1) <= MAX_ENTITIES,
    ensures
        final(world)@.wf(),
        final(world)@.bounds == old(world)@.bounds,
        final(world)@.wave == after_server_tick(old(world)@).wave,
        final(world)@.slots.len() >= old(world)@.slots.len(),
        final(world)@.slots.take(old(world)@.slots.len() as int) == after_server_tick(
            old(world)@,
        ).slots,
        final(world)@.slots.len() == old(world)@.slots.len() + if wave_due(
            after_tick(old(world)@).wave,
            count_enemies(after_tick(old(world)@).slots),
        ) {
            wave_size(final(world)@.wave.current_wave as int)
        } else {
            0
        },
        forall|i: int|
            old(world)@.slots.len() <= i < final(world)@.slots.len() ==> {
                &&& (#[trigger] final(world)@.slots[i]) is Enemy
                &&& spawnable(
                    final(world)@.slots[i]->Enemy_0,
                    final(world)@.wave.current_wave as int,
                    old(world)@.bounds,
                )
                &&& on_spawn_line(final(world)@.slots[i]->Enemy_0.position.0, old(world)@.bounds)
            },
{
    tick(world);
    wave_manager(world);
}

} // verus!
