use schizoid::components::{ArenaBounds, OwnedBy, Ship, TeamColor};
use schizoid::prediction::{InputSample, PredictionError, PredictionReconciler, Snapshot};
use schizoid::protocol::PlayerInput;
use schizoid::replication::{EntityUpdate, ReplicationRole};
use schizoid::vec2::{Vec2, COORD_MAX, UNIT};
use schizoid::world::{Entity, Slot, World};

fn reconciler() -> PredictionReconciler {
    let mut world = World::new(ArenaBounds::default());
    let _other = world.spawn(Slot::Ship(Ship::new(OwnedBy(1), TeamColor::Blue, Vec2::from_units(300, 0))));
    let ship = world.spawn(Slot::Ship(Ship::new(OwnedBy(7), TeamColor::Red, Vec2::zero())));
    match PredictionReconciler::new(world, ship) {
        Ok(r) => r,
        Err(_) => panic!("the ship was just spawned"),
    }
}

fn right() -> Vec2 {
    Vec2::from_units(1, 0)
}

fn server_state(x: i64, y: i64) -> Ship {
    let mut ship = Ship::new(OwnedBy(7), TeamColor::Red, Vec2::new(x, y));
    ship.input = PlayerInput { direction: right() };
    ship
}

#[test]
fn prediction_needs_a_ship() {
    let mut world = World::new(ArenaBounds::default());
    let ship = world.spawn(Slot::Ship(Ship::new(OwnedBy(7), TeamColor::Red, Vec2::zero())));
    world.despawn(ship);
    assert!(PredictionReconciler::new(world, ship).is_err());
    let world = World::new(ArenaBounds::default());
    assert!(PredictionReconciler::new(world, Entity(3)).is_err());
}

#[test]
fn local_input_is_applied_at_once_and_remembered() {
    let mut r = reconciler();
    assert_eq!(r.latest(), None);
    assert_eq!(r.local_tick(10, right()), Ok(()));
    assert_eq!(r.predicted_ship().position.0, Vec2::new(5_000, 0));
    assert_eq!(r.local_tick(11, Vec2::from_units(0, 1)), Ok(()));
    assert_eq!(r.predicted_ship().position.0, Vec2::new(5_000, 5_000));
    assert_eq!(
        r.pending,
        vec![
            InputSample { tick: 10, input: PlayerInput { direction: right() } },
            InputSample { tick: 11, input: PlayerInput { direction: Vec2::from_units(0, 1) } },
        ]
    );
    assert_eq!(r.latest(), Some(11));
}

#[test]
fn local_tick_turns_away_bad_input_and_old_ticks() {
    let mut r = reconciler();
    assert_eq!(r.local_tick(10, right()), Ok(()));
    let slots = r.world.slots.clone();
    let pending = r.pending.clone();
    assert_eq!(r.local_tick(11, Vec2::new(UNIT + 1, 0)), Err(PredictionError::InvalidInput));
    assert_eq!(r.local_tick(10, right()), Err(PredictionError::StaleTick));
    assert_eq!(r.local_tick(9, right()), Err(PredictionError::StaleTick));
    assert_eq!(r.world.slots, slots);
    assert_eq!(r.pending, pending);
    assert_eq!(r.local_tick(11, right()), Ok(()));
}

#[test]
fn snapshot_replaces_the_prediction_and_later_inputs_are_replayed() {
    let mut r = reconciler();
    for tick in 1..=5 {
        assert_eq!(r.local_tick(tick, right()), Ok(()));
    }
    assert_eq!(r.predicted_ship().position.0, Vec2::new(25_000, 0));
    // The server saw the ship elsewhere at the end of tick 2.
    let snapshot = Snapshot { tick: 2, entity: r.owned, ship: server_state(7_000, -300) };
    assert_eq!(r.reconcile(&snapshot), Ok(()));
    assert_eq!(r.predicted_ship().position.0, Vec2::new(7_000 + 3 * 5_000, -300));
    assert_eq!(r.pending.iter().map(|s| s.tick).collect::<Vec<u64>>(), vec![3, 4, 5]);
    assert_eq!(r.last_ack, Some(2));
    assert_eq!(r.latest(), Some(5));
}

#[test]
fn snapshot_that_agrees_changes_nothing_in_the_ship() {
    let mut r = reconciler();
    for tick in 1..=5 {
        assert_eq!(r.local_tick(tick, right()), Ok(()));
    }
    let predicted = r.predicted_ship();
    let snapshot = Snapshot { tick: 3, entity: r.owned, ship: server_state(15_000, 0) };
    assert_eq!(r.reconcile(&snapshot), Ok(()));
    assert_eq!(r.predicted_ship(), predicted);
}

#[test]
fn snapshot_after_the_last_input_leaves_nothing_pending() {
    let mut r = reconciler();
    assert_eq!(r.local_tick(1, right()), Ok(()));
    let snapshot = Snapshot { tick: 9, entity: r.owned, ship: server_state(1, 2) };
    assert_eq!(r.reconcile(&snapshot), Ok(()));
    assert!(r.pending.is_empty());
    assert_eq!(r.predicted_ship(), server_state(1, 2));
    assert_eq!(r.latest(), Some(9));
    assert_eq!(r.local_tick(9, right()), Err(PredictionError::StaleTick));
    assert_eq!(r.local_tick(10, right()), Ok(()));
}

#[test]
fn replaying_twice_gives_the_same_state() {
    let inputs = [
        Vec2::new(1_000, 0),
        Vec2::new(707, -707),
        Vec2::new(0, 0),
        Vec2::new(-3, 999),
        Vec2::new(-1_000, -1_000),
    ];
    let mut outcomes = Vec::new();
    for run in 0..2 {
        let mut r = reconciler();
        for (i, direction) in inputs.iter().enumerate() {
            assert_eq!(r.local_tick(i as u64 + 1, *direction), Ok(()));
        }
        if run == 1 {
            // A different prediction before the snapshot must not matter.
            r.world.slots[1] = Slot::Ship(server_state(-99_000, 44_000));
        }
        let snapshot = Snapshot { tick: 1, entity: r.owned, ship: server_state(123, 456) };
        assert_eq!(r.reconcile(&snapshot), Ok(()));
        outcomes.push((r.world.slots.clone(), r.pending.clone(), r.last_ack));
    }
    assert_eq!(outcomes[0], outcomes[1]);
}

#[test]
fn snapshot_applied_twice_is_stale_the_second_time() {
    let mut r = reconciler();
    for tick in 1..=4 {
        assert_eq!(r.local_tick(tick, right()), Ok(()));
    }
    let snapshot = Snapshot { tick: 2, entity: r.owned, ship: server_state(0, 0) };
    assert_eq!(r.reconcile(&snapshot), Ok(()));
    let slots = r.world.slots.clone();
    let pending = r.pending.clone();
    assert_eq!(r.reconcile(&snapshot), Err(PredictionError::StaleSnapshot));
    let older = Snapshot { tick: 1, entity: r.owned, ship: server_state(5, 5) };
    assert_eq!(r.reconcile(&older), Err(PredictionError::StaleSnapshot));
    assert_eq!(r.world.slots, slots);
    assert_eq!(r.pending, pending);
    assert_eq!(r.last_ack, Some(2));
}

#[test]
fn snapshot_of_another_entity_is_dropped() {
    let mut r = reconciler();
    assert_eq!(r.local_tick(1, right()), Ok(()));
    let slots = r.world.slots.clone();
    let snapshot = Snapshot { tick: 1, entity: Entity(0), ship: server_state(9, 9) };
    assert_eq!(r.reconcile(&snapshot), Err(PredictionError::UnknownEntity));
    let snapshot = Snapshot { tick: 1, entity: Entity(55), ship: server_state(9, 9) };
    assert_eq!(r.reconcile(&snapshot), Err(PredictionError::UnknownEntity));
    assert_eq!(r.world.slots, slots);
    assert_eq!(r.pending.len(), 1);
    assert_eq!(r.last_ack, None);
}

#[test]
fn snapshot_out_of_range_is_dropped() {
    let mut r = reconciler();
    assert_eq!(r.local_tick(1, right()), Ok(()));
    let slots = r.world.slots.clone();
    let snapshot = Snapshot { tick: 1, entity: r.owned, ship: server_state(COORD_MAX + 1, 0) };
    assert_eq!(r.reconcile(&snapshot), Err(PredictionError::InvalidSnapshot));
    let mut ship = server_state(0, 0);
    ship.input = PlayerInput { direction: Vec2::new(0, -UNIT - 1) };
    let snapshot = Snapshot { tick: 1, entity: r.owned, ship };
    assert_eq!(r.reconcile(&snapshot), Err(PredictionError::InvalidSnapshot));
    assert_eq!(r.world.slots, slots);
    assert_eq!(r.last_ack, None);
}

#[test]
fn entries_for_display_leave_the_prediction_alone() {
    let mut r = reconciler();
    assert_eq!(r.local_tick(1, right()), Ok(()));
    let slots = r.world.slots.clone();
    let entries = vec![
        EntityUpdate {
            entity: Entity(0),
            state: Slot::Ship(server_state(9, 9)),
            role: ReplicationRole::Interpolation,
        },
        EntityUpdate {
            entity: r.owned,
            state: Slot::Ship(server_state(9, 9)),
            role: ReplicationRole::Interpolation,
        },
        EntityUpdate { entity: r.owned, state: Slot::Vacant, role: ReplicationRole::Prediction },
        EntityUpdate {
            entity: Entity(0),
            state: Slot::Ship(server_state(9, 9)),
            role: ReplicationRole::Prediction,
        },
    ];
    assert!(!r.receive(1, &entries));
    assert_eq!(r.world.slots, slots);
    assert_eq!(r.last_ack, None);
    assert!(!r.receive(1, &Vec::new()));
}
