use schizoid::components::{ArenaBounds, Health, OwnedBy, Ship, TeamColor};
use schizoid::prediction::PredictionReconciler;
use schizoid::replication::{
    ClientRecord, ClientUpdate, ConnectionEvent, EntityUpdate, ReplicationError,
    ReplicationManager, ReplicationRole, REPLICATION_INTERVAL,
};
use schizoid::systems::tick;
use schizoid::vec2::Vec2;
use schizoid::world::{Entity, Slot, World};

fn team_of(world: &World, entity: Entity) -> TeamColor {
    match world.ship(entity) {
        Some(ship) => ship.color,
        None => panic!("no ship behind the handle"),
    }
}

fn server() -> (World, ReplicationManager) {
    (World::new(ArenaBounds::default()), ReplicationManager::new(REPLICATION_INTERVAL))
}

#[test]
fn teams_alternate_starting_with_red() {
    let (mut world, mut manager) = server();
    let a = manager.connect(&mut world, 100);
    let b = manager.connect(&mut world, 200);
    let c = manager.connect(&mut world, 300);
    assert_eq!(a, Ok(Entity(0)));
    assert_eq!(b, Ok(Entity(1)));
    assert_eq!(c, Ok(Entity(2)));
    assert_eq!(team_of(&world, Entity(0)), TeamColor::Red);
    assert_eq!(team_of(&world, Entity(1)), TeamColor::Blue);
    assert_eq!(team_of(&world, Entity(2)), TeamColor::Red);
    assert_eq!(manager.connections, 3);
}

#[test]
fn a_new_client_gets_a_fresh_ship_at_the_origin() {
    let (mut world, mut manager) = server();
    let ship = manager.connect(&mut world, 42).unwrap();
    let state = world.ship(ship).unwrap();
    assert_eq!(state, Ship::new(OwnedBy(42), TeamColor::Red, Vec2::zero()));
    assert_eq!(state.health, Health { alive: true, respawn_timer: 0, invulnerable_timer: 0 });
    assert_eq!(manager.ship_of(42), Some(ship));
    assert_eq!(manager.ship_of(43), None);
    assert_eq!(manager.clients, vec![ClientRecord { client: 42, ship, last_ack: None }]);
}

#[test]
fn a_client_owns_at_most_one_ship() {
    let (mut world, mut manager) = server();
    assert_eq!(manager.connect(&mut world, 42), Ok(Entity(0)));
    assert_eq!(manager.connect(&mut world, 42), Err(ReplicationError::AlreadyConnected));
    assert_eq!(world.slots.len(), 1);
    assert_eq!(manager.clients.len(), 1);
    assert_eq!(manager.connections, 1);
}

#[test]
fn disconnect_removes_the_ship_and_the_record() {
    let (mut world, mut manager) = server();
    let a = manager.connect(&mut world, 100).unwrap();
    let b = manager.connect(&mut world, 200).unwrap();
    assert_eq!(manager.disconnect(&mut world, 100), Ok(a));
    assert!(!world.contains(a));
    assert!(world.contains(b));
    assert_eq!(manager.ship_of(100), None);
    assert_eq!(manager.ship_of(200), Some(b));
    assert_eq!(manager.disconnect(&mut world, 100), Err(ReplicationError::UnknownClient));
    assert_eq!(manager.disconnect(&mut world, 999), Err(ReplicationError::UnknownClient));
    assert_eq!(world.slots.len(), 2);
}

#[test]
fn teams_go_by_the_count_of_connections_whatever_has_left() {
    let (mut world, mut manager) = server();
    let _a = manager.connect(&mut world, 100).unwrap();
    let _b = manager.connect(&mut world, 200).unwrap();
    assert!(manager.disconnect(&mut world, 100).is_ok());
    assert!(manager.disconnect(&mut world, 200).is_ok());
    let c = manager.connect(&mut world, 300).unwrap();
    let again = manager.connect(&mut world, 100).unwrap();
    assert_eq!(team_of(&world, c), TeamColor::Red);
    assert_eq!(team_of(&world, again), TeamColor::Blue);
}

#[test]
fn updates_go_out_on_multiples_of_the_interval() {
    let manager = ReplicationManager::new(REPLICATION_INTERVAL);
    assert_eq!(REPLICATION_INTERVAL, 6);
    assert!(manager.due(0));
    assert!(!manager.due(1));
    assert!(!manager.due(5));
    assert!(manager.due(6));
    assert!(manager.due(600));
    assert!(!manager.due(601));
    let every = ReplicationManager::new(1);
    assert!(every.due(601));
}

#[test]
fn first_update_holds_everything_with_the_right_roles() {
    let (mut world, mut manager) = server();
    let a = manager.connect(&mut world, 100).unwrap();
    let b = manager.connect(&mut world, 200).unwrap();
    let e = world.spawn(Slot::Enemy(schizoid::components::Enemy {
        color: TeamColor::Red,
        kind: schizoid::components::EnemyType::Chaser,
        position: schizoid::components::Position(Vec2::from_units(300, 300)),
        velocity: schizoid::components::Velocity(Vec2::zero()),
        radius: schizoid::components::Radius(schizoid::components::ENEMY_RADIUS),
        orbit: None,
    }));
    manager.observe(&world, 6);
    let for_a = manager.diff_for(100).unwrap();
    let for_b = manager.diff_for(200).unwrap();
    assert_eq!(
        for_a,
        vec![
            EntityUpdate { entity: a, state: world.slots[0], role: ReplicationRole::Prediction },
            EntityUpdate { entity: b, state: world.slots[1], role: ReplicationRole::Interpolation },
            EntityUpdate { entity: e, state: world.slots[2], role: ReplicationRole::Interpolation },
        ]
    );
    assert_eq!(
        for_b.iter().map(|u| u.role).collect::<Vec<ReplicationRole>>(),
        vec![
            ReplicationRole::Interpolation,
            ReplicationRole::Prediction,
            ReplicationRole::Interpolation,
        ]
    );
    assert_eq!(manager.diff_for(300), None);
}

#[test]
fn later_updates_hold_what_changed_since_the_last_acknowledgement() {
    let (mut world, mut manager) = server();
    let a = manager.connect(&mut world, 100).unwrap();
    let b = manager.connect(&mut world, 200).unwrap();
    manager.observe(&world, 6);
    assert!(manager.acknowledge(100, 6));
    assert_eq!(manager.diff_for(100), Some(vec![]));
    // Only b moves.
    assert!(world.set_input(b, Vec2::from_units(1, 0)).is_ok());
    manager.observe(&world, 7);
    tick(&mut world);
    manager.observe(&world, 12);
    let for_a = manager.diff_for(100).unwrap();
    assert_eq!(
        for_a,
        vec![EntityUpdate { entity: b, state: world.slots[1], role: ReplicationRole::Interpolation }]
    );
    // b never acknowledged anything and is told of everything.
    let for_b = manager.diff_for(200).unwrap();
    assert_eq!(for_b.len(), 2);
    assert_eq!(for_b[0].entity, a);
    assert_eq!(for_b[1].role, ReplicationRole::Prediction);
    assert_eq!(manager.changed_at, vec![6, 12]);
    // An old acknowledgement does not undo a newer one.
    assert!(manager.acknowledge(100, 12));
    assert!(manager.acknowledge(100, 3));
    assert_eq!(manager.diff_for(100), Some(vec![]));
    assert!(!manager.acknowledge(999, 12));
}

#[test]
fn a_despawn_is_a_change() {
    let (mut world, mut manager) = server();
    let _a = manager.connect(&mut world, 100).unwrap();
    let b = manager.connect(&mut world, 200).unwrap();
    manager.observe(&world, 6);
    assert!(manager.acknowledge(100, 6));
    assert_eq!(manager.disconnect(&mut world, 200), Ok(b));
    manager.observe(&world, 12);
    assert_eq!(
        manager.diff_for(100),
        Some(vec![EntityUpdate {
            entity: b,
            state: Slot::Vacant,
            role: ReplicationRole::Interpolation
        }])
    );
}

#[test]
fn a_ship_without_a_record_is_found() {
    let (mut world, mut manager) = server();
    let _a = manager.connect(&mut world, 100).unwrap();
    assert_eq!(manager.find_orphan(&world), None);
    let stray = world.spawn(Slot::Ship(Ship::new(OwnedBy(555), TeamColor::Blue, Vec2::zero())));
    let _later = world.spawn(Slot::Ship(Ship::new(OwnedBy(556), TeamColor::Blue, Vec2::zero())));
    assert_eq!(manager.find_orphan(&world), Some(stray));
}

#[test]
fn a_client_steers_its_own_ship_and_no_other() {
    let (mut world, mut manager) = server();
    let a = manager.connect(&mut world, 100).unwrap();
    let b = manager.connect(&mut world, 200).unwrap();
    assert_eq!(manager.steer(&mut world, 200, Vec2::from_units(0, 1)), Ok(()));
    assert_eq!(world.ship(a).unwrap().input.direction, Vec2::zero());
    assert_eq!(world.ship(b).unwrap().input.direction, Vec2::from_units(0, 1));
    assert_eq!(
        manager.steer(&mut world, 300, Vec2::from_units(0, 1)),
        Err(ReplicationError::UnknownClient)
    );
    assert_eq!(
        manager.steer(&mut world, 100, Vec2::from_units(0, 2)),
        Err(ReplicationError::InvalidInput)
    );
    assert_eq!(world.ship(a).unwrap().input.direction, Vec2::zero());
    assert!(manager.is_consistent(&world));
    tick(&mut world);
    assert_eq!(world.ship(b).unwrap().position.0, Vec2::new(0, 5_000));
    assert_eq!(world.ship(a).unwrap().position.0, Vec2::zero());
}

#[test]
fn records_that_do_not_match_the_world_are_noticed() {
    let (mut world, mut manager) = server();
    let a = manager.connect(&mut world, 100).unwrap();
    assert!(manager.is_consistent(&world));
    world.despawn(a);
    assert!(!manager.is_consistent(&world));
    let (mut world, mut manager) = server();
    let a = manager.connect(&mut world, 100).unwrap();
    manager.clients.push(ClientRecord { client: 100, ship: a, last_ack: None });
    assert!(!manager.is_consistent(&world));
}

#[test]
fn connection_events_are_worked_off_in_order() {
    let (mut world, mut manager) = server();
    let events = vec![
        ConnectionEvent::Connected(1),
        ConnectionEvent::Connected(2),
        ConnectionEvent::Connected(1),
        ConnectionEvent::Disconnected(9),
        ConnectionEvent::Disconnected(1),
        ConnectionEvent::Connected(3),
        ConnectionEvent::Connected(1),
    ];
    let accepted = manager.drain(&mut world, &events);
    assert_eq!(accepted, 5);
    assert_eq!(manager.connections, 4);
    assert_eq!(world.slots.len(), 4);
    assert_eq!(world.slots[0], Slot::Vacant);
    assert_eq!(manager.ship_of(2), Some(Entity(1)));
    assert_eq!(manager.ship_of(3), Some(Entity(2)));
    assert_eq!(manager.ship_of(1), Some(Entity(3)));
    assert_eq!(team_of(&world, Entity(1)), TeamColor::Blue);
    assert_eq!(team_of(&world, Entity(2)), TeamColor::Red);
    assert_eq!(team_of(&world, Entity(3)), TeamColor::Blue);
    assert!(manager.is_consistent(&world));
    assert_eq!(manager.drain(&mut world, &Vec::new()), 0);
}

#[test]
fn records_without_a_ship_are_dropped() {
    let (mut world, mut manager) = server();
    let a = manager.connect(&mut world, 100).unwrap();
    let b = manager.connect(&mut world, 200).unwrap();
    let c = manager.connect(&mut world, 300).unwrap();
    assert_eq!(manager.prune(&world), 0);
    assert_eq!(manager.clients.len(), 3);
    // One ship vanishes, another turns out to be someone else's.
    world.despawn(a);
    world.slots[c.0] = Slot::Ship(Ship::new(OwnedBy(999), TeamColor::Red, Vec2::zero()));
    assert!(!manager.is_consistent(&world));
    assert_eq!(manager.prune(&world), 2);
    assert_eq!(manager.clients, vec![ClientRecord { client: 200, ship: b, last_ack: None }]);
    assert!(manager.is_consistent(&world));
    assert_eq!(manager.connections, 3);
    assert_eq!(manager.find_orphan(&world), Some(c));
}

#[test]
fn a_round_of_updates_goes_to_every_client_when_due() {
    let (mut world, mut manager) = server();
    let a = manager.connect(&mut world, 100).unwrap();
    let b = manager.connect(&mut world, 200).unwrap();
    manager.observe(&world, 6);
    assert_eq!(manager.round(5), vec![]);
    assert_eq!(manager.round(7), vec![]);
    assert!(manager.acknowledge(200, 6));
    let round = manager.round(6);
    assert_eq!(
        round,
        vec![
            ClientUpdate {
                client: 100,
                tick: 6,
                entries: vec![
                    EntityUpdate {
                        entity: a,
                        state: world.slots[0],
                        role: ReplicationRole::Prediction
                    },
                    EntityUpdate {
                        entity: b,
                        state: world.slots[1],
                        role: ReplicationRole::Interpolation
                    },
                ],
            },
            ClientUpdate { client: 200, tick: 6, entries: vec![] },
        ]
    );
    assert_eq!(ReplicationManager::new(1).round(3), vec![]);
}

#[test]
fn a_client_that_predicts_agrees_with_the_server() {
    let (mut world, mut manager) = server();
    let ship = manager.connect(&mut world, 7).unwrap();
    let mut mirror = World::new(ArenaBounds::default());
    let mine = mirror.spawn(world.slots[ship.0]);
    assert_eq!(mine, ship);
    let mut client = match PredictionReconciler::new(mirror, mine) {
        Ok(client) => client,
        Err(_) => panic!("the ship was just spawned"),
    };
    let course = [
        Vec2::from_units(1, 0),
        Vec2::from_units(1, 1),
        Vec2::new(-250, 968),
        Vec2::zero(),
        Vec2::from_units(0, -1),
    ];
    let mut in_flight: Vec<ClientUpdate> = Vec::new();
    let mut after_nine = None;
    for now in 1..=12u64 {
        let direction = course[(now as usize) % course.len()];
        assert_eq!(client.local_tick(now, direction), Ok(()));
        assert_eq!(manager.steer(&mut world, 7, direction), Ok(()));
        tick(&mut world);
        manager.observe(&world, now);
        in_flight.extend(manager.round(now));
        if now == 9 {
            // The update of tick 6 arrives three ticks late.
            after_nine = world.ship(ship);
            let update = in_flight.remove(0);
            assert_eq!(update.tick, 6);
            assert!(client.receive(update.tick, &update.entries));
            assert_eq!(
                client.pending.iter().map(|s| s.tick).collect::<Vec<u64>>(),
                vec![7, 8, 9]
            );
            assert_eq!(Some(client.predicted_ship()), after_nine);
            assert!(manager.acknowledge(7, update.tick));
        }
    }
    assert!(after_nine.is_some());
    assert_eq!(Some(client.predicted_ship()), world.ship(ship));
    let update = in_flight.remove(0);
    assert_eq!(update.tick, 12);
    assert!(client.receive(update.tick, &update.entries));
    assert!(client.pending.is_empty());
    assert_eq!(Some(client.predicted_ship()), world.ship(ship));
    // The same update a second time is stale.
    assert!(!client.receive(update.tick, &update.entries));
}
