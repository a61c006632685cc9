use schizoid::collision::collision_system;
use schizoid::components::{
    Enemy, EnemyType, Health, OwnedBy, Position, Radius, Ship, TeamColor, Velocity,
    CHASER_SPEED, DRIFTER_SPEED, ENEMY_RADIUS, INVULNERABLE_TIME, RESPAWN_TIME, SHIP_RADIUS,
};
use schizoid::sim::GameSim;
use schizoid::vec2::{Vec2, UNIT};
use schizoid::world::{Entity, Slot};

fn ship_health(sim: &GameSim, entity: Entity) -> Health {
    match sim.world.ship(entity) {
        Some(ship) => ship.health,
        None => panic!("no ship behind the handle"),
    }
}

#[test]
fn ship_covers_five_units_a_tick() {
    let mut sim = GameSim::new();
    let ship = sim.spawn_player(TeamColor::Red, Vec2::zero());
    sim.set_input(ship, Vec2::from_units(1, 0));
    sim.step(1);
    assert_eq!(sim.position(ship), Vec2::new(5_000, 0));
    sim.step(59);
    assert_eq!(sim.position(ship), Vec2::new(300_000, 0));
}

#[test]
fn ship_without_input_stays_put() {
    let mut sim = GameSim::new();
    let ship = sim.spawn_player(TeamColor::Red, Vec2::from_units(590, -395));
    sim.step(30);
    assert_eq!(sim.position(ship), Vec2::from_units(590, -395));
}

#[test]
fn weak_input_moves_at_full_speed() {
    let mut sim = GameSim::new();
    let ship = sim.spawn_player(TeamColor::Red, Vec2::zero());
    sim.set_input(ship, Vec2::new(0, -1));
    sim.step(2);
    assert_eq!(sim.position(ship), Vec2::new(0, -10_000));
}

#[test]
fn diagonal_input_covers_three_hundred_units_a_second() {
    let mut sim = GameSim::new();
    let ship = sim.spawn_player(TeamColor::Red, Vec2::zero());
    sim.set_input(ship, Vec2::from_units(1, 1));
    sim.step(60);
    let pos = sim.position(ship);
    assert_eq!(pos, Vec2::new(212_100, 212_100));
    assert_eq!(pos.length(), 299_954);
    let dist = pos.length() as f64 / UNIT as f64;
    assert!((dist - 300.0).abs() < 0.1);
    assert!((dist - 424.0).abs() > 100.0);
}

#[test]
fn ship_is_held_at_the_wall() {
    let mut sim = GameSim::new();
    let ship = sim.spawn_player(TeamColor::Blue, Vec2::from_units(590, 0));
    sim.set_input(ship, Vec2::from_units(1, 1));
    sim.step(1);
    assert_eq!(sim.position(ship), Vec2::new(585_000, 3_535));
    sim.step(400);
    assert_eq!(sim.position(ship), Vec2::new(585_000, 385_000));
    sim.set_input(ship, Vec2::from_units(-1, -1));
    sim.step(1_000);
    assert_eq!(sim.position(ship), Vec2::new(-585_000, -385_000));
}

#[test]
fn input_out_of_range_is_ignored() {
    let mut sim = GameSim::new();
    let ship = sim.spawn_player(TeamColor::Red, Vec2::zero());
    sim.set_input(ship, Vec2::from_units(0, 1));
    sim.set_input(ship, Vec2::new(UNIT + 1, 0));
    sim.step(1);
    assert_eq!(sim.position(ship), Vec2::new(0, 5_000));
}

#[test]
fn input_for_an_enemy_or_for_nothing_is_ignored() {
    let mut sim = GameSim::new();
    let enemy = sim.spawn_chaser(TeamColor::Red, Vec2::zero());
    sim.set_input(enemy, Vec2::from_units(1, 0));
    sim.set_input(Entity(17), Vec2::from_units(1, 0));
    sim.step(3);
    assert_eq!(sim.position(enemy), Vec2::zero());
    assert_eq!(sim.velocity(enemy), Vec2::zero());
    assert!(!sim.entity_exists(Entity(17)));
    assert!(sim.is_dead(Entity(17)));
}

#[test]
fn same_team_contact_removes_the_enemy_at_once() {
    let mut sim = GameSim::new();
    let ship = sim.spawn_player(TeamColor::Blue, Vec2::zero());
    let enemy = sim.spawn_drifter(TeamColor::Blue, Vec2::from_units(5, 0), Vec2::zero());
    assert_eq!(sim.enemy_count(), 1);
    sim.step(1);
    assert!(!sim.entity_exists(enemy));
    assert!(sim.is_dead(enemy));
    assert!(sim.is_alive(ship));
    assert_eq!(ship_health(&sim, ship), Health { alive: true, respawn_timer: 0, invulnerable_timer: 0 });
    assert_eq!(sim.enemy_count(), 0);
}

#[test]
fn contact_needs_the_circles_to_overlap() {
    let reach = SHIP_RADIUS + ENEMY_RADIUS;
    let mut sim = GameSim::new();
    let ship = sim.spawn_player(TeamColor::Red, Vec2::zero());
    let touching = sim.spawn_drifter(TeamColor::Red, Vec2::new(reach - 1, 0), Vec2::zero());
    let apart = sim.spawn_drifter(TeamColor::Red, Vec2::new(0, reach), Vec2::zero());
    sim.step(1);
    assert!(sim.is_alive(ship));
    assert!(!sim.entity_exists(touching));
    assert!(sim.entity_exists(apart));
}

#[test]
fn opposite_team_contact_kills_and_starts_the_wait() {
    let mut sim = GameSim::new();
    let ship = sim.spawn_player(TeamColor::Red, Vec2::zero());
    let enemy = sim.spawn_drifter(TeamColor::Blue, Vec2::from_units(5, 0), Vec2::zero());
    collision_system(&mut sim.world);
    assert_eq!(
        ship_health(&sim, ship),
        Health { alive: false, respawn_timer: RESPAWN_TIME, invulnerable_timer: 0 }
    );
    assert_eq!(RESPAWN_TIME, 120);
    assert!(sim.entity_exists(enemy));
}

#[test]
fn dead_ship_returns_after_two_seconds() {
    let mut sim = GameSim::new();
    let ship = sim.spawn_player(TeamColor::Red, Vec2::from_units(50, 50));
    let _enemy = sim.spawn_drifter(TeamColor::Blue, Vec2::from_units(55, 50), Vec2::zero());
    sim.step(1);
    assert!(sim.is_dead(ship));
    assert_eq!(ship_health(&sim, ship).respawn_timer, RESPAWN_TIME - 1);
    sim.step(118);
    assert!(sim.is_dead(ship));
    assert_eq!(ship_health(&sim, ship).respawn_timer, 1);
    assert_eq!(sim.position(ship), Vec2::from_units(50, 50));
    sim.step(1);
    assert!(sim.is_alive(ship));
    assert_eq!(sim.position(ship), Vec2::zero());
    assert_eq!(
        ship_health(&sim, ship),
        Health { alive: true, respawn_timer: 0, invulnerable_timer: INVULNERABLE_TIME - 1 }
    );
    assert!(ship_health(&sim, ship).invulnerable_timer > 0);
}

#[test]
fn invulnerability_runs_out() {
    let mut sim = GameSim::new();
    let ship = sim.spawn_player(TeamColor::Red, Vec2::zero());
    let _enemy = sim.spawn_drifter(TeamColor::Blue, Vec2::from_units(5, 0), Vec2::zero());
    sim.step(120);
    assert!(sim.is_alive(ship));
    // The enemy still sits on the spawn point; the ship is safe while its
    // invulnerability lasts and dies again on the tick after.
    sim.step(59);
    assert!(sim.is_alive(ship));
    assert_eq!(ship_health(&sim, ship).invulnerable_timer, 0);
    sim.step(1);
    assert!(sim.is_dead(ship));
    assert_eq!(ship_health(&sim, ship).respawn_timer, RESPAWN_TIME - 1);
}

#[test]
fn invulnerable_ship_still_catches_its_own_team() {
    let mut sim = GameSim::new();
    let ship = sim.spawn_player(TeamColor::Red, Vec2::zero());
    let _killer = sim.spawn_drifter(TeamColor::Blue, Vec2::from_units(5, 0), Vec2::zero());
    sim.step(120);
    assert!(ship_health(&sim, ship).invulnerable_timer > 0);
    let friend = sim.spawn_drifter(TeamColor::Red, Vec2::from_units(-5, 0), Vec2::zero());
    sim.step(1);
    assert!(!sim.entity_exists(friend));
    assert!(sim.is_alive(ship));
}

#[test]
fn several_contacts_in_one_tick() {
    let mut sim = GameSim::new();
    let red = sim.spawn_player(TeamColor::Red, Vec2::zero());
    let blue = sim.spawn_player(TeamColor::Blue, Vec2::from_units(10, 0));
    let between = sim.spawn_drifter(TeamColor::Red, Vec2::from_units(5, 0), Vec2::zero());
    let other = sim.spawn_drifter(TeamColor::Blue, Vec2::from_units(5, 5), Vec2::zero());
    let far = sim.spawn_drifter(TeamColor::Blue, Vec2::from_units(300, 300), Vec2::zero());
    collision_system(&mut sim.world);
    // Each enemy is caught by the ship of its team and strikes the other.
    assert!(!sim.entity_exists(between));
    assert!(!sim.entity_exists(other));
    assert!(sim.entity_exists(far));
    assert_eq!(
        ship_health(&sim, red),
        Health { alive: false, respawn_timer: RESPAWN_TIME, invulnerable_timer: 0 }
    );
    assert_eq!(
        ship_health(&sim, blue),
        Health { alive: false, respawn_timer: RESPAWN_TIME, invulnerable_timer: 0 }
    );
}

#[test]
fn dead_ship_neither_catches_nor_restarts_its_wait() {
    let mut sim = GameSim::new();
    let ship = sim.spawn_player(TeamColor::Red, Vec2::zero());
    let _killer = sim.spawn_drifter(TeamColor::Blue, Vec2::from_units(5, 0), Vec2::zero());
    sim.step(10);
    assert_eq!(ship_health(&sim, ship).respawn_timer, RESPAWN_TIME - 10);
    let friend = sim.spawn_drifter(TeamColor::Red, Vec2::from_units(-5, 0), Vec2::zero());
    sim.step(10);
    assert!(sim.entity_exists(friend));
    assert_eq!(ship_health(&sim, ship).respawn_timer, RESPAWN_TIME - 20);
}

#[test]
fn drifter_turns_back_at_the_wall() {
    let mut sim = GameSim::new();
    let drifter = sim.spawn_drifter(
        TeamColor::Red,
        Vec2::from_units(580, 0),
        Vec2::new(DRIFTER_SPEED, 0),
    );
    sim.step(5);
    assert_eq!(sim.position(drifter), Vec2::from_units(590, 0));
    assert_eq!(sim.velocity(drifter), Vec2::new(DRIFTER_SPEED, 0));
    sim.step(1);
    assert_eq!(sim.position(drifter), Vec2::from_units(590, 0));
    assert_eq!(sim.velocity(drifter), Vec2::new(-DRIFTER_SPEED, 0));
    sim.step(1);
    assert_eq!(sim.position(drifter), Vec2::from_units(588, 0));
}

#[test]
fn drifter_turns_back_in_a_corner() {
    let mut sim = GameSim::new();
    let drifter = sim.spawn_drifter(
        TeamColor::Blue,
        Vec2::from_units(-589, -389),
        Vec2::new(-60_000, -90_000),
    );
    sim.step(1);
    assert_eq!(sim.position(drifter), Vec2::from_units(-590, -390));
    assert_eq!(sim.velocity(drifter), Vec2::new(-60_000, 90_000));
    sim.step(1);
    assert_eq!(sim.position(drifter), Vec2::new(-590_000, -388_500));
    assert_eq!(sim.velocity(drifter), Vec2::new(60_000, 90_000));
}

#[test]
fn chaser_flies_the_line_it_chose_the_tick_before() {
    let mut sim = GameSim::new();
    let _ship = sim.spawn_player(TeamColor::Blue, Vec2::from_units(200, 0));
    let chaser = sim.spawn_chaser(TeamColor::Red, Vec2::zero());
    sim.step(1);
    assert_eq!(sim.position(chaser), Vec2::zero());
    assert_eq!(sim.velocity(chaser), Vec2::new(CHASER_SPEED, 0));
    sim.step(1);
    assert_eq!(sim.position(chaser), Vec2::new(2_500, 0));
    sim.step(58);
    assert_eq!(sim.position(chaser), Vec2::new(147_500, 0));
}

#[test]
fn chaser_prefers_the_nearer_ship_and_the_first_of_equals() {
    let mut sim = GameSim::new();
    let _far = sim.spawn_player(TeamColor::Blue, Vec2::from_units(0, 300));
    let _left = sim.spawn_player(TeamColor::Blue, Vec2::from_units(-100, 0));
    let _right = sim.spawn_player(TeamColor::Blue, Vec2::from_units(100, 0));
    let _friend = sim.spawn_player(TeamColor::Red, Vec2::from_units(0, 50));
    let chaser = sim.spawn_chaser(TeamColor::Red, Vec2::zero());
    sim.step(1);
    assert_eq!(sim.velocity(chaser), Vec2::new(-CHASER_SPEED, 0));
}

#[test]
fn chaser_without_a_target_keeps_its_course() {
    let mut sim = GameSim::new();
    let ship = sim.spawn_player(TeamColor::Blue, Vec2::from_units(200, 0));
    let killer = sim.spawn_drifter(TeamColor::Red, Vec2::from_units(200, 5), Vec2::zero());
    let chaser = sim.spawn_chaser(TeamColor::Red, Vec2::from_units(-200, 0));
    sim.step(1);
    // The only ship of the other team died on the tick the chaser looked.
    assert!(sim.is_dead(ship));
    assert!(sim.entity_exists(killer));
    assert_eq!(sim.velocity(chaser), Vec2::new(CHASER_SPEED, 0));
    sim.step(10);
    assert_eq!(sim.velocity(chaser), Vec2::new(CHASER_SPEED, 0));
    assert_eq!(sim.position(chaser), Vec2::new(-200_000 + 10 * 2_500, 0));
}

#[test]
fn chaser_on_top_of_its_target_stops() {
    let mut sim = GameSim::new();
    let place = Vec2::from_units(-300, 0);
    // Points without extent, so that they can coincide without contact.
    let chaser = sim.world.spawn(Slot::Enemy(Enemy {
        color: TeamColor::Blue,
        kind: EnemyType::Chaser,
        position: Position(place),
        velocity: Velocity(Vec2::new(59, 0)),
        radius: Radius(0),
        orbit: None,
    }));
    let mut target = Ship::new(OwnedBy(1), TeamColor::Red, place);
    target.radius = Radius(0);
    let ship = sim.world.spawn(Slot::Ship(target));
    sim.step(1);
    assert_eq!(sim.position(chaser), place);
    assert_eq!(sim.velocity(chaser), Vec2::zero());
    assert!(sim.is_alive(ship));
}

#[test]
fn orbiter_keeps_its_distance_for_ten_seconds() {
    let mut sim = GameSim::new();
    let center = Vec2::from_units(100, 100);
    let radius: i64 = 80 * UNIT;
    let orbiter = sim.spawn_orbiter(TeamColor::Blue, center, radius);
    assert_eq!(sim.position(orbiter), Vec2::from_units(180, 100));
    sim.step(1);
    assert_eq!(sim.position(orbiter), Vec2::new(100_000 + 79_954, 100_000 + 2_710));
    for _ in 0..600 {
        sim.step(1);
        let sq = sim.position(orbiter).distance_squared(center);
        assert!(radius * radius - 4 * radius - 2 < sq);
        assert!(sq < (radius + 1) * (radius + 1));
    }
}

#[test]
fn orbiter_position_after_two_seconds() {
    let mut sim = GameSim::new();
    let center = Vec2::from_units(100, 100);
    let orbiter = sim.spawn_orbiter(TeamColor::Blue, center, 80 * UNIT);
    sim.step(120);
    assert_eq!(sim.position(orbiter), Vec2::new(100_000 - 52_300, 100_000 - 60_536));
    assert_eq!(sim.position(orbiter).distance(center), 79_999);
}

#[test]
fn enemies_by_kind_get_their_usual_motion() {
    let mut sim = GameSim::new();
    let drifter = sim.spawn_enemy(EnemyType::Drifter, TeamColor::Red, Vec2::zero());
    let chaser = sim.spawn_enemy(EnemyType::Chaser, TeamColor::Red, Vec2::from_units(0, 100));
    let orbiter = sim.spawn_enemy(EnemyType::Orbiter, TeamColor::Red, Vec2::from_units(0, -100));
    assert_eq!(sim.velocity(drifter), Vec2::new(DRIFTER_SPEED, 0));
    assert_eq!(sim.velocity(chaser), Vec2::zero());
    assert_eq!(sim.position(orbiter), Vec2::from_units(80, -100));
    assert_eq!(sim.enemy_count(), 3);
    assert_eq!(sim.distance(drifter, chaser), 100_000);
    assert_eq!(sim.distance(chaser, orbiter), 215_406);
}

#[test]
fn a_new_simulation_is_empty_and_between_waves() {
    let mut sim = GameSim::default();
    assert_eq!(sim.enemy_count(), 0);
    let wave = sim.wave_state();
    assert_eq!(wave.current_wave, 0);
    assert_eq!(wave.enemies_remaining, 0);
    assert_eq!(wave.breather_timer, 0);
    assert!(!wave.active);
    assert_eq!(sim.world.bounds.half_width, 600 * UNIT);
    assert_eq!(sim.world.bounds.half_height, 400 * UNIT);
    sim.step(10);
    assert_eq!(sim.wave_state(), wave);
}

#[test]
fn two_runs_of_the_same_scene_agree() {
    let mut scenes = Vec::new();
    for _ in 0..2 {
        let mut sim = GameSim::new();
        let ship = sim.spawn_player(TeamColor::Blue, Vec2::from_units(200, 37));
        let _a = sim.spawn_chaser(TeamColor::Red, Vec2::from_units(-17, 3));
        let _b = sim.spawn_drifter(TeamColor::Blue, Vec2::from_units(500, 300), Vec2::new(91_234, -77_777));
        let _c = sim.spawn_orbiter(TeamColor::Red, Vec2::from_units(-100, 50), 80 * UNIT);
        sim.set_input(ship, Vec2::new(-300, 951));
        sim.step(500);
        scenes.push(sim.world.slots.clone());
    }
    assert_eq!(scenes[0], scenes[1]);
}
