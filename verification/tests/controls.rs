use schizoid::components::{ArenaBounds, EnemyType, Health, OwnedBy, Ship, TeamColor, SHIP_RADIUS};
use schizoid::presentation::{describe, is_shown, EntityInfo, EntityKind};
use schizoid::protocol::{read_controls, Controls, InputError, PlayerInput, SERVER_PORT};
use schizoid::sim::GameSim;
use schizoid::vec2::{Vec2, UNIT};
use schizoid::world::{Entity, Slot, World};

fn keys(up: bool, down: bool, left: bool, right: bool) -> Controls {
    Controls { up, down, left, right, stick: None }
}

fn direction(controls: Controls) -> Vec2 {
    match read_controls(&controls) {
        Ok(input) => input.direction,
        Err(e) => panic!("controls were turned away: {:?}", e),
    }
}

#[test]
fn opposite_team() {
    assert_eq!(TeamColor::Red.opposite(), TeamColor::Blue);
    assert_eq!(TeamColor::Blue.opposite(), TeamColor::Red);
}

#[test]
fn defaults() {
    assert_eq!(Health::default(), Health { alive: true, respawn_timer: 0, invulnerable_timer: 0 });
    assert_eq!(ArenaBounds::default(), ArenaBounds { half_width: 600_000, half_height: 400_000 });
    assert_eq!(PlayerInput::default(), PlayerInput { direction: Vec2::zero() });
    assert_eq!(SERVER_PORT, 5555);
}

#[test]
fn input_must_be_within_full_deflection() {
    assert_eq!(
        PlayerInput::new(Vec2::new(UNIT, -UNIT)),
        Ok(PlayerInput { direction: Vec2::new(UNIT, -UNIT) })
    );
    assert_eq!(PlayerInput::new(Vec2::new(UNIT + 1, 0)), Err(InputError::InvalidInput));
    assert_eq!(PlayerInput::new(Vec2::new(0, -UNIT - 1)), Err(InputError::InvalidInput));
    assert_eq!(PlayerInput::new(Vec2::new(i64::MIN, i64::MAX)), Err(InputError::InvalidInput));
    let mut world = World::new(ArenaBounds::default());
    let ship = world.spawn(Slot::Ship(Ship::new(OwnedBy(1), TeamColor::Red, Vec2::zero())));
    assert_eq!(world.set_input(ship, Vec2::new(0, 2 * UNIT)), Err(InputError::InvalidInput));
    assert_eq!(world.set_input(ship, Vec2::new(0, UNIT)), Ok(()));
    assert_eq!(world.set_input(Entity(9), Vec2::new(0, UNIT)), Ok(()));
    assert_eq!(world.ship(ship).map(|s| s.input.direction), Some(Vec2::new(0, UNIT)));
}

#[test]
fn keys_give_a_direction() {
    assert_eq!(direction(keys(false, false, false, false)), Vec2::zero());
    assert_eq!(direction(keys(true, false, false, false)), Vec2::new(0, UNIT));
    assert_eq!(direction(keys(false, true, false, false)), Vec2::new(0, -UNIT));
    assert_eq!(direction(keys(false, false, true, false)), Vec2::new(-UNIT, 0));
    assert_eq!(direction(keys(false, false, false, true)), Vec2::new(UNIT, 0));
    assert_eq!(direction(keys(true, true, true, true)), Vec2::zero());
    assert_eq!(direction(keys(true, true, false, true)), Vec2::new(UNIT, 0));
}

#[test]
fn diagonal_keys_are_cut_back_to_full_deflection() {
    assert_eq!(direction(keys(true, false, false, true)), Vec2::new(707, 707));
    assert_eq!(direction(keys(false, true, true, false)), Vec2::new(-707, -707));
}

#[test]
fn stick_overrides_the_keys_outside_its_dead_zone() {
    let mut controls = keys(true, false, false, false);
    controls.stick = Some(Vec2::new(200, 0));
    assert_eq!(direction(controls), Vec2::new(0, UNIT));
    controls.stick = Some(Vec2::new(201, 0));
    assert_eq!(direction(controls), Vec2::new(201, 0));
    controls.stick = Some(Vec2::new(-600, 800));
    assert_eq!(direction(controls), Vec2::new(-600, 800));
    controls.stick = Some(Vec2::new(UNIT, UNIT));
    assert_eq!(direction(controls), Vec2::new(707, 707));
    controls.stick = Some(Vec2::zero());
    assert_eq!(direction(controls), Vec2::new(0, UNIT));
}

#[test]
fn stick_beyond_full_deflection_is_turned_away() {
    let mut controls = keys(false, false, false, false);
    controls.stick = Some(Vec2::new(UNIT + 1, 0));
    assert_eq!(read_controls(&controls), Err(InputError::InvalidInput));
}

#[test]
fn entities_describe_themselves() {
    let mut sim = GameSim::new();
    let ship = sim.spawn_player(TeamColor::Blue, Vec2::from_units(3, 4));
    let enemy = sim.spawn_enemy(EnemyType::Orbiter, TeamColor::Red, Vec2::from_units(-100, 0));
    assert_eq!(
        describe(&sim.world, ship),
        Some(EntityInfo {
            kind: EntityKind::Ship,
            color: TeamColor::Blue,
            position: Vec2::from_units(3, 4),
            radius: SHIP_RADIUS,
            alive: true,
            invulnerable: false,
        })
    );
    assert_eq!(
        describe(&sim.world, enemy),
        Some(EntityInfo {
            kind: EntityKind::Enemy(EnemyType::Orbiter),
            color: TeamColor::Red,
            position: Vec2::from_units(-20, 0),
            radius: 10_000,
            alive: true,
            invulnerable: false,
        })
    );
    sim.world.despawn(enemy);
    assert_eq!(describe(&sim.world, enemy), None);
    assert_eq!(describe(&sim.world, Entity(2)), None);
}

#[test]
fn invulnerable_ships_blink() {
    let alive = Health { alive: true, respawn_timer: 0, invulnerable_timer: 0 };
    let dead = Health { alive: false, respawn_timer: 50, invulnerable_timer: 0 };
    let safe = Health { alive: true, respawn_timer: 0, invulnerable_timer: 30 };
    for tenths in 0..6 {
        assert!(is_shown(&alive, tenths));
        assert!(!is_shown(&dead, tenths));
        assert_eq!(is_shown(&safe, tenths), tenths % 2 == 0);
    }
}
