use schizoid::components::TeamColor;
use schizoid::sim::GameSim;
use schizoid::vec2::Vec2;

#[test]
fn same_color_kills_enemy() {
    let mut sim = GameSim::new();
    let ship = sim.spawn_player(TeamColor::Red, Vec2::zero());
    // Place enemy right next to ship (overlapping)
    let enemy = sim.spawn_drifter(TeamColor::Red, Vec2::from_units(5, 0), Vec2::zero());

    sim.set_input(ship, Vec2::from_units(1, 0)); // move toward enemy
    sim.step(10);

    assert!(
        !sim.entity_exists(enemy),
        "Same-color enemy should be despawned"
    );
    assert!(
        sim.is_alive(ship),
        "Ship should survive same-color collision"
    );
}

#[test]
fn opposite_color_kills_ship() {
    let mut sim = GameSim::new();
    let ship = sim.spawn_player(TeamColor::Red, Vec2::zero());
    // Place opposite-color enemy overlapping
    let enemy = sim.spawn_drifter(TeamColor::Blue, Vec2::from_units(5, 0), Vec2::zero());

    sim.set_input(ship, Vec2::from_units(1, 0)); // move toward enemy
    sim.step(10);

    assert!(
        sim.is_dead(ship),
        "Ship should die from opposite-color collision"
    );
    assert!(
        sim.entity_exists(enemy),
        "Opposite-color enemy should survive"
    );
}

#[test]
fn invulnerable_ship_survives() {
    let mut sim = GameSim::new();
    let ship = sim.spawn_player(TeamColor::Red, Vec2::zero());

    // Kill the ship first
    let _enemy = sim.spawn_drifter(TeamColor::Blue, Vec2::from_units(1, 0), Vec2::zero());
    sim.step(5);

    assert!(sim.is_dead(ship), "Ship should be dead");

    // Wait for respawn (2 seconds = 120 ticks)
    sim.step(130);

    assert!(sim.is_alive(ship), "Ship should have respawned");
}
