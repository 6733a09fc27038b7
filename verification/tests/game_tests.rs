//! The fixed simulation step: stage ordering, pausing, and time scaling.

use rust_space_trading::algebra::Vec3;
use rust_space_trading::bodies::{BodiesConfig, BodiesMapping, BodyData, BodyType};
use rust_space_trading::game::{authoritative, in_game, loaded, ClientMode, GameStage, Simulation};
use rust_space_trading::ships::{ShipEvent, ShipInfo};

fn game_record(
    id: &str,
    body_type: BodyType,
    ecc: i64,
    a: i64,
    period: i64,
    mass: u64,
    radius: u64,
    host: Option<&str>,
) -> BodyData {
    BodyData {
        id: id.as_bytes().to_vec(),
        body_type,
        eccentricity: ecc,
        semimajor_axis: a,
        inclination: 0,
        long_asc_node: 0,
        arg_periapsis: 0,
        initial_mean_anomaly: 0,
        revolution_period: period,
        mass,
        radius,
        host_body: host.map(|h| h.as_bytes().to_vec()),
    }
}

fn sun_and_earth() -> BodiesMapping {
    let records = vec![
        game_record("soleil", BodyType::Star, 0, 0, 0, 1_989_000_000_000_000, 2_000_000_000_000, None),
        game_record("terre", BodyType::Planet, 16_709, 149_598_023, 365_250, 5_972_000_000, 1_500_000, Some("soleil")),
    ];
    BodiesMapping::from_records(&records, BodiesConfig::default()).unwrap()
}

#[test]
fn paused_step_drains_events_but_freezes_time() {
    let mut sim = Simulation::new(sun_and_earth(), 1, false);
    let events = vec![ShipEvent::Create(ShipInfo {
        id: b"gel".to_vec(),
        spawn_pos: Vec3 { x: 1_000_000, y: 0, z: 0 },
        spawn_speed: Vec3 { x: 0, y: 7, z: 0 },
    })];
    sim.step(&events);
    sim.step(&Vec::new());
    // Time stood still, the event was still applied, and no ship moved.
    assert_eq!(sim.clock.simtick, 0);
    assert_eq!(sim.ships.len(), 1);
    assert_eq!(sim.ships.ships[0].pos, Vec3 { x: 1_000_000, y: 0, z: 0 });
}

#[test]
fn running_step_advances_bodies_and_ships() {
    let mut sim = Simulation::new(sun_and_earth(), 1, true);
    let events = vec![ShipEvent::Create(ShipInfo {
        id: b"cours".to_vec(),
        spawn_pos: Vec3 { x: 149_598_023, y: 0, z: 0 },
        spawn_speed: Vec3 { x: 0, y: 2_500_000, z: 0 },
    })];
    sim.step(&events);
    assert_eq!(sim.clock.simtick, 1);
    let terre = sim.bodies.index_of(&b"terre".to_vec()).unwrap();
    let p = sim.bodies.bodies[terre].position;
    let d = ((p.x as f64).powi(2) + (p.y as f64).powi(2) + (p.z as f64).powi(2)).sqrt();
    assert!(147095000. <= d && d <= 152100000.);
    // The new ship was integrated in the same tick: it drifted along y.
    assert!(sim.ships.ships[0].pos.y > 2_000_000);
    sim.step(&Vec::new());
    assert_eq!(sim.clock.simtick, 2);
}

#[test]
fn time_scale_multiplies_simulated_days() {
    let mut sim = Simulation::new(sun_and_earth(), 5, true);
    sim.step(&Vec::new());
    assert_eq!(sim.clock.simtick, 1);
    assert_eq!(sim.clock.sim_days(), 5);
    assert!(sim.clock.set_step(20));
    sim.step(&Vec::new());
    assert_eq!(sim.clock.sim_days(), 40);
}

#[test]
fn test_states() {
    assert!(in_game(ClientMode::Singleplayer));
    assert!(in_game(ClientMode::Multiplayer));
    assert!(!in_game(ClientMode::Explorer));
    assert!(!in_game(ClientMode::Inactive));
    assert!(loaded(ClientMode::Explorer));
    assert!(!loaded(ClientMode::Inactive));
    assert!(authoritative(ClientMode::Singleplayer));
    assert!(authoritative(ClientMode::Server));
    assert!(!authoritative(ClientMode::Multiplayer));
    // A fresh game starts in the preparation stage with time paused.
    let mut sim = Simulation::new(sun_and_earth(), 1, false);
    sim.apply_stage(GameStage::Action);
    assert!(sim.clock.running);
    sim.apply_stage(GameStage::Preparation);
    assert!(!sim.clock.running);
}
