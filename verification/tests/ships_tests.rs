//! Ship lifecycle, the influence resolver, and the leapfrog integrator.

use rust_space_trading::algebra::Vec3;
use rust_space_trading::bodies::{BodiesConfig, BodiesMapping, BodyData, BodyType};
use rust_space_trading::influence::Influenced;
use rust_space_trading::physics::get_acceleration;
use rust_space_trading::ships::{
    update_ship, ShipCreationError, ShipEvent, ShipInfo, ShipsMapping,
};

fn ship_record(
    id: &str,
    body_type: BodyType,
    ecc: i64,
    a: i64,
    period: i64,
    mass: u64,
    radius: u64,
    host: Option<&str>,
) -> BodyData {
    BodyData {
        id: id.as_bytes().to_vec(),
        body_type,
        eccentricity: ecc,
        semimajor_axis: a,
        inclination: 0,
        long_asc_node: 0,
        arg_periapsis: 0,
        initial_mean_anomaly: 0,
        revolution_period: period,
        mass,
        radius,
        host_body: host.map(|h| h.as_bytes().to_vec()),
    }
}

/// Sun, Earth and Moon, with moons kept.
fn small_system() -> BodiesMapping {
    let records = vec![
        ship_record("soleil", BodyType::Star, 0, 0, 0, 1_989_000_000_000_000, 2_000_000_000_000, None),
        ship_record("terre", BodyType::Planet, 16_709, 149_598_023, 365_250, 5_972_000_000, 1_500_000, Some("soleil")),
        ship_record("lune", BodyType::Moon, 54_900, 384_399, 27_322, 73_420_000, 60_000, Some("terre")),
    ];
    let mut m = BodiesMapping::from_records(
        &records,
        BodiesConfig::SmallestBodyType(BodyType::Moon),
    )
    .unwrap();
    m.update_local(0);
    m.update_global();
    m
}

#[test]
fn test_handle_ship_events() {
    let m = small_system();
    let mut ships = ShipsMapping::new();
    let events = vec![ShipEvent::Create(ShipInfo {
        id: b"s".to_vec(),
        spawn_pos: Vec3 { x: 1_000_000, y: 0, z: 0 },
        spawn_speed: Vec3 { x: 0, y: 1_000_000, z: 0 },
    })];
    ships.handle_ship_events(&m, &events);
    assert_eq!(ships.len(), 1);
    assert_eq!(ships.ships[0].info.id, b"s".to_vec());
}

#[test]
fn duplicate_ship_creation_is_ignored() {
    let m = small_system();
    let mut ships = ShipsMapping::new();
    let info = |speed: i64| ShipInfo {
        id: b"s".to_vec(),
        spawn_pos: Vec3 { x: 1_000_000, y: 0, z: 0 },
        spawn_speed: Vec3 { x: 0, y: speed, z: 0 },
    };
    let events = vec![ShipEvent::Create(info(7)), ShipEvent::Create(info(9))];
    ships.handle_ship_events(&m, &events);
    assert_eq!(ships.len(), 1);
    assert_eq!(ships.ships[0].info.spawn_speed.y, 7);
}

#[test]
fn ship_removal_then_unknown_removal() {
    let m = small_system();
    let mut ships = ShipsMapping::new();
    let events = vec![
        ShipEvent::Create(ShipInfo {
            id: b"a".to_vec(),
            spawn_pos: Vec3 { x: 1_000_000, y: 0, z: 0 },
            spawn_speed: Vec3 { x: 0, y: 0, z: 0 },
        }),
        ShipEvent::Remove(b"a".to_vec()),
        ShipEvent::Remove(b"inconnu".to_vec()),
    ];
    ships.handle_ship_events(&m, &events);
    assert_eq!(ships.len(), 0);
}

#[test]
fn validate_new_id_reports_each_error() {
    let m = small_system();
    let mut ships = ShipsMapping::new();
    let events = vec![ShipEvent::Create(ShipInfo {
        id: b"pris".to_vec(),
        spawn_pos: Vec3 { x: 1_000_000, y: 0, z: 0 },
        spawn_speed: Vec3 { x: 0, y: 0, z: 0 },
    })];
    ships.handle_ship_events(&m, &events);
    assert_eq!(
        ships.validate_new_id(&vec![b'x'; 33]),
        Err(ShipCreationError::IDTooLong)
    );
    assert_eq!(
        ships.validate_new_id(&b"pris".to_vec()),
        Err(ShipCreationError::ShipAlreadyExists)
    );
    assert_eq!(ships.validate_new_id(&b"libre".to_vec()), Ok(()));
}

#[test]
fn influence_nesting_picks_the_moon() {
    // A point strictly inside the Moon's dominance sphere, itself inside
    // the Earth's and the Sun's, resolves to the Moon.
    let m = small_system();
    let lune = m.index_of(&b"lune".to_vec()).unwrap();
    let terre = m.index_of(&b"terre".to_vec()).unwrap();
    let moon_pos = m.bodies[lune].position;
    let p = Vec3 { x: moon_pos.x + 1000, y: moon_pos.y, z: moon_pos.z };
    let influence = Influenced::new(p, &m);
    assert_eq!(influence.main_influencer, lune);
    // The influence set holds the whole chain: Sun, Earth, Moon.
    assert!(influence.influencers.contains(&0));
    assert!(influence.influencers.contains(&terre));
    assert!(influence.influencers.contains(&lune));
}

#[test]
fn influence_far_from_everything_falls_back_to_primary() {
    let m = small_system();
    // Outside every dominance sphere but the Sun's, the Sun dominates.
    let p = Vec3 { x: 1_000_000_000_000, y: 0, z: 0 };
    let influence = Influenced::new(p, &m);
    assert_eq!(influence.main_influencer, 0);
    assert_eq!(influence.influencers, vec![0]);
}

#[test]
fn acceleration_exact_single_body() {
    // One body of 10^15 kg at the origin, a point 100 km out on the x
    // axis: G m / r^2 = 498233 * 100 / 10^6 km/day^2, truncated, pulling
    // back toward the origin.
    let records = vec![ship_record(
        "seul",
        BodyType::Star,
        0,
        0,
        0,
        1,
        2_000_000_000_000,
        None,
    )];
    let m = BodiesMapping::from_records(&records, BodiesConfig::default()).unwrap();
    let p = Vec3 { x: 100, y: 0, z: 0 };
    let influence = Influenced::new(p, &m);
    let a = get_acceleration(p, &m, &influence.influencers);
    assert_eq!(a.x, -49);
    assert_eq!(a.y, 0);
    assert_eq!(a.z, 0);
}

#[test]
fn leapfrog_round_trip_restores_the_ship() {
    // Integrating forward one step, negating the velocity, and
    // integrating one more step returns the ship exactly to its original
    // position with its original speed reversed: the integrator is
    // time-reversible in a force field static over the step.
    let m = small_system();
    let terre = m.index_of(&b"terre".to_vec()).unwrap();
    let earth_pos = m.bodies[terre].position;
    let mut ships = ShipsMapping::new();
    let spawn_pos = Vec3 { x: earth_pos.x + 20_000, y: earth_pos.y, z: earth_pos.z };
    let spawn_speed = Vec3 { x: 11, y: 220_000, z: -3 };
    let events = vec![ShipEvent::Create(ShipInfo {
        id: b"nav".to_vec(),
        spawn_pos,
        spawn_speed,
    })];
    ships.handle_ship_events(&m, &events);
    let ship = &mut ships.ships[0];
    update_ship(ship, &m, 1);
    ship.velocity = Vec3 { x: -ship.velocity.x, y: -ship.velocity.y, z: -ship.velocity.z };
    update_ship(ship, &m, 1);
    assert_eq!(ship.pos, spawn_pos);
    assert_eq!(
        ship.velocity,
        Vec3 { x: -spawn_speed.x, y: -spawn_speed.y, z: -spawn_speed.z }
    );
}

#[test]
fn update_ships_moves_a_ship_under_gravity() {
    let m = small_system();
    let mut ships = ShipsMapping::new();
    let events = vec![ShipEvent::Create(ShipInfo {
        id: b"sonde".to_vec(),
        spawn_pos: Vec3 { x: 149_598_023, y: 0, z: 0 },
        spawn_speed: Vec3 { x: 0, y: 2_500_000, z: 0 },
    })];
    ships.handle_ship_events(&m, &events);
    ships.update_ships(&m, 1);
    let s = &ships.ships[0];
    // One day later the probe has moved along y and fallen toward the Sun.
    assert!(s.pos.y > 2_000_000);
    assert!(s.pos.x < 149_598_023);
}
