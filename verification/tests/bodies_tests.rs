//! Building the body arena from catalog records and composing world
//! positions down the hierarchy.

use rust_space_trading::bodies::{
    BodiesConfig, BodiesMapping, BodyData, BodyType, CatalogError,
};

fn record(
    id: &str,
    body_type: BodyType,
    ecc: i64,
    a: i64,
    period: i64,
    mass: u64,
    radius: u64,
    host: Option<&str>,
) -> BodyData {
    BodyData {
        id: id.as_bytes().to_vec(),
        body_type,
        eccentricity: ecc,
        semimajor_axis: a,
        inclination: 0,
        long_asc_node: 0,
        arg_periapsis: 0,
        initial_mean_anomaly: 0,
        revolution_period: period,
        mass,
        radius,
        host_body: host.map(|h| h.as_bytes().to_vec()),
    }
}

/// The Sun, the eight planets, and the Moon, with masses in units of
/// `10^15` kg and dominance-sphere radii in km.
fn solar_records() -> Vec<BodyData> {
    let mut v = Vec::new();
    v.push(record("soleil", BodyType::Star, 0, 0, 0, 1_989_000_000_000_000, 2_000_000_000_000, None));
    v.push(record("mercure", BodyType::Planet, 205_630, 57_909_050, 87_969, 330_100_000, 175_000, Some("soleil")));
    v.push(record("venus", BodyType::Planet, 6_772, 108_208_000, 224_701, 4_867_000_000, 1_000_000, Some("soleil")));
    v.push({
        let mut terre = record(
            "terre",
            BodyType::Planet,
            16_709,
            149_598_023,
            365_250,
            5_972_000_000,
            1_500_000,
            Some("soleil"),
        );
        terre.long_asc_node = 174_873_000;
        terre.arg_periapsis = 288_064_000;
        terre.initial_mean_anomaly = 358_617_000;
        terre
    });
    v.push(record("mars", BodyType::Planet, 93_400, 227_939_366, 686_980, 641_700_000, 1_080_000, Some("soleil")));
    v.push(record("jupiter", BodyType::Planet, 48_900, 778_479_000, 4_332_590, 1_898_000_000_000, 53_000_000, Some("soleil")));
    v.push(record("saturne", BodyType::Planet, 56_500, 1_433_530_000, 10_755_700, 568_300_000_000, 65_000_000, Some("soleil")));
    v.push(record("uranus", BodyType::Planet, 45_700, 2_870_972_000, 30_688_500, 86_810_000_000, 70_000_000, Some("soleil")));
    v.push(record("neptune", BodyType::Planet, 11_300, 4_500_000_000, 60_182_000, 102_400_000_000, 116_000_000, Some("soleil")));
    v.push({
        let mut lune = record(
            "lune",
            BodyType::Moon,
            54_900,
            384_399,
            27_322,
            73_420_000,
            60_000,
            Some("terre"),
        );
        lune.inclination = 5_145_000;
        lune.long_asc_node = 125_080_000;
        lune.arg_periapsis = 318_150_000;
        lune.initial_mean_anomaly = 115_365_000;
        lune
    });
    v
}

#[test]
fn test_build_system() {
    // The default configuration keeps the star and the planets: nine
    // bodies, the Sun first as the primary body.
    let m = BodiesMapping::from_records(&solar_records(), BodiesConfig::default()).unwrap();
    assert_eq!(m.len(), 9);
    let terre = m.index_of(&b"terre".to_vec()).unwrap();
    assert_eq!(m.bodies[terre].orbit.semimajor_axis, 149598023);
    assert_eq!(m.bodies[0].id, b"soleil".to_vec());
    assert!(m.bodies[0].parent.is_none());
    assert!(m.index_of(&b"lune".to_vec()).is_none());
}

#[test]
fn test_update_global() {
    // With moons kept, the Moon's world position stays within a lunar
    // distance of the Earth-Sun range.
    let config = BodiesConfig::SmallestBodyType(BodyType::Moon);
    let mut m = BodiesMapping::from_records(&solar_records(), config).unwrap();
    assert_eq!(m.len(), 10);
    m.update_local(0);
    m.update_global();
    let lune = m.index_of(&b"lune".to_vec()).unwrap();
    let p = m.bodies[lune].position;
    let moon_length = ((p.x as f64).powi(2) + (p.y as f64).powi(2) + (p.z as f64).powi(2)).sqrt();
    let min = 147095000. - 405500.;
    let max = 152100000. + 405500.;
    assert!(min <= moon_length);
    assert!(moon_length <= max)
}

#[test]
fn catalog_without_primary_is_rejected() {
    let mut records = solar_records();
    records.remove(0);
    let r = BodiesMapping::from_records(&records, BodiesConfig::default());
    assert!(matches!(r, Err(CatalogError::NoPrimary)));
}

#[test]
fn catalog_with_duplicate_id_is_rejected() {
    let mut records = solar_records();
    let copy = record("terre", BodyType::Planet, 0, 1, 1, 1, 1, Some("soleil"));
    records.push(copy);
    let r = BodiesMapping::from_records(&records, BodiesConfig::default());
    assert!(matches!(r, Err(CatalogError::DuplicateId)));
}

#[test]
fn catalog_with_invalid_record_is_rejected() {
    let mut records = solar_records();
    records[2].eccentricity = 1_000_000;  // an eccentricity of one is not an ellipse
    let r = BodiesMapping::from_records(&records, BodiesConfig::default());
    assert!(matches!(r, Err(CatalogError::InvalidRecord)));
}

#[test]
fn catalog_with_unreachable_body_is_rejected() {
    let mut records = solar_records();
    records[4].host_body = Some(b"nulle-part".to_vec());
    let r = BodiesMapping::from_records(&records, BodiesConfig::default());
    assert!(matches!(r, Err(CatalogError::Unreachable)));
}

#[test]
fn parents_stand_before_children() {
    let config = BodiesConfig::SmallestBodyType(BodyType::Moon);
    let m = BodiesMapping::from_records(&solar_records(), config).unwrap();
    for (i, body) in m.bodies.iter().enumerate() {
        match body.parent {
            None => assert_eq!(i, 0),
            Some(p) => assert!(p < i),
        }
    }
    let lune = m.index_of(&b"lune".to_vec()).unwrap();
    let terre = m.index_of(&b"terre".to_vec()).unwrap();
    assert_eq!(m.bodies[lune].parent, Some(terre));
    assert_eq!(m.bodies[lune].depth, 2);
}

#[test]
fn system_size_reaches_the_outermost_body() {
    let mut m = BodiesMapping::from_records(&solar_records(), BodiesConfig::default()).unwrap();
    m.update_local(0);
    m.update_global();
    let size = m.system_size();
    // Neptune's orbit bounds the system: its semimajor axis give or take
    // its eccentricity.
    assert!(size.0 > 4_000_000_000);
    assert!(size.0 < 5_000_000_000);
}
