//! Propagation of a single orbit: Kepler's equation, the fixed-point
//! trigonometry, and the Sun-Earth scenario.

use rust_space_trading::fixed::{isqrt, mod_180, sin_udeg, cos_udeg, mul_div};
use rust_space_trading::orbit::{kepler_residual, solve_kepler, EllipticalOrbit};

fn earth_orbit() -> EllipticalOrbit {
    // Sun-Earth elements: eccentricity 0.0167, semimajor axis in km,
    // angles in microdegrees, period in millidays.
    EllipticalOrbit::from_elements(
        16_709,
        149_598_023,
        0,
        174_873_000,
        288_064_000,
        358_617_000,
        365_250,
    )
}

fn norm(v: rust_space_trading::algebra::Vec3) -> f64 {
    let (x, y, z) = (v.x as f64, v.y as f64, v.z as f64);
    (x * x + y * y + z * z).sqrt()
}

#[test]
fn test_update_local() {
    let mut orbit = earth_orbit();
    orbit.update_pos(0);
    let earth_dist = norm(orbit.local_pos);
    let earth_speed = norm(orbit.local_speed);
    assert!(147095000. <= earth_dist);
    assert!(earth_dist <= 152100000.);
    assert!((earth_speed / 24. - 107200.).abs() <= 20000.);
}

#[test]
fn earth_orbit_stays_bounded_over_a_year() {
    for t in [0u64, 100, 200, 300, 365] {
        let mut orbit = earth_orbit();
        orbit.update_pos(t);
        let d = norm(orbit.local_pos);
        assert!(147095000. <= d && d <= 152100000., "day {}: {}", t, d);
    }
}

#[test]
fn kepler_solver_leaves_small_residual() {
    // Convergence: across eccentricities up to 0.3 and the whole range of
    // mean anomalies, ten Newton steps leave the residual of Kepler's
    // equation within a couple of microdegrees.
    for e in [0i64, 16_709, 100_000, 300_000] {
        for m_deg in [-170i64, -90, -30, 0, 30, 90, 170] {
            let m = m_deg * 1_000_000;
            let big_e = solve_kepler(m, e);
            let r = kepler_residual(m, e, big_e);
            assert!(r.abs() <= 2, "m={} e={} residual={}", m, e, r);
        }
    }
}

#[test]
fn kepler_solver_exact_value() {
    // Exact fixed-point output for one concrete input.
    assert_eq!(solve_kepler(90_000_000, 16_709), 90_957_224);
}

#[test]
fn kepler_solver_deterministic() {
    let a = solve_kepler(123_456_789, 250_000);
    let b = solve_kepler(123_456_789, 250_000);
    assert_eq!(a, b);
}

#[test]
fn propagation_deterministic_across_calls() {
    // The propagated state depends on the elements and the time alone:
    // propagating a fresh orbit and one already advanced to another tick
    // gives identical results at the same target tick.
    let mut once = earth_orbit();
    once.update_pos(200);
    let mut twice = earth_orbit();
    twice.update_pos(77);
    twice.update_pos(200);
    assert_eq!(once, twice);
}

#[test]
fn trig_exact_values() {
    assert_eq!(sin_udeg(30_000_000), 499_999);
    assert_eq!(cos_udeg(60_000_000), 499_999);
    assert_eq!(sin_udeg(0), 0);
    assert_eq!(cos_udeg(0), 1_000_000);
    assert_eq!(sin_udeg(-30_000_000), -499_999);
}

#[test]
fn mod_180_exact_values() {
    assert_eq!(mod_180(270_000_000), -90_000_000);
    assert_eq!(mod_180(-190_000_000), 170_000_000);
    assert_eq!(mod_180(360_000_000), 0);
    assert_eq!(mod_180(179_999_999), 179_999_999);
}

#[test]
fn isqrt_exact_values() {
    assert_eq!(isqrt(0), 0);
    assert_eq!(isqrt(1), 1);
    assert_eq!(isqrt(99), 9);
    assert_eq!(isqrt(100), 10);
    assert_eq!(isqrt(1_000_000_000_000), 1_000_000);
}

#[test]
fn mul_div_exact_values() {
    assert_eq!(mul_div(10, 7, 2), 35);
    assert_eq!(mul_div(-10, 7, 2), -35);
    assert_eq!(mul_div(7, 3, 2), 10);
    assert_eq!(mul_div(-7, 3, 2), -10);
}

#[test]
fn primary_body_orbit_stays_at_origin() {
    // A body with period zero keeps position and velocity at the origin.
    let mut orbit = EllipticalOrbit::from_elements(0, 0, 0, 0, 0, 0, 0);
    orbit.update_pos(1000);
    assert_eq!(orbit.local_pos.x, 0);
    assert_eq!(orbit.local_pos.y, 0);
    assert_eq!(orbit.local_pos.z, 0);
    assert_eq!(orbit.local_speed.x, 0);
    assert_eq!(orbit.local_speed.y, 0);
    assert_eq!(orbit.local_speed.z, 0);
}
