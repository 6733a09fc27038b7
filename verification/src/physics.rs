//! Gravitational acceleration over an influence set, and the symmetric
//! kick-drift-kick (leapfrog) step that advances a ship's kinematics.
//!
//! The acceleration at a point is the sum over the influence set of
//! `G m_i (p_i - p) / |p_i - p|^3`, with `G` in cubic kilometres per
//! `10^15` kilograms per day squared.  The integrator is time-reversible:
//! in a force field held static over the step, stepping forward and then
//! backward with negated velocity restores the state exactly, as long as
//! no intermediate value saturates.

use vstd::prelude::*;

verus! {

use crate::algebra::{dist_sq, dist_sq_spec, Vec3};
use crate::bodies::{wf, BodiesMapping, Body};
use crate::fixed::{add_sat_spec, clamp_spec, isqrt, mul_div_spec, sqrt_floor, tdiv, LIM};

/// The gravitational constant, cubic kilometres per `10^15` kilograms per
/// day squared.
pub const G_PKG: u64 = 498_233;

/// World-space position of an object, kilometres.
#[derive(Clone, Copy, Debug, PartialEq, Eq, Structural)]
pub struct Position(pub Vec3);

/// World-space velocity of an object, kilometres per day.
#[derive(Clone, Copy, Debug, PartialEq, Eq, Structural)]
pub struct Velocity(pub Vec3);

/// World-space acceleration of an object, kilometres per day squared.
#[derive(Clone, Copy, Debug, PartialEq, Eq, Structural)]
pub struct Acceleration(pub Vec3);

/// Mass of a body, in units of `10^15` kilograms.
#[derive(Clone, Copy, Debug, PartialEq, Eq, Structural)]
pub struct Mass(pub u64);

/// One body's contribution to the acceleration at `p`: the inverse-square
/// pull along the separation vector, zero at zero separation.
pub open spec fn accel_term_spec(body_pos: Vec3, mass: u64, p: Vec3) -> (int, int, int) {
    let r = sqrt_floor(dist_sq_spec(body_pos, p) as nat) as int;
    let r3 = r * r * r;
    if r3 == 0 {
        (0, 0, 0)
    } else {
        let gm = mass * G_PKG;
        (
            clamp_spec(tdiv(gm * (body_pos.x - p.x), r3), LIM as int),
            clamp_spec(tdiv(gm * (body_pos.y - p.y), r3), LIM as int),
            clamp_spec(tdiv(gm * (body_pos.z - p.z), r3), LIM as int),
        )
    }
}

/// Saturating sum of the contributions of the first `k` influencers.
pub open spec fn accel_sum_spec(b: Seq<Body>, inf: Seq<usize>, p: Vec3, k: int) -> (int, int, int)
    decreases k,
{
    if k <= 0 {
        (0, 0, 0)
    } else {
        let rest = accel_sum_spec(b, inf, p, k - 1);
        let i = inf[k - 1] as int;
        let t = accel_term_spec(b[i].position, b[i].mass, p);
        (
            add_sat_spec(rest.0, t.0),
            add_sat_spec(rest.1, t.1),
            add_sat_spec(rest.2, t.2),
        )
    }
}

/// One signed component of the inverse-square pull, without overflow.
fn accel_component(gm: u128, d: i64, r3: u128) -> (r: i64)
    requires
        r3 > 0,
        gm <= 0xFFFF_FFFF_FFFF_FFFF * (G_PKG as u128),
        -(2 * LIM) <= d <= 2 * LIM,
    ensures
        r == clamp_spec(tdiv((gm as int) * (d as int), r3 as int), LIM as int),
{
    let dd: u128 = if d >= 0 {
        d as u128
    } else {
        (-d) as u128
    };
    let ghost gd: int = (gm as int) * (d as int);
    proof {
        assert(gm * dd <= 36_763_106_560_306_124_119_185_180_000_000_000_000) by (nonlinear_arith)
            requires
                0 <= dd <= 4_000_000_000_000u128,
                gm <= 9_190_776_640_076_531_029_796_295u128,
        ;
        assert(gm <= 9_190_776_640_076_531_029_796_295u128) by (nonlinear_arith)
            requires
                gm <= 0xFFFF_FFFF_FFFF_FFFF * (G_PKG as u128),
        ;
        if d >= 0 {
            assert(gm * dd == gd) by (nonlinear_arith)
                requires
                    dd == d,
                    gd == (gm as int) * (d as int),
            ;
        } else {
            assert(gm * dd == -gd) by (nonlinear_arith)
                requires
                    dd == -(d as int),
                    gd == (gm as int) * (d as int),
            ;
        }
    }
    let mag: u128 = gm * dd;
    let q: u128 = mag / r3;
    proof {
        vstd::arithmetic::div_mod::lemma_div_pos_is_pos(mag as int, r3 as int);
        if d >= 0 {
            assert(tdiv(gd, r3 as int) == q);
        } else {
            assert(tdiv(gd, r3 as int) == -(q as int));
        }
    }
    let q_c: i64 = if q > LIM as u128 {
        LIM
    } else {
        q as i64
    };
    if d >= 0 {
        q_c
    } else {
        -q_c
    }
}

/// Gravitational acceleration at `p` from the bodies of the influence
/// set, in kilometres per day squared.
pub fn get_acceleration(p: Vec3, m: &BodiesMapping, influencers: &Vec<usize>) -> (a: Vec3)
    requires
        wf(*m),
        p.in_range(),
        forall|k: int|
            0 <= k < influencers@.len() ==> (#[trigger] influencers@[k]) < m.bodies@.len(),
    ensures
        a.x == accel_sum_spec(m.bodies@, influencers@, p, influencers@.len() as int).0,
        a.y == accel_sum_spec(m.bodies@, influencers@, p, influencers@.len() as int).1,
        a.z == accel_sum_spec(m.bodies@, influencers@, p, influencers@.len() as int).2,
        a.in_range(),
{
    let mut acc = Vec3 { x: 0, y: 0, z: 0 };
    let mut k: usize = 0;
    while k < influencers.len()
        invariant
            wf(*m),
            p.in_range(),
            forall|j: int|
                0 <= j < influencers@.len() ==> (#[trigger] influencers@[j]) < m.bodies@.len(),
            k <= influencers@.len(),
            acc.x == accel_sum_spec(m.bodies@, influencers@, p, k as int).0,
            acc.y == accel_sum_spec(m.bodies@, influencers@, p, k as int).1,
            acc.z == accel_sum_spec(m.bodies@, influencers@, p, k as int).2,
            acc.in_range(),
        decreases influencers@.len() - k,
    {
        let i = influencers[k];
        let body_pos = m.bodies[i].position;
        let mass = m.bodies[i].mass;
        let d2 = dist_sq(body_pos, p);
        let r = isqrt(d2);
        proof {
            assert(r * r <= d2 < SQ_DIST_CAP ==> r <= R_CAP) by (nonlinear_arith);
            assert(r <= R_CAP ==> r * r * r <= R_CAP * R_CAP * R_CAP) by (nonlinear_arith);
        }
        let r3: u128 = r * r * r;
        let term = if r3 == 0 {
            Vec3 { x: 0, y: 0, z: 0 }
        } else {
            let gm: u128 = (mass as u128) * (G_PKG as u128);
            proof {
                assert(mass * (G_PKG as int) <= 0xFFFF_FFFF_FFFF_FFFF * (G_PKG as int))
                    by (nonlinear_arith)
                    requires
                        mass <= 0xFFFF_FFFF_FFFF_FFFFu64,
                ;
            }
            Vec3 {
                x: accel_component(gm, sub_wide(body_pos.x, p.x), r3),
                y: accel_component(gm, sub_wide(body_pos.y, p.y), r3),
                z: accel_component(gm, sub_wide(body_pos.z, p.z), r3),
            }
        };
        acc = acc.vadd(term);
        k = k + 1;
    }
    acc
}

/// Cap on the squared distance of two in-range points.
pub const SQ_DIST_CAP: u128 = 48_000_000_000_000_000_000_000_001;

/// Cap on the distance of two in-range points.
pub const R_CAP: u128 = 6_928_203_230_276;

/// Difference of two in-range components, exact.
fn sub_wide(a: i64, b: i64) -> (r: i64)
    requires
        -LIM <= a <= LIM,
        -LIM <= b <= LIM,
    ensures
        r == a - b,
{
    a - b
}

/// The velocity after the first half-kick: `v + a dt / 2`.
pub open spec fn half_kick_spec(v: int, a: int, dt: int) -> int {
    add_sat_spec(v, mul_div_spec(a, dt, 2))
}

/// The position after the drift: `x + v_half dt`.
pub open spec fn drift_spec(x: int, vh: int, dt: int) -> int {
    add_sat_spec(x, mul_div_spec(vh, dt, 1))
}

/// One leapfrog step of a single coordinate, given the acceleration `a1`
/// at the old position and `a2` at the new one: half-kick, drift,
/// half-kick.
pub open spec fn leapfrog_scalar_spec(x: int, v: int, a1: int, a2: int, dt: int) -> (int, int) {
    let vh = half_kick_spec(v, a1, dt);
    let x2 = drift_spec(x, vh, dt);
    let v2 = add_sat_spec(vh, mul_div_spec(a2, dt, 2));
    (x2, v2)
}

/// Leapfrog reversibility on one coordinate: in a force field static over
/// the step, stepping forward and then stepping backward from the negated
/// velocity restores position and velocity exactly, as long as no
/// intermediate value saturates.
pub proof fn lemma_leapfrog_scalar_reversible(x: int, v: int, a1: int, a2: int, dt: int)
    requires
        dt >= 1,
        -LIM <= x <= LIM,
        -LIM <= v <= LIM,
        -LIM <= v + tdiv(a1 * dt, 2) <= LIM,
        -LIM <= tdiv(a1 * dt, 2) <= LIM,
        -LIM <= tdiv(a2 * dt, 2) <= LIM,
        -LIM <= (v + tdiv(a1 * dt, 2)) * dt <= LIM,
        -LIM <= x + (v + tdiv(a1 * dt, 2)) * dt <= LIM,
        -LIM <= v + tdiv(a1 * dt, 2) + tdiv(a2 * dt, 2) <= LIM,
    ensures
        ({
            let fwd = leapfrog_scalar_spec(x, v, a1, a2, dt);
            let back = leapfrog_scalar_spec(fwd.0, -fwd.1, a2, a1, dt);
            back.0 == x && back.1 == -v
        }),
{
    let h1 = tdiv(a1 * dt, 2);
    let h2 = tdiv(a2 * dt, 2);
    let vh = v + h1;
    lemma_tdiv_by_one(vh * dt);
    lemma_tdiv_by_one((-vh) * dt);
    assert((-vh) * dt == -(vh * dt)) by (nonlinear_arith);
}

/// Leapfrog reversibility for a full kinematic state: with the force
/// field held static over the step (`a1` at the old position, `a2` at the
/// new one), stepping forward and then stepping backward from the negated
/// velocity restores position and velocity exactly, as long as no
/// intermediate component saturates.
pub proof fn lemma_leapfrog_reversible(x: Vec3, v: Vec3, a1: Vec3, a2: Vec3, dt: int)
    requires
        dt >= 1,
        x.in_range(),
        v.in_range(),
        -LIM <= v.x + tdiv(a1.x * dt, 2) <= LIM,
        -LIM <= v.y + tdiv(a1.y * dt, 2) <= LIM,
        -LIM <= v.z + tdiv(a1.z * dt, 2) <= LIM,
        -LIM <= tdiv(a1.x * dt, 2) <= LIM,
        -LIM <= tdiv(a1.y * dt, 2) <= LIM,
        -LIM <= tdiv(a1.z * dt, 2) <= LIM,
        -LIM <= tdiv(a2.x * dt, 2) <= LIM,
        -LIM <= tdiv(a2.y * dt, 2) <= LIM,
        -LIM <= tdiv(a2.z * dt, 2) <= LIM,
        -LIM <= (v.x + tdiv(a1.x * dt, 2)) * dt <= LIM,
        -LIM <= (v.y + tdiv(a1.y * dt, 2)) * dt <= LIM,
        -LIM <= (v.z + tdiv(a1.z * dt, 2)) * dt <= LIM,
        -LIM <= x.x + (v.x + tdiv(a1.x * dt, 2)) * dt <= LIM,
        -LIM <= x.y + (v.y + tdiv(a1.y * dt, 2)) * dt <= LIM,
        -LIM <= x.z + (v.z + tdiv(a1.z * dt, 2)) * dt <= LIM,
        -LIM <= v.x + tdiv(a1.x * dt, 2) + tdiv(a2.x * dt, 2) <= LIM,
        -LIM <= v.y + tdiv(a1.y * dt, 2) + tdiv(a2.y * dt, 2) <= LIM,
        -LIM <= v.z + tdiv(a1.z * dt, 2) + tdiv(a2.z * dt, 2) <= LIM,
    ensures
        ({
            let fx = leapfrog_scalar_spec(x.x as int, v.x as int, a1.x as int, a2.x as int, dt);
            let fy = leapfrog_scalar_spec(x.y as int, v.y as int, a1.y as int, a2.y as int, dt);
            let fz = leapfrog_scalar_spec(x.z as int, v.z as int, a1.z as int, a2.z as int, dt);
            let bx = leapfrog_scalar_spec(fx.0, -fx.1, a2.x as int, a1.x as int, dt);
            let by = leapfrog_scalar_spec(fy.0, -fy.1, a2.y as int, a1.y as int, dt);
            let bz = leapfrog_scalar_spec(fz.0, -fz.1, a2.z as int, a1.z as int, dt);
            &&& bx.0 == x.x && bx.1 == -v.x
            &&& by.0 == x.y && by.1 == -v.y
            &&& bz.0 == x.z && bz.1 == -v.z
        }),
{
    lemma_leapfrog_scalar_reversible(x.x as int, v.x as int, a1.x as int, a2.x as int, dt);
    lemma_leapfrog_scalar_reversible(x.y as int, v.y as int, a1.y as int, a2.y as int, dt);
    lemma_leapfrog_scalar_reversible(x.z as int, v.z as int, a1.z as int, a2.z as int, dt);
}

/// Division by one changes nothing.
proof fn lemma_tdiv_by_one(a: int)
    ensures
        tdiv(a, 1) == a,
{
    if a >= 0 {
        vstd::arithmetic::div_mod::lemma_div_multiples_vanish(a, 1);
        assert(1 * a == a);
    } else {
        vstd::arithmetic::div_mod::lemma_div_multiples_vanish(-a, 1);
        assert(1 * (-a) == -a);
    }
}

} // verus!
