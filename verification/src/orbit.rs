//! Keplerian orbital elements and the analytic propagation of a body along
//! its ellipse: mean anomaly from elapsed time, eccentric anomaly by a
//! capped Newton iteration on Kepler's equation, then orbital-plane
//! position and velocity rotated into the parent body's frame.
//!
//! Angles are microdegrees, distances kilometres, velocities kilometres per
//! day, and the revolution period millidays; every step is an exact integer
//! function of the orbital elements and the simulated time, so repeated
//! propagation at the same tick reproduces the same state.

use vstd::prelude::*;

verus! {

use crate::algebra::{rotate, rotate_spec, Vec2, Vec3};
use crate::fixed::{
    add_sat, add_sat_spec, cos_spec, cos_udeg, isqrt, lemma_mul_div_fraction, mod_180_i128,
    mod_180_spec, mul_div, mul_div_spec, sin_spec, sin_udeg, sqrt_floor, sub_sat, sub_sat_spec,
    tdiv, LIM, SCALE,
};

/// Microdegrees per radian, scaled by `SCALE`: converts an eccentricity
/// fraction into the degree-domain coefficient of Kepler's equation.
pub const DEG_RAD_NUM: i64 = 57_295_780;

/// Two pi in microradian-millidays: the mean motion numerator.
pub const TWO_PI_URAD_MDAYS: i64 = 6_283_185_307;

/// Microdegrees of mean anomaly per simulated day, times the millidays of
/// one period.
pub const TURN_UDEG_MDAYS: i64 = 360_000_000_000;

/// Newton-correction tolerance for the Kepler solver, in microdegrees.
pub const KEPLER_TOL: i64 = 1;

/// Iteration cap for the Kepler solver.
pub const KEPLER_MAX_STEPS: u64 = 10;

/// The eccentricity expressed in the degree domain, microdegrees.
pub open spec fn ecc_deg_spec(e: int) -> int {
    mul_div_spec(e, DEG_RAD_NUM as int, SCALE as int)
}

/// Starting estimate of the eccentric anomaly: `M + e_deg * sin M`.
pub open spec fn kepler_start_spec(m: int, ed: int) -> int {
    add_sat_spec(m, mul_div_spec(ed, sin_spec(m), SCALE as int))
}

/// Residual of Kepler's equation at estimate `cur`:
/// `M - (cur - e_deg * sin cur)`, microdegrees.
pub open spec fn kepler_dm_spec(m: int, ed: int, cur: int) -> int {
    sub_sat_spec(m, sub_sat_spec(cur, mul_div_spec(ed, sin_spec(cur), SCALE as int)))
}

/// Newton denominator `1 - e * cos cur`, in units of `1 / SCALE`.
pub open spec fn kepler_den_spec(e: int, cur: int) -> int {
    SCALE - mul_div_spec(e, cos_spec(cur), SCALE as int)
}

/// One Newton correction of the eccentric-anomaly estimate.
pub open spec fn kepler_de_spec(m: int, ed: int, e: int, cur: int) -> int {
    mul_div_spec(kepler_dm_spec(m, ed, cur), SCALE as int, kepler_den_spec(e, cur))
}

/// The capped Newton iteration: apply corrections until one falls within
/// tolerance or the fuel runs out, and accept the last estimate either way.
pub open spec fn kepler_iter_spec(m: int, ed: int, e: int, cur: int, fuel: nat) -> int
    decreases fuel,
{
    if fuel == 0 {
        cur
    } else {
        let de = kepler_de_spec(m, ed, e, cur);
        let next = add_sat_spec(cur, de);
        if -KEPLER_TOL <= de <= KEPLER_TOL {
            next
        } else {
            kepler_iter_spec(m, ed, e, next, (fuel - 1) as nat)
        }
    }
}

/// The eccentric anomaly the solver returns for mean anomaly `m` and
/// eccentricity `e`.
pub open spec fn kepler_solve_spec(m: int, e: int) -> int {
    let ed = ecc_deg_spec(e);
    kepler_iter_spec(m, ed, e, kepler_start_spec(m, ed), KEPLER_MAX_STEPS as nat)
}

/// Solve Kepler's equation `M = E - e sin E` for the eccentric anomaly by
/// at most ten Newton corrections, stopping early once a correction is
/// within tolerance; the last estimate is accepted even unconverged.
pub fn solve_kepler(m: i64, e: i64) -> (big_e: i64)
    requires
        0 <= e < SCALE,
    ensures
        big_e == kepler_solve_spec(m as int, e as int),
        -LIM <= big_e <= LIM,
{
    let ed = mul_div(e, DEG_RAD_NUM, SCALE);
    let mut cur = add_sat(m, mul_div(ed, sin_udeg(m), SCALE));
    let ghost goal = kepler_solve_spec(m as int, e as int);
    let mut i: u64 = 0;
    let mut done = false;
    while i < KEPLER_MAX_STEPS && !done
        invariant
            0 <= e < SCALE,
            ed == ecc_deg_spec(e as int),
            i <= KEPLER_MAX_STEPS,
            -LIM <= cur <= LIM,
            !done ==> kepler_iter_spec(m as int, ed as int, e as int, cur as int, (
            KEPLER_MAX_STEPS - i) as nat) == goal,
            done ==> cur == goal,
        decreases KEPLER_MAX_STEPS - i,
    {
        let se = sin_udeg(cur);
        let dm = sub_sat(m, sub_sat(cur, mul_div(ed, se, SCALE)));
        let ce = cos_udeg(cur);
        let frac = mul_div(e, ce, SCALE);
        proof {
            lemma_mul_div_fraction(e as int, ce as int);
        }
        let den = SCALE - frac;
        let de = mul_div(dm, SCALE, den);
        cur = add_sat(cur, de);
        i = i + 1;
        if -KEPLER_TOL <= de && de <= KEPLER_TOL {
            done = true;
        }
    }
    cur
}

/// Kepler solver convergence, exactly provable on the circular case: with
/// zero eccentricity the equation degenerates to `M = E`, the very first
/// Newton correction is zero, and the solver stops at once with the mean
/// anomaly unchanged — a zero residual.
pub proof fn lemma_kepler_circular(m: int)
    requires
        -LIM <= m <= LIM,
    ensures
        kepler_solve_spec(m, 0) == m,
        kepler_dm_spec(m, ecc_deg_spec(0), kepler_solve_spec(m, 0)) == 0,
{
    let ed = ecc_deg_spec(0);
    assert(ed == 0);
    assert(kepler_start_spec(m, ed) == m);
    assert(kepler_de_spec(m, ed, 0, m) == 0);
    assert(kepler_iter_spec(m, ed, 0, m, KEPLER_MAX_STEPS as nat) == m);
}

/// Residual of Kepler's equation at a given eccentric-anomaly estimate;
/// a converged solve leaves this within a few microdegrees.
pub fn kepler_residual(m: i64, e: i64, big_e: i64) -> (r: i64)
    requires
        0 <= e < SCALE,
    ensures
        r == kepler_dm_spec(m as int, ecc_deg_spec(e as int), big_e as int),
{
    let ed = mul_div(e, DEG_RAD_NUM, SCALE);
    sub_sat(m, sub_sat(big_e, mul_div(ed, sin_udeg(big_e), SCALE)))
}

/// `sqrt(1 - e^2)` in units of `1 / SCALE`, for an eccentricity fraction.
pub open spec fn sqrt_one_minus_e_sq_spec(e: int) -> int {
    sqrt_floor((SCALE * SCALE - e * e) as nat) as int
}

/// `sqrt(1 - e^2)` in units of `1 / SCALE`.
pub fn sqrt_one_minus_e_sq(e: i64) -> (r: i64)
    requires
        0 <= e < SCALE,
    ensures
        r == sqrt_one_minus_e_sq_spec(e as int),
        0 <= r <= SCALE,
{
    proof {
        assert(0 <= e * e < (SCALE as int) * (SCALE as int)) by (nonlinear_arith)
            requires
                0 <= e < SCALE,
        ;
    }
    let n: u128 = ((SCALE as u128) * (SCALE as u128)) - ((e as u128) * (e as u128));
    let r = isqrt(n);
    proof {
        assert(r > SCALE ==> r * r > (SCALE as int) * (SCALE as int)) by (nonlinear_arith);
    }
    r as i64
}

/// A body's orbital elements together with the per-tick derived state the
/// propagator maintains.
#[derive(Clone, Copy, Debug, PartialEq, Eq, Structural)]
pub struct EllipticalOrbit {
    /// Eccentricity, in units of `1 / SCALE`; always below one.
    pub eccentricity: i64,
    /// Semimajor axis, kilometres.
    pub semimajor_axis: i64,
    /// Inclination, microdegrees.
    pub inclination: i64,
    /// Longitude of the ascending node, microdegrees.
    pub long_asc_node: i64,
    /// Argument of periapsis, microdegrees.
    pub arg_periapsis: i64,
    /// Mean anomaly at time zero, microdegrees.
    pub initial_mean_anomaly: i64,
    /// Revolution period, millidays; zero marks a body that does not orbit.
    pub revolution_period: i64,
    /// Mean anomaly at the last propagated time, microdegrees.
    pub mean_anomaly: i64,
    /// Eccentric anomaly at the last propagated time, microdegrees.
    pub eccentric_anomaly: i64,
    /// Position in the orbital plane around the host body, kilometres.
    pub orbital_position: Vec2,
    /// Velocity in the orbital plane, kilometres per day.
    pub orbital_velocity: Vec2,
    /// Position with respect to the host body, kilometres.
    pub local_pos: Vec3,
    /// Velocity with respect to the host body, kilometres per day.
    pub local_speed: Vec3,
}

/// Element ranges every catalog orbit satisfies.
pub open spec fn wf_elements(o: EllipticalOrbit) -> bool {
    &&& 0 <= o.eccentricity < SCALE
    &&& 0 <= o.semimajor_axis <= LIM
    &&& 0 <= o.revolution_period
}

/// The two states share all seven orbital elements.
pub open spec fn same_elements(a: EllipticalOrbit, b: EllipticalOrbit) -> bool {
    &&& a.eccentricity == b.eccentricity
    &&& a.semimajor_axis == b.semimajor_axis
    &&& a.inclination == b.inclination
    &&& a.long_asc_node == b.long_asc_node
    &&& a.arg_periapsis == b.arg_periapsis
    &&& a.initial_mean_anomaly == b.initial_mean_anomaly
    &&& a.revolution_period == b.revolution_period
}

/// Mean anomaly after `t` simulated days: the initial anomaly advanced by
/// a full turn per revolution, normalized; a non-orbiting body keeps its
/// stored anomaly.
pub open spec fn mean_anomaly_after(o: EllipticalOrbit, t: int) -> int {
    if o.revolution_period == 0 {
        o.mean_anomaly as int
    } else {
        mod_180_spec(
            o.initial_mean_anomaly + tdiv((TURN_UDEG_MDAYS as int) * t, o.revolution_period as int),
        )
    }
}

/// Eccentric anomaly after `t` simulated days.
#[verifier::opaque]
pub open spec fn ecc_anomaly_after(o: EllipticalOrbit, t: int) -> int {
    kepler_solve_spec(mean_anomaly_after(o, t), o.eccentricity as int)
}

/// Every estimate the capped Newton iteration can produce stays within the
/// coordinate bound.
pub proof fn lemma_kepler_iter_bounds(m: int, ed: int, e: int, cur: int, fuel: nat)
    requires
        -LIM <= cur <= LIM,
    ensures
        -LIM <= kepler_iter_spec(m, ed, e, cur, fuel) <= LIM,
    decreases fuel,
{
    if fuel != 0 {
        let de = kepler_de_spec(m, ed, e, cur);
        let next = add_sat_spec(cur, de);
        if !(-KEPLER_TOL <= de <= KEPLER_TOL) {
            lemma_kepler_iter_bounds(m, ed, e, next, (fuel - 1) as nat);
        }
    }
}

/// The propagated eccentric anomaly stays within the coordinate bound.
pub proof fn lemma_ecc_anomaly_bounds(o: EllipticalOrbit, t: int)
    ensures
        -LIM <= ecc_anomaly_after(o, t) <= LIM,
{
    reveal(ecc_anomaly_after);
    let m = mean_anomaly_after(o, t);
    let ed = ecc_deg_spec(o.eccentricity as int);
    lemma_kepler_iter_bounds(
        m,
        ed,
        o.eccentricity as int,
        kepler_start_spec(m, ed),
        KEPLER_MAX_STEPS as nat,
    );
}

/// Orbital-plane abscissa after `t` days: `a (cos E - e)`.
pub open spec fn orb_x_after(o: EllipticalOrbit, t: int) -> int {
    mul_div_spec(
        o.semimajor_axis as int,
        cos_spec(ecc_anomaly_after(o, t)) - o.eccentricity,
        SCALE as int,
    )
}

/// Orbital-plane ordinate after `t` days: `a sqrt(1 - e^2) sin E`.
pub open spec fn orb_y_after(o: EllipticalOrbit, t: int) -> int {
    mul_div_spec(
        mul_div_spec(
            o.semimajor_axis as int,
            sqrt_one_minus_e_sq_spec(o.eccentricity as int),
            SCALE as int,
        ),
        sin_spec(ecc_anomaly_after(o, t)),
        SCALE as int,
    )
}

/// Mean motion, microradians per day.
pub open spec fn mean_motion_spec(o: EllipticalOrbit) -> int {
    tdiv(TWO_PI_URAD_MDAYS as int, o.revolution_period as int)
}

/// Eccentric-anomaly rate after `t` days, microradians per day.
pub open spec fn ecc_rate_after(o: EllipticalOrbit, t: int) -> int {
    mul_div_spec(
        mean_motion_spec(o),
        SCALE as int,
        kepler_den_spec(o.eccentricity as int, ecc_anomaly_after(o, t)),
    )
}

/// Orbital-plane velocity abscissa after `t` days; a non-orbiting body
/// keeps its stored value.
pub open spec fn orb_vx_after(o: EllipticalOrbit, t: int) -> int {
    if o.revolution_period == 0 {
        o.orbital_velocity.x as int
    } else {
        -mul_div_spec(
            mul_div_spec(
                o.semimajor_axis as int,
                sin_spec(ecc_anomaly_after(o, t)),
                SCALE as int,
            ),
            ecc_rate_after(o, t),
            SCALE as int,
        )
    }
}

/// Orbital-plane velocity ordinate after `t` days; a non-orbiting body
/// keeps its stored value.
pub open spec fn orb_vy_after(o: EllipticalOrbit, t: int) -> int {
    if o.revolution_period == 0 {
        o.orbital_velocity.y as int
    } else {
        mul_div_spec(
            mul_div_spec(
                mul_div_spec(
                    o.semimajor_axis as int,
                    cos_spec(ecc_anomaly_after(o, t)),
                    SCALE as int,
                ),
                ecc_rate_after(o, t),
                SCALE as int,
            ),
            sqrt_one_minus_e_sq_spec(o.eccentricity as int),
            SCALE as int,
        )
    }
}

/// Every propagated quantity stays within the coordinate bound, so the
/// propagated state is representable.
pub proof fn lemma_after_values_in_range(o: EllipticalOrbit, t: int)
    ensures
        -LIM <= ecc_anomaly_after(o, t) <= LIM,
        -LIM <= orb_x_after(o, t) <= LIM,
        -LIM <= orb_y_after(o, t) <= LIM,
        i64::MIN <= orb_vx_after(o, t) <= i64::MAX,
        i64::MIN <= orb_vy_after(o, t) <= i64::MAX,
        -LIM <= local_pos_after(o, t).0 <= LIM,
        -LIM <= local_pos_after(o, t).1 <= LIM,
        -LIM <= local_pos_after(o, t).2 <= LIM,
        -LIM <= local_speed_after(o, t).0 <= LIM,
        -LIM <= local_speed_after(o, t).1 <= LIM,
        -LIM <= local_speed_after(o, t).2 <= LIM,
{
    lemma_ecc_anomaly_bounds(o, t);
}

/// Hierarchy composition determinism: the propagated state of an orbiting
/// body is a pure function of its seven orbital elements and the simulated
/// time, never of the derived state left over from earlier ticks, so
/// repeated propagation at one tick reproduces identical positions.
pub proof fn lemma_propagation_deterministic(a: EllipticalOrbit, b: EllipticalOrbit, t: int)
    requires
        same_elements(a, b),
        a.revolution_period > 0,
    ensures
        mean_anomaly_after(a, t) == mean_anomaly_after(b, t),
        ecc_anomaly_after(a, t) == ecc_anomaly_after(b, t),
        orb_x_after(a, t) == orb_x_after(b, t),
        orb_y_after(a, t) == orb_y_after(b, t),
        orb_vx_after(a, t) == orb_vx_after(b, t),
        orb_vy_after(a, t) == orb_vy_after(b, t),
        local_pos_after(a, t) == local_pos_after(b, t),
        local_speed_after(a, t) == local_speed_after(b, t),
{
    reveal(ecc_anomaly_after);
}

/// Parent-frame position after `t` days.
pub open spec fn local_pos_after(o: EllipticalOrbit, t: int) -> (int, int, int) {
    rotate_spec(
        orb_x_after(o, t),
        orb_y_after(o, t),
        o.arg_periapsis as int,
        o.long_asc_node as int,
        o.inclination as int,
    )
}

/// Parent-frame velocity after `t` days.
pub open spec fn local_speed_after(o: EllipticalOrbit, t: int) -> (int, int, int) {
    rotate_spec(
        orb_vx_after(o, t),
        orb_vy_after(o, t),
        o.arg_periapsis as int,
        o.long_asc_node as int,
        o.inclination as int,
    )
}

impl EllipticalOrbit {
    /// An orbit freshly built from catalog elements: derived state starts
    /// at zero and the mean anomaly at its initial value.
    pub fn from_elements(
        eccentricity: i64,
        semimajor_axis: i64,
        inclination: i64,
        long_asc_node: i64,
        arg_periapsis: i64,
        initial_mean_anomaly: i64,
        revolution_period: i64,
    ) -> (o: EllipticalOrbit)
        requires
            0 <= eccentricity < SCALE,
            0 <= semimajor_axis <= LIM,
            0 <= revolution_period,
        ensures
            o.eccentricity == eccentricity,
            o.semimajor_axis == semimajor_axis,
            o.inclination == inclination,
            o.long_asc_node == long_asc_node,
            o.arg_periapsis == arg_periapsis,
            o.initial_mean_anomaly == initial_mean_anomaly,
            o.revolution_period == revolution_period,
            o.mean_anomaly == initial_mean_anomaly,
            o.eccentric_anomaly == 0,
            o.orbital_position == (Vec2 { x: 0, y: 0 }),
            o.orbital_velocity == (Vec2 { x: 0, y: 0 }),
            o.local_pos == (Vec3 { x: 0, y: 0, z: 0 }),
            o.local_speed == (Vec3 { x: 0, y: 0, z: 0 }),
            wf_elements(o),
    {
        EllipticalOrbit {
            eccentricity,
            semimajor_axis,
            inclination,
            long_asc_node,
            arg_periapsis,
            initial_mean_anomaly,
            revolution_period,
            mean_anomaly: initial_mean_anomaly,
            eccentric_anomaly: 0,
            orbital_position: Vec2 { x: 0, y: 0 },
            orbital_velocity: Vec2 { x: 0, y: 0 },
            local_pos: Vec3 { x: 0, y: 0, z: 0 },
            local_speed: Vec3 { x: 0, y: 0, z: 0 },
        }
    }

    /// Advance the mean anomaly to simulated day `time`.
    pub fn update_m(&mut self, time: u64)
        requires
            wf_elements(*old(self)),
        ensures
            same_elements(*final(self), *old(self)),
            final(self).mean_anomaly == mean_anomaly_after(*old(self), time as int),
            final(self).eccentric_anomaly == old(self).eccentric_anomaly,
            final(self).orbital_position == old(self).orbital_position,
            final(self).orbital_velocity == old(self).orbital_velocity,
            final(self).local_pos == old(self).local_pos,
            final(self).local_speed == old(self).local_speed,
    {
        if self.revolution_period == 0 {
            return ;
        }
        proof {
            assert(0 <= (TURN_UDEG_MDAYS as int) * (time as int) <= TURN_UDEG_MDAYS * (
            u64::MAX as int)) by (nonlinear_arith)
                requires
                    0 <= time <= u64::MAX,
            ;
        }
        let num: i128 = (TURN_UDEG_MDAYS as i128) * (time as i128);
        let q: i128 = num / (self.revolution_period as i128);
        self.mean_anomaly = mod_180_i128((self.initial_mean_anomaly as i128) + q);
    }

    /// Advance mean and eccentric anomaly to simulated day `time`.
    pub fn update_e(&mut self, time: u64)
        requires
            wf_elements(*old(self)),
        ensures
            same_elements(*final(self), *old(self)),
            final(self).mean_anomaly == mean_anomaly_after(*old(self), time as int),
            final(self).eccentric_anomaly == ecc_anomaly_after(*old(self), time as int),
            final(self).orbital_position == old(self).orbital_position,
            final(self).orbital_velocity == old(self).orbital_velocity,
            final(self).local_pos == old(self).local_pos,
            final(self).local_speed == old(self).local_speed,
    {
        proof {
            reveal(ecc_anomaly_after);
        }
        self.update_m(time);
        self.eccentric_anomaly = solve_kepler(self.mean_anomaly, self.eccentricity);
    }

    /// Advance the anomalies and the orbital-plane position and velocity
    /// to simulated day `time`.
    pub fn update_orb_pos(&mut self, time: u64)
        requires
            wf_elements(*old(self)),
        ensures
            same_elements(*final(self), *old(self)),
            final(self).mean_anomaly == mean_anomaly_after(*old(self), time as int),
            final(self).eccentric_anomaly == ecc_anomaly_after(*old(self), time as int),
            final(self).orbital_position.x == orb_x_after(*old(self), time as int),
            final(self).orbital_position.y == orb_y_after(*old(self), time as int),
            final(self).orbital_velocity.x == orb_vx_after(*old(self), time as int),
            final(self).orbital_velocity.y == orb_vy_after(*old(self), time as int),
            final(self).local_pos == old(self).local_pos,
            final(self).local_speed == old(self).local_speed,
    {
        self.update_e(time);
        let e = self.eccentricity;
        let a = self.semimajor_axis;
        let big_e = self.eccentric_anomaly;
        let ce = cos_udeg(big_e);
        let se = sin_udeg(big_e);
        let x = mul_div(a, ce - e, SCALE);
        let root = sqrt_one_minus_e_sq(e);
        let y = mul_div(mul_div(a, root, SCALE), se, SCALE);
        self.orbital_position = Vec2 { x, y };
        if self.revolution_period == 0 {
            return ;
        }
        let mdot = TWO_PI_URAD_MDAYS / self.revolution_period;
        let frac = mul_div(e, ce, SCALE);
        proof {
            lemma_mul_div_fraction(e as int, ce as int);
        }
        let den = SCALE - frac;
        let edot = mul_div(mdot, SCALE, den);
        let pdot = -mul_div(mul_div(a, se, SCALE), edot, SCALE);
        let qdot = mul_div(mul_div(mul_div(a, ce, SCALE), edot, SCALE), root, SCALE);
        self.orbital_velocity = Vec2 { x: pdot, y: qdot };
    }

    /// Advance the whole orbital state to simulated day `time`, including
    /// the parent-frame position and velocity.
    pub fn update_pos(&mut self, time: u64)
        requires
            wf_elements(*old(self)),
        ensures
            same_elements(*final(self), *old(self)),
            final(self).mean_anomaly == mean_anomaly_after(*old(self), time as int),
            final(self).eccentric_anomaly == ecc_anomaly_after(*old(self), time as int),
            final(self).orbital_position.x == orb_x_after(*old(self), time as int),
            final(self).orbital_position.y == orb_y_after(*old(self), time as int),
            final(self).orbital_velocity.x == orb_vx_after(*old(self), time as int),
            final(self).orbital_velocity.y == orb_vy_after(*old(self), time as int),
            final(self).local_pos.x == local_pos_after(*old(self), time as int).0,
            final(self).local_pos.y == local_pos_after(*old(self), time as int).1,
            final(self).local_pos.z == local_pos_after(*old(self), time as int).2,
            final(self).local_speed.x == local_speed_after(*old(self), time as int).0,
            final(self).local_speed.y == local_speed_after(*old(self), time as int).1,
            final(self).local_speed.z == local_speed_after(*old(self), time as int).2,
            final(self).local_pos.in_range(),
            final(self).local_speed.in_range(),
    {
        self.update_orb_pos(time);
        self.local_pos = rotate(
            self.orbital_position,
            self.arg_periapsis,
            self.long_asc_node,
            self.inclination,
        );
        self.local_speed = rotate(
            self.orbital_velocity,
            self.arg_periapsis,
            self.long_asc_node,
            self.inclination,
        );
    }
}

} // verus!
