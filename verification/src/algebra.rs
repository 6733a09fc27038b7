//! Integer 2- and 3-component vectors and the Euler rotation that carries
//! orbital-plane coordinates into the parent body's frame.

use vstd::prelude::*;

verus! {

use crate::fixed::{
    add_sat, add_sat_spec, cos_spec, cos_udeg, mul_div, mul_div_spec, sin_spec, sin_udeg,
    sub_sat, sub_sat_spec, LIM, SCALE,
};

/// A point or direction in the two-dimensional orbital plane.
#[derive(Clone, Copy, Debug, PartialEq, Eq, Structural)]
pub struct Vec2 {
    pub x: i64,
    pub y: i64,
}

/// A point or direction in three-dimensional space.
#[derive(Clone, Copy, Debug, PartialEq, Eq, Structural)]
pub struct Vec3 {
    pub x: i64,
    pub y: i64,
    pub z: i64,
}

impl Vec2 {
    /// Whether both components lie within the coordinate bound.
    pub open spec fn in_range(self) -> bool {
        -LIM <= self.x <= LIM && -LIM <= self.y <= LIM
    }

    /// The origin of the orbital plane.
    pub fn zero() -> (v: Vec2)
        ensures
            v.x == 0 && v.y == 0,
    {
        Vec2 { x: 0, y: 0 }
    }
}

impl Vec3 {
    /// Whether all components lie within the coordinate bound.
    pub open spec fn in_range(self) -> bool {
        -LIM <= self.x <= LIM && -LIM <= self.y <= LIM && -LIM <= self.z <= LIM
    }

    /// The coordinate origin.
    pub fn zero() -> (v: Vec3)
        ensures
            v.x == 0 && v.y == 0 && v.z == 0,
    {
        Vec3 { x: 0, y: 0, z: 0 }
    }

    /// Saturating component-wise sum.
    pub fn vadd(self, other: Vec3) -> (v: Vec3)
        ensures
            v.x == add_sat_spec(self.x as int, other.x as int),
            v.y == add_sat_spec(self.y as int, other.y as int),
            v.z == add_sat_spec(self.z as int, other.z as int),
            v.in_range(),
    {
        Vec3 { x: add_sat(self.x, other.x), y: add_sat(self.y, other.y), z: add_sat(
            self.z,
            other.z,
        ) }
    }

    /// Saturating component-wise difference.
    pub fn vsub(self, other: Vec3) -> (v: Vec3)
        ensures
            v.x == sub_sat_spec(self.x as int, other.x as int),
            v.y == sub_sat_spec(self.y as int, other.y as int),
            v.z == sub_sat_spec(self.z as int, other.z as int),
            v.in_range(),
    {
        Vec3 { x: sub_sat(self.x, other.x), y: sub_sat(self.y, other.y), z: sub_sat(
            self.z,
            other.z,
        ) }
    }
}

/// Squared Euclidean distance between two in-range points, exact.
pub open spec fn dist_sq_spec(a: Vec3, b: Vec3) -> int {
    (a.x - b.x) * (a.x - b.x) + (a.y - b.y) * (a.y - b.y) + (a.z - b.z) * (a.z - b.z)
}

/// Squared Euclidean distance between two in-range points.
pub fn dist_sq(a: Vec3, b: Vec3) -> (r: u128)
    requires
        a.in_range(),
        b.in_range(),
    ensures
        r == dist_sq_spec(a, b),
        r <= 48_000_000_000_000_000_000_000_000,
{
    let dx: i128 = (a.x as i128) - (b.x as i128);
    let dy: i128 = (a.y as i128) - (b.y as i128);
    let dz: i128 = (a.z as i128) - (b.z as i128);
    proof {
        assert(-(4_000_000_000_000int) <= dx <= 4_000_000_000_000 ==> 0 <= dx * dx
            <= 16_000_000_000_000_000_000_000_000) by (nonlinear_arith);
        assert(-(4_000_000_000_000int) <= dy <= 4_000_000_000_000 ==> 0 <= dy * dy
            <= 16_000_000_000_000_000_000_000_000) by (nonlinear_arith);
        assert(-(4_000_000_000_000int) <= dz <= 4_000_000_000_000 ==> 0 <= dz * dz
            <= 16_000_000_000_000_000_000_000_000) by (nonlinear_arith);
    }
    let s: i128 = dx * dx + dy * dy + dz * dz;
    s as u128
}

/// The parent-frame image of an orbital-plane vector `(x, y)` under the
/// standard 3-1-3 rotation sequence: argument of periapsis `o`, inclination
/// `incl`, then longitude of the ascending node `node` (all microdegrees).
pub open spec fn rotate_spec(x: int, y: int, o: int, node: int, incl: int) -> (int, int, int) {
    let s = SCALE as int;
    let x1 = sub_sat_spec(mul_div_spec(x, cos_spec(o), s), mul_div_spec(y, sin_spec(o), s));
    let y1 = add_sat_spec(mul_div_spec(x, sin_spec(o), s), mul_div_spec(y, cos_spec(o), s));
    let y2 = mul_div_spec(y1, cos_spec(incl), s);
    let z2 = mul_div_spec(y1, sin_spec(incl), s);
    let x3 = sub_sat_spec(
        mul_div_spec(x1, cos_spec(node), s),
        mul_div_spec(y2, sin_spec(node), s),
    );
    let y3 = add_sat_spec(
        mul_div_spec(x1, sin_spec(node), s),
        mul_div_spec(y2, cos_spec(node), s),
    );
    (x3, y3, z2)
}

/// Rotate an orbital-plane vector into the parent frame.
pub fn rotate(p: Vec2, o: i64, node: i64, incl: i64) -> (v: Vec3)
    ensures
        v.x == rotate_spec(p.x as int, p.y as int, o as int, node as int, incl as int).0,
        v.y == rotate_spec(p.x as int, p.y as int, o as int, node as int, incl as int).1,
        v.z == rotate_spec(p.x as int, p.y as int, o as int, node as int, incl as int).2,
        v.in_range(),
{
    let co = cos_udeg(o);
    let so = sin_udeg(o);
    let ci = cos_udeg(incl);
    let si = sin_udeg(incl);
    let cn = cos_udeg(node);
    let sn = sin_udeg(node);
    let x1 = sub_sat(mul_div(p.x, co, SCALE), mul_div(p.y, so, SCALE));
    let y1 = add_sat(mul_div(p.x, so, SCALE), mul_div(p.y, co, SCALE));
    let y2 = mul_div(y1, ci, SCALE);
    let z2 = mul_div(y1, si, SCALE);
    let x3 = sub_sat(mul_div(x1, cn, SCALE), mul_div(y2, sn, SCALE));
    let y3 = add_sat(mul_div(x1, sn, SCALE), mul_div(y2, cn, SCALE));
    Vec3 { x: x3, y: y3, z: z2 }
}

} // verus!
