//! The celestial-body arena: static catalog records are filtered, ordered
//! parent-before-child from the primary body, and carried together with the
//! per-tick derived state (orbit anomalies, world position and velocity).
//!
//! A catalog whose parent references do not form a tree rooted at a single
//! primary body is rejected at load time rather than silently left with
//! never-positioned bodies.

use vstd::prelude::*;

verus! {

use crate::algebra::{dist_sq, dist_sq_spec, Vec2, Vec3};
use crate::fixed::{add_sat_spec, isqrt, sqrt_floor, LIM, SCALE, SQRT_BOUND};
use crate::orbit::{
    lemma_after_values_in_range, same_elements,
    ecc_anomaly_after, local_pos_after, local_speed_after, mean_anomaly_after, orb_vx_after,
    orb_vy_after, orb_x_after, orb_y_after, wf_elements, EllipticalOrbit,
};

/// Longest accepted body or ship identifier, in bytes.
pub const MAX_ID_LENGTH: usize = 32;

/// An identifier is its bytes; catalog and registry entries keep them short.
pub open spec fn id_ok(id: Seq<u8>) -> bool {
    id.len() <= MAX_ID_LENGTH
}

/// Copy an identifier.
pub fn copy_id(id: &Vec<u8>) -> (r: Vec<u8>)
    ensures
        r@ == id@,
{
    let mut out: Vec<u8> = Vec::new();
    let mut i: usize = 0;
    while i < id.len()
        invariant
            i <= id@.len(),
            out@ == id@.subrange(0, i as int),
        decreases id@.len() - i,
    {
        out.push(id[i]);
        proof {
            assert(out@ =~= id@.subrange(0, i + 1));
        }
        i = i + 1;
    }
    proof {
        assert(id@.subrange(0, id@.len() as int) =~= id@);
    }
    out
}

/// Whether two identifiers hold the same bytes.
pub fn id_eq(a: &Vec<u8>, b: &Vec<u8>) -> (r: bool)
    ensures
        r == (a@ == b@),
{
    if a.len() != b.len() {
        return false;
    }
    let mut i: usize = 0;
    while i < a.len()
        invariant
            a@.len() == b@.len(),
            i <= a@.len(),
            forall|k: int| 0 <= k < i ==> a@[k] == b@[k],
        decreases a@.len() - i,
    {
        if a[i] != b[i] {
            return false;
        }
        i = i + 1;
    }
    proof {
        assert(a@ =~= b@);
    }
    true
}

/// Kind of a celestial body, from the star down to the moons.
#[derive(Clone, Copy, Debug, PartialEq, Eq, Structural)]
pub enum BodyType {
    Star,
    Planet,
    Moon,
}

/// Position of a body kind in the hierarchy: the star ranks lowest.
pub open spec fn rank_spec(t: BodyType) -> int {
    match t {
        BodyType::Star => 0,
        BodyType::Planet => 1,
        BodyType::Moon => 2,
    }
}

impl BodyType {
    /// Position of this kind in the hierarchy.
    pub fn rank(self) -> (r: u8)
        ensures
            r == rank_spec(self),
    {
        match self {
            BodyType::Star => 0,
            BodyType::Planet => 1,
            BodyType::Moon => 2,
        }
    }
}

/// Which part of the catalog a simulation instance loads.
#[derive(Clone, Copy, Debug, PartialEq, Eq, Structural)]
pub enum BodiesConfig {
    /// Keep every body down to (and including) the given kind.
    SmallestBodyType(BodyType),
}

impl Default for BodiesConfig {
    /// The default configuration keeps the star and the planets.
    fn default() -> (c: BodiesConfig)
        ensures
            c == BodiesConfig::SmallestBodyType(BodyType::Planet),
    {
        BodiesConfig::SmallestBodyType(BodyType::Planet)
    }
}

/// Whether the configuration keeps a body of kind `t`.
pub open spec fn keeps_spec(c: BodiesConfig, t: BodyType) -> bool {
    match c {
        BodiesConfig::SmallestBodyType(s) => rank_spec(t) <= rank_spec(s),
    }
}

impl BodiesConfig {
    /// Whether this configuration keeps a body of kind `t`.
    pub fn keeps(&self, t: BodyType) -> (r: bool)
        ensures
            r == keeps_spec(*self, t),
    {
        match self {
            BodiesConfig::SmallestBodyType(s) => t.rank() <= s.rank(),
        }
    }
}

/// One immutable catalog record, as the external catalog supplies it:
/// identifier, kind, orbital elements, mass, dominance-sphere radius, and
/// the identifier of the body it orbits.
pub struct BodyData {
    /// Identifier, unique in the catalog.
    pub id: Vec<u8>,
    /// Kind of body.
    pub body_type: BodyType,
    /// Eccentricity, in units of `1 / SCALE`.
    pub eccentricity: i64,
    /// Semimajor axis, kilometres.
    pub semimajor_axis: i64,
    /// Inclination, microdegrees.
    pub inclination: i64,
    /// Longitude of the ascending node, microdegrees.
    pub long_asc_node: i64,
    /// Argument of periapsis, microdegrees.
    pub arg_periapsis: i64,
    /// Mean anomaly at time zero, microdegrees.
    pub initial_mean_anomaly: i64,
    /// Revolution period, millidays; zero for the primary body.
    pub revolution_period: i64,
    /// Mass, in units of `10^15` kilograms.
    pub mass: u64,
    /// Radius of the sphere of gravitational dominance, kilometres,
    /// supplied by the external body-physics collaborator.
    pub radius: u64,
    /// Identifier of the host body; `None` for the primary body.
    pub host_body: Option<Vec<u8>>,
}

/// Ranges a record must satisfy to enter the arena.
pub open spec fn record_valid(r: BodyData) -> bool {
    &&& id_ok(r.id@)
    &&& 0 <= r.eccentricity < SCALE
    &&& 0 <= r.semimajor_axis <= LIM
    &&& 0 <= r.revolution_period
    &&& r.radius <= LIM
    &&& match r.host_body {
        Option::None => true,
        Option::Some(h) => id_ok(h@),
    }
}

/// A body in the arena: its record data, its orbit state, its place in the
/// hierarchy, and its world-space kinematics.
pub struct Body {
    /// Identifier, unique in the arena.
    pub id: Vec<u8>,
    /// Kind of body.
    pub body_type: BodyType,
    /// Mass, in units of `10^15` kilograms.
    pub mass: u64,
    /// Radius of the sphere of gravitational dominance, kilometres.
    pub radius: u64,
    /// Orbital elements and per-tick orbit state.
    pub orbit: EllipticalOrbit,
    /// Arena index of the host body; `None` exactly for the primary body.
    pub parent: Option<usize>,
    /// Number of hierarchy steps from the primary body.
    pub depth: usize,
    /// World-space position, kilometres.
    pub position: Vec3,
    /// World-space velocity, kilometres per day.
    pub velocity: Vec3,
}

/// The body arena: bodies ordered parent-before-child, the primary first.
pub struct BodiesMapping {
    /// The bodies, in an order where every parent precedes its children.
    pub bodies: Vec<Body>,
}

/// Well-formedness of the arena: a tree rooted at the single primary body,
/// stored parent-before-child, with valid elements and unique identifiers.
pub open spec fn wf(m: BodiesMapping) -> bool {
    wf_seq(m.bodies@)
}

/// Well-formedness, over the sequence of bodies.
pub open spec fn wf_seq(b: Seq<Body>) -> bool {
    &&& b.len() >= 1
    &&& b[0].parent is None
    &&& b[0].depth == 0
    &&& forall|i: int|
        1 <= i < b.len() ==> #[trigger] b[i].parent is Some && b[i].parent->0 < i && b[i].depth
            == b[b[i].parent->0 as int].depth + 1
    &&& forall|i: int| 0 <= i < b.len() ==> #[trigger] b[i].depth <= i
    &&& forall|i: int| 0 <= i < b.len() ==> wf_elements(#[trigger] b[i].orbit)
    &&& forall|i: int| 0 <= i < b.len() ==> (#[trigger] b[i].radius) <= LIM
    &&& forall|i: int| 0 <= i < b.len() ==> id_ok(#[trigger] b[i].id@)
    &&& forall|i: int, j: int| 0 <= i < b.len() && 0 <= j < b.len() && i != j ==> b[i].id@ != b[j].id@
    &&& forall|i: int| 0 <= i < b.len() ==> (#[trigger] b[i].position).in_range()
    &&& forall|i: int| 0 <= i < b.len() ==> (#[trigger] b[i].velocity).in_range()
    &&& forall|i: int| 0 <= i < b.len() ==> (#[trigger] b[i].orbit.local_pos).in_range()
    &&& forall|i: int| 0 <= i < b.len() ==> (#[trigger] b[i].orbit.local_speed).in_range()
}

/// The world-space position a well-formed arena assigns to body `i`: the
/// sum of parent-frame positions along its ancestor chain, saturating.
pub open spec fn world_pos_of(b: Seq<Body>, i: int) -> Vec3
    decreases i,
{
    match b[i].parent {
        Option::None => b[i].orbit.local_pos,
        Option::Some(p) => if p < i {
            let acc = world_pos_of(b, p as int);
            Vec3 {
                x: add_sat_spec(acc.x as int, b[i].orbit.local_pos.x as int) as i64,
                y: add_sat_spec(acc.y as int, b[i].orbit.local_pos.y as int) as i64,
                z: add_sat_spec(acc.z as int, b[i].orbit.local_pos.z as int) as i64,
            }
        } else {
            b[i].orbit.local_pos
        },
    }
}

/// The world-space velocity a well-formed arena assigns to body `i`.
pub open spec fn world_vel_of(b: Seq<Body>, i: int) -> Vec3
    decreases i,
{
    match b[i].parent {
        Option::None => b[i].orbit.local_speed,
        Option::Some(p) => if p < i {
            let acc = world_vel_of(b, p as int);
            Vec3 {
                x: add_sat_spec(acc.x as int, b[i].orbit.local_speed.x as int) as i64,
                y: add_sat_spec(acc.y as int, b[i].orbit.local_speed.y as int) as i64,
                z: add_sat_spec(acc.z as int, b[i].orbit.local_speed.z as int) as i64,
            }
        } else {
            b[i].orbit.local_speed
        },
    }
}

/// Field-by-field statement that `post` is `pre` with its orbit advanced
/// to simulated day `t`.
pub open spec fn local_step_fields(pre: Body, post: Body, t: int) -> bool {
    &&& post.id@ == pre.id@
    &&& post.body_type == pre.body_type
    &&& post.mass == pre.mass
    &&& post.radius == pre.radius
    &&& post.parent == pre.parent
    &&& post.depth == pre.depth
    &&& post.position == pre.position
    &&& post.velocity == pre.velocity
    &&& same_elements(post.orbit, pre.orbit)
    &&& post.orbit.mean_anomaly == mean_anomaly_after(pre.orbit, t)
    &&& post.orbit.eccentric_anomaly == ecc_anomaly_after(pre.orbit, t)
    &&& post.orbit.orbital_position.x == orb_x_after(pre.orbit, t)
    &&& post.orbit.orbital_position.y == orb_y_after(pre.orbit, t)
    &&& post.orbit.orbital_velocity.x == orb_vx_after(pre.orbit, t)
    &&& post.orbit.orbital_velocity.y == orb_vy_after(pre.orbit, t)
    &&& post.orbit.local_pos.x == local_pos_after(pre.orbit, t).0
    &&& post.orbit.local_pos.y == local_pos_after(pre.orbit, t).1
    &&& post.orbit.local_pos.z == local_pos_after(pre.orbit, t).2
    &&& post.orbit.local_speed.x == local_speed_after(pre.orbit, t).0
    &&& post.orbit.local_speed.y == local_speed_after(pre.orbit, t).1
    &&& post.orbit.local_speed.z == local_speed_after(pre.orbit, t).2
}

/// The field-by-field statement determines the advanced body outright.
pub proof fn lemma_local_step_fields(pre: Body, post: Body, t: int)
    requires
        local_step_fields(pre, post, t),
        post.id == pre.id,
    ensures
        post == body_after_local(pre, t),
{
    reveal(body_after_local);
    lemma_after_values_in_range(pre.orbit, t);
    assert(post.orbit == body_after_local(pre, t).orbit);
}

/// A body after the local propagation stage: its orbit advanced to `t`,
/// everything else untouched.
#[verifier::opaque]
pub open spec fn body_after_local(b: Body, t: int) -> Body {
    Body {
        orbit: EllipticalOrbit {
            mean_anomaly: mean_anomaly_after(b.orbit, t) as i64,
            eccentric_anomaly: ecc_anomaly_after(b.orbit, t) as i64,
            orbital_position: Vec2 {
                x: orb_x_after(b.orbit, t) as i64,
                y: orb_y_after(b.orbit, t) as i64,
            },
            orbital_velocity: Vec2 {
                x: orb_vx_after(b.orbit, t) as i64,
                y: orb_vy_after(b.orbit, t) as i64,
            },
            local_pos: Vec3 {
                x: local_pos_after(b.orbit, t).0 as i64,
                y: local_pos_after(b.orbit, t).1 as i64,
                z: local_pos_after(b.orbit, t).2 as i64,
            },
            local_speed: Vec3 {
                x: local_speed_after(b.orbit, t).0 as i64,
                y: local_speed_after(b.orbit, t).1 as i64,
                z: local_speed_after(b.orbit, t).2 as i64,
            },
            ..b.orbit
        },
        ..b
    }
}

impl BodiesMapping {
    /// Number of bodies in the arena.
    pub fn len(&self) -> (n: usize)
        ensures
            n == self.bodies@.len(),
    {
        self.bodies.len()
    }

    /// Arena index of the body with the given identifier.
    pub fn index_of(&self, id: &Vec<u8>) -> (r: Option<usize>)
        ensures
            match r {
                Option::Some(i) => i < self.bodies@.len() && self.bodies@[i as int].id@ == id@,
                Option::None => forall|i: int|
                    0 <= i < self.bodies@.len() ==> (#[trigger] self.bodies@[i].id@) != id@,
            },
    {
        let mut i: usize = 0;
        while i < self.bodies.len()
            invariant
                i <= self.bodies@.len(),
                forall|k: int| 0 <= k < i ==> (#[trigger] self.bodies@[k].id@) != id@,
            decreases self.bodies@.len() - i,
        {
            if id_eq(&self.bodies[i].id, id) {
                return Some(i);
            }
            i = i + 1;
        }
        None
    }

    /// Advance every body's orbit to simulated day `time`.  The per-body
    /// solves are independent of each other, so the stage reads no other
    /// body's state.
    pub fn update_local(&mut self, time: u64)
        requires
            wf(*old(self)),
        ensures
            final(self).bodies@.len() == old(self).bodies@.len(),
            forall|i: int|
                0 <= i < old(self).bodies@.len() ==> final(self).bodies@[i] == body_after_local(
                    #[trigger] old(self).bodies@[i],
                    time as int,
                ),
            wf(*final(self)),
    {
        let n = self.bodies.len();
        let mut i: usize = 0;
        while i < n
            invariant
                n == self.bodies@.len() == old(self).bodies@.len(),
                i <= n,
                forall|k: int|
                    i <= k < n ==> #[trigger] self.bodies@[k] == old(self).bodies@[k],
                forall|k: int|
                    0 <= k < i ==> local_step_fields(
                        old(self).bodies@[k],
                        #[trigger] self.bodies@[k],
                        time as int,
                    ) && self.bodies@[k].id == old(self).bodies@[k].id,
                wf(*old(self)),
            decreases n - i,
        {
            let body = &mut self.bodies[i];
            body.orbit.update_pos(time);
            i = i + 1;
        }
        proof {
            assert forall|k: int| 0 <= k < old(self).bodies@.len() implies self.bodies@[k]
                == body_after_local(#[trigger] old(self).bodies@[k], time as int) by {
                lemma_local_step_fields(old(self).bodies@[k], self.bodies@[k], time as int);
            }
            lemma_local_update_preserves_wf(*old(self), *self, time as int);
        }
    }

    /// Compose world-space positions and velocities top-down: every body's
    /// world state is its parent's world state plus its own parent-frame
    /// state, the primary body sitting at the origin's accumulator.
    pub fn update_global(&mut self)
        requires
            wf(*old(self)),
        ensures
            final(self).bodies@.len() == old(self).bodies@.len(),
            forall|i: int|
                0 <= i < old(self).bodies@.len() ==> #[trigger] final(self).bodies@[i] == (Body {
                    position: world_pos_of(old(self).bodies@, i),
                    velocity: world_vel_of(old(self).bodies@, i),
                    ..old(self).bodies@[i]
                }),
            wf(*final(self)),
    {
        let n = self.bodies.len();
        let mut i: usize = 0;
        while i < n
            invariant
                n == self.bodies@.len() == old(self).bodies@.len(),
                i <= n,
                wf(*old(self)),
                forall|k: int|
                    i <= k < n ==> #[trigger] self.bodies@[k] == old(self).bodies@[k],
                forall|k: int|
                    0 <= k < i ==> #[trigger] self.bodies@[k] == (Body {
                        position: world_pos_of(old(self).bodies@, k),
                        velocity: world_vel_of(old(self).bodies@, k),
                        ..old(self).bodies@[k]
                    }),
            decreases n - i,
        {
            let (acc_pos, acc_vel) = match self.bodies[i].parent {
                Option::None => (Vec3::zero(), Vec3::zero()),
                Option::Some(p) => (self.bodies[p].position, self.bodies[p].velocity),
            };
            proof {
                lemma_world_of_unfold(old(self).bodies@, i as int);
            }
            let local_pos = self.bodies[i].orbit.local_pos;
            let local_speed = self.bodies[i].orbit.local_speed;
            let body = &mut self.bodies[i];
            body.position = acc_pos.vadd(local_pos);
            body.velocity = acc_vel.vadd(local_speed);
            i = i + 1;
        }
        proof {
            lemma_global_update_preserves_wf(*old(self), *self);
        }
    }

    /// The largest distance of any body from the coordinate origin: the
    /// radius of the loaded system.
    pub fn system_size(&self) -> (r: SystemSize)
        requires
            wf(*self),
        ensures
            r.0 == system_size_spec(self.bodies@, self.bodies@.len() as int),
    {
        let n = self.bodies.len();
        let mut best: u64 = 0;
        let mut i: usize = 0;
        while i < n
            invariant
                n == self.bodies@.len(),
                i <= n,
                wf(*self),
                best == system_size_spec(self.bodies@, i as int),
            decreases n - i,
        {
            let d2 = dist_sq(self.bodies[i].position, Vec3 { x: 0, y: 0, z: 0 });
            let d = isqrt(d2);
            proof {
                assert(d * d <= d2 < SQRT_BOUND * SQRT_BOUND ==> d < SQRT_BOUND)
                    by (nonlinear_arith);
            }
            let d = d as u64;
            if d > best {
                best = d;
            }
            i = i + 1;
        }
        SystemSize(best)
    }
}

/// Why a catalog was rejected at load time.
#[derive(Clone, Copy, Debug, PartialEq, Eq, Structural)]
pub enum CatalogError {
    /// A kept record holds an out-of-range element or identifier.
    InvalidRecord,
    /// Two kept records share an identifier.
    DuplicateId,
    /// No kept record is parentless.
    NoPrimary,
    /// Some kept record cannot be reached from the primary body through
    /// kept parents.
    Unreachable,
}

/// Whether the configuration keeps record `j`.
pub open spec fn kept_spec(rs: Seq<BodyData>, c: BodiesConfig, j: int) -> bool {
    keeps_spec(c, rs[j].body_type)
}

/// Some kept record breaks the element ranges.
pub open spec fn some_kept_invalid(rs: Seq<BodyData>, c: BodiesConfig) -> bool {
    exists|j: int| 0 <= j < rs.len() && kept_spec(rs, c, j) && !record_valid(#[trigger] rs[j])
}

/// Two kept records share an identifier.
pub open spec fn some_kept_duplicate(rs: Seq<BodyData>, c: BodiesConfig) -> bool {
    exists|i: int, j: int|
        0 <= i < rs.len() && 0 <= j < rs.len() && i != j && kept_spec(rs, c, i) && kept_spec(
            rs,
            c,
            j,
        ) && (#[trigger] rs[i].id)@ == (#[trigger] rs[j].id)@
}

/// Some kept record is parentless.
pub open spec fn some_kept_primary(rs: Seq<BodyData>, c: BodiesConfig) -> bool {
    exists|j: int| 0 <= j < rs.len() && kept_spec(rs, c, j) && (#[trigger] rs[j]).host_body is None
}

/// Index of the first kept parentless record at or after `k`; the record
/// count when none follows.
pub open spec fn first_primary_rec(rs: Seq<BodyData>, c: BodiesConfig, k: int) -> int
    decreases rs.len() - k,
{
    if k < 0 || k >= rs.len() {
        rs.len() as int
    } else if kept_spec(rs, c, k) && rs[k].host_body is None {
        k
    } else {
        first_primary_rec(rs, c, k + 1)
    }
}

/// The primary body's record: the first kept parentless one.
pub open spec fn first_primary_spec(rs: Seq<BodyData>, c: BodiesConfig) -> int {
    first_primary_rec(rs, c, 0)
}

/// Whether kept record `j` reaches the primary record through at most
/// `fuel` kept host links.
pub open spec fn reachable_rec(rs: Seq<BodyData>, c: BodiesConfig, j: int, fuel: nat) -> bool
    decreases fuel,
{
    if !(0 <= j < rs.len() && kept_spec(rs, c, j)) {
        false
    } else if j == first_primary_spec(rs, c) {
        true
    } else if fuel == 0 {
        false
    } else {
        match rs[j].host_body {
            Option::None => false,
            Option::Some(h) => exists|p: int|
                0 <= p < rs.len() && kept_spec(rs, c, p) && (#[trigger] rs[p].id)@ == h@
                    && reachable_rec(rs, c, p, (fuel - 1) as nat),
        }
    }
}

/// Whether kept record `j` reaches the primary record at all: a chain of
/// kept host links longer than the catalog cannot help.
pub open spec fn record_reachable(rs: Seq<BodyData>, c: BodiesConfig, j: int) -> bool {
    reachable_rec(rs, c, j, rs.len())
}

/// Some kept record does not reach the primary through kept host links.
pub open spec fn some_kept_unreachable(rs: Seq<BodyData>, c: BodiesConfig) -> bool {
    exists|j: int|
        0 <= j < rs.len() && #[trigger] kept_spec(rs, c, j) && !record_reachable(rs, c, j)
}

/// The first-primary scan lands exactly on the first kept parentless
/// record.
proof fn lemma_first_primary_at(rs: Seq<BodyData>, c: BodiesConfig, k: int, p: int)
    requires
        0 <= k <= p <= rs.len(),
        forall|x: int|
            k <= x < p ==> !(kept_spec(rs, c, x) && (#[trigger] rs[x]).host_body is None),
        p < rs.len() ==> kept_spec(rs, c, p) && rs[p].host_body is None,
    ensures
        first_primary_rec(rs, c, k) == p,
    decreases p - k,
{
    if k < p {
        lemma_first_primary_at(rs, c, k + 1, p);
    }
}

/// More fuel never loses reachability.
proof fn lemma_reachable_fuel(rs: Seq<BodyData>, c: BodiesConfig, j: int, f1: nat, f2: nat)
    requires
        f1 <= f2,
        reachable_rec(rs, c, j, f1),
    ensures
        reachable_rec(rs, c, j, f2),
    decreases f1,
{
    if 0 <= j < rs.len() && kept_spec(rs, c, j) && j != first_primary_spec(rs, c) {
        match rs[j].host_body {
            Option::None => {},
            Option::Some(h) => {
                let p = choose|p: int|
                    0 <= p < rs.len() && kept_spec(rs, c, p) && (#[trigger] rs[p].id)@ == h@
                        && reachable_rec(rs, c, p, (f1 - 1) as nat);
                lemma_reachable_fuel(rs, c, p, (f1 - 1) as nat, (f2 - 1) as nat);
                assert(0 <= p < rs.len() && kept_spec(rs, c, p) && (rs[p].id)@ == h@
                    && reachable_rec(rs, c, p, (f2 - 1) as nat));
            },
        }
    }
}

/// After the walk has scanned every placed body for children, a record
/// that reaches the primary through kept host links has been placed: its
/// whole chain was, link by link.
proof fn lemma_reachable_is_used(
    rs: Seq<BodyData>,
    c: BodiesConfig,
    used: Seq<bool>,
    arena: Seq<Body>,
    src: Seq<int>,
    primary: int,
    j: int,
    fuel: nat,
)
    requires
        used.len() == rs.len(),
        src.len() == arena.len(),
        primary == first_primary_spec(rs, c),
        0 <= primary < rs.len(),
        used[primary],
        forall|k: int|
            0 <= k < arena.len() ==> build_entry_ok(rs, arena, src, #[trigger] src[k], k, c),
        forall|jj: int|
            0 <= jj < rs.len() && used[jj] ==> kept_spec(rs, c, jj) && exists|k: int|
                0 <= k < arena.len() && #[trigger] src[k] == jj,
        forall|jj: int, k: int|
            0 <= jj < rs.len() && 0 <= k < arena.len() && kept_spec(rs, c, jj) && !used[jj]
                && rs[jj].host_body is Some ==> (#[trigger] arena[k].id)@ != (
            #[trigger] rs[jj].host_body)->0@,
        reachable_rec(rs, c, j, fuel),
    ensures
        used[j],
    decreases fuel,
{
    if j != primary {
        let h = rs[j].host_body->0;
        let p = choose|p: int|
            0 <= p < rs.len() && kept_spec(rs, c, p) && (#[trigger] rs[p].id)@ == h@
                && reachable_rec(rs, c, p, (fuel - 1) as nat);
        lemma_reachable_is_used(rs, c, used, arena, src, primary, p, (fuel - 1) as nat);
        let k = choose|k: int| 0 <= k < arena.len() && #[trigger] src[k] == p;
        assert(build_entry_ok(rs, arena, src, src[k], k, c));
        assert(arena[k].id@ == h@);
        if !used[j] {
            assert(arena[k].id@ != rs[j].host_body->0@);
            assert(false);
        }
    }
}

/// Whether arena body `i` carries exactly the data of record `r`, with
/// its derived state reset and its parent reference resolved by
/// identifier.
pub open spec fn arena_link(b: Seq<Body>, i: int, r: BodyData) -> bool {
    &&& b[i].id@ == r.id@
    &&& b[i].body_type == r.body_type
    &&& b[i].mass == r.mass
    &&& b[i].radius == r.radius
    &&& b[i].orbit.eccentricity == r.eccentricity
    &&& b[i].orbit.semimajor_axis == r.semimajor_axis
    &&& b[i].orbit.inclination == r.inclination
    &&& b[i].orbit.long_asc_node == r.long_asc_node
    &&& b[i].orbit.arg_periapsis == r.arg_periapsis
    &&& b[i].orbit.initial_mean_anomaly == r.initial_mean_anomaly
    &&& b[i].orbit.revolution_period == r.revolution_period
    &&& b[i].orbit.mean_anomaly == r.initial_mean_anomaly
    &&& b[i].position == (Vec3 { x: 0, y: 0, z: 0 })
    &&& b[i].velocity == (Vec3 { x: 0, y: 0, z: 0 })
    &&& match b[i].parent {
        Option::None => r.host_body is None,
        Option::Some(p) => r.host_body is Some && 0 <= p < b.len() && b[p as int].id@
            == r.host_body->0@,
    }
}

/// Arena body `i` carries the data of some kept record.
pub open spec fn arena_entry_linked(rs: Seq<BodyData>, b: Seq<Body>, c: BodiesConfig, i: int) -> bool {
    exists|j: int| 0 <= j < rs.len() && kept_spec(rs, c, j) && #[trigger] arena_link(b, i, rs[j])
}

/// Every arena body carries the data of some kept record.
pub open spec fn arena_from_records(rs: Seq<BodyData>, b: Seq<Body>, c: BodiesConfig) -> bool {
    forall|i: int| 0 <= i < b.len() ==> #[trigger] arena_entry_linked(rs, b, c, i)
}

/// Record `j`'s identifier appears in the arena.
pub open spec fn record_included(rs: Seq<BodyData>, b: Seq<Body>, j: int) -> bool {
    exists|i: int| 0 <= i < b.len() && (#[trigger] b[i].id)@ == (rs[j].id)@
}

/// Every kept record appears in the arena.
pub open spec fn records_in_arena(rs: Seq<BodyData>, b: Seq<Body>, c: BodiesConfig) -> bool {
    forall|j: int|
        0 <= j < rs.len() && kept_spec(rs, c, j) ==> #[trigger] record_included(rs, b, j)
}

impl BodiesMapping {
    /// Build the body arena from the catalog records the configuration
    /// keeps: find the primary body, order everything parent-before-child
    /// by a breadth-first walk, and reset the derived state.  A catalog
    /// with an invalid record, a duplicated identifier, no primary body,
    /// or a body unreachable from the primary is rejected whole.
    pub fn from_records(records: &Vec<BodyData>, config: BodiesConfig) -> (r: Result<
        BodiesMapping,
        CatalogError,
    >)
        ensures
            match r {
                Result::Ok(m) => {
                    &&& wf(m)
                    &&& !some_kept_invalid(records@, config)
                    &&& !some_kept_duplicate(records@, config)
                    &&& some_kept_primary(records@, config)
                    &&& !some_kept_unreachable(records@, config)
                    &&& arena_from_records(records@, m.bodies@, config)
                    &&& records_in_arena(records@, m.bodies@, config)
                },
                Result::Err(e) => {
                    &&& (e == CatalogError::InvalidRecord) == some_kept_invalid(records@, config)
                    &&& (e == CatalogError::DuplicateId) == (!some_kept_invalid(records@, config)
                        && some_kept_duplicate(records@, config))
                    &&& (e == CatalogError::NoPrimary) == (!some_kept_invalid(records@, config)
                        && !some_kept_duplicate(records@, config) && !some_kept_primary(
                        records@,
                        config,
                    ))
                    &&& (e == CatalogError::Unreachable) == (!some_kept_invalid(records@, config)
                        && !some_kept_duplicate(records@, config) && some_kept_primary(
                        records@,
                        config,
                    ) && some_kept_unreachable(records@, config))
                },
            },
    {
        let n = records.len();
        // Reject a kept record with out-of-range elements.
        let mut j: usize = 0;
        while j < n
            invariant
                n == records@.len(),
                j <= n,
                forall|k: int|
                    0 <= k < j && kept_spec(records@, config, k) ==> record_valid(
                        #[trigger] records@[k],
                    ),
            decreases n - j,
        {
            let rec = &records[j];
            if config.keeps(rec.body_type) {
                if !record_ranges_ok(rec) {
                    return Err(CatalogError::InvalidRecord);
                }
            }
            j = j + 1;
        }
        // Reject duplicated identifiers among kept records.
        let mut a: usize = 0;
        while a < n
            invariant
                n == records@.len(),
                a <= n,
                forall|k: int|
                    0 <= k < n && kept_spec(records@, config, k) ==> record_valid(
                        #[trigger] records@[k],
                    ),
                forall|x: int, y: int|
                    0 <= x < a && 0 <= y < n && x != y && kept_spec(records@, config, x)
                        && kept_spec(records@, config, y) ==> (#[trigger] records@[x].id)@ != (
                    #[trigger] records@[y].id)@,
            decreases n - a,
        {
            if config.keeps(records[a].body_type) {
                let mut b: usize = 0;
                while b < n
                    invariant
                        n == records@.len(),
                        a < n,
                        b <= n,
                        forall|k: int|
                            0 <= k < n && kept_spec(records@, config, k) ==> record_valid(
                                #[trigger] records@[k],
                            ),
                        kept_spec(records@, config, a as int),
                        forall|y: int|
                            0 <= y < b && y != a && kept_spec(records@, config, y) ==> (
                            records@[a as int].id)@ != (#[trigger] records@[y].id)@,
                    decreases n - b,
                {
                    if b != a && config.keeps(records[b].body_type) && id_eq(
                        &records[a].id,
                        &records[b].id,
                    ) {
                        proof {
                            assert(kept_spec(records@, config, a as int) && kept_spec(
                                records@,
                                config,
                                b as int,
                            ) && (records@[a as int].id)@ == (records@[b as int].id)@);
                            assert(some_kept_duplicate(records@, config));
                        }
                        return Err(CatalogError::DuplicateId);
                    }
                    b = b + 1;
                }
            }
            a = a + 1;
        }
        // Find the primary body: the first kept parentless record.
        let mut primary: usize = n;
        let mut j: usize = 0;
        while j < n && primary == n
            invariant
                n == records@.len(),
                j <= n,
                primary <= n,
                primary == n ==> forall|k: int|
                    0 <= k < j && kept_spec(records@, config, k) ==> (
                    #[trigger] records@[k]).host_body is Some,
                primary < n ==> kept_spec(records@, config, primary as int) && records@[primary as int].host_body is None
                    && forall|k: int|
                    0 <= k < primary ==> !(kept_spec(records@, config, k) && (
                    #[trigger] records@[k]).host_body is None),
            decreases n - j,
        {
            if config.keeps(records[j].body_type) && records[j].host_body.is_none() {
                primary = j;
            }
            j = j + 1;
        }
        if primary == n {
            return Err(CatalogError::NoPrimary);
        }
        proof {
            assert(kept_spec(records@, config, primary as int) && records@[primary as int].host_body is None);
            assert(some_kept_primary(records@, config));
            lemma_first_primary_at(records@, config, 0, primary as int);
            assert(first_primary_spec(records@, config) == primary as int);
        }
        // Breadth-first walk from the primary body, marking each record as
        // it is placed, so every parent stands before its children.
        let mut used: Vec<bool> = vec_false(n);
        let ghost mut src: Seq<int> = seq![primary as int];
        let mut arena: Vec<Body> = Vec::new();
        arena.push(body_from_record(&records[primary], None, 0));
        set_true(&mut used, primary);
        proof {
            lemma_count_all_false(Seq::new(n as nat, |i: int| false));
            lemma_count_update(Seq::new(n as nat, |i: int| false), primary as int);
            assert(used@ =~= Seq::new(n as nat, |i: int| false).update(primary as int, true));
            assert(src[0] == primary as int);
            assert(reachable_rec(records@, config, primary as int, 0));
            assert forall|j2: int| 0 <= j2 < n && used@[j2] implies kept_spec(
                records@,
                config,
                j2,
            ) && exists|k: int| 0 <= k < arena@.len() && #[trigger] src[k] == j2 by {
                assert(j2 == primary as int);
                assert(src[0] == j2);
            }
        }
        let mut i: usize = 0;
        while i < arena.len()
            invariant
                n == records@.len(),
                used@.len() == n,
                src.len() == arena@.len(),
                1 <= arena@.len() <= n,
                i <= arena@.len(),
                count_true(used@) == arena@.len(),
                forall|k: int|
                    0 <= k < n && kept_spec(records@, config, k) ==> record_valid(
                        #[trigger] records@[k],
                    ),
                forall|x: int, y: int|
                    0 <= x < n && 0 <= y < n && x != y && kept_spec(records@, config, x)
                        && kept_spec(records@, config, y) ==> (#[trigger] records@[x].id)@ != (
                    #[trigger] records@[y].id)@,
                forall|k: int|
                    0 <= k < arena@.len() ==> build_entry_ok(
                        records@,
                        arena@,
                        src,
                        #[trigger] src[k],
                        k,
                        config,
                    ),
                forall|k1: int, k2: int|
                    0 <= k1 < arena@.len() && 0 <= k2 < arena@.len() && k1 != k2 ==> src[k1]
                        != src[k2],
                forall|j: int|
                    0 <= j < n && used@[j] ==> kept_spec(records@, config, j) && exists|k: int|
                        0 <= k < arena@.len() && #[trigger] src[k] == j,
                forall|k: int| 0 <= k < arena@.len() ==> used@[#[trigger] src[k]],
                primary < n,
                src[0] == primary as int,
                primary == first_primary_spec(records@, config),
                forall|k: int|
                    0 <= k < arena@.len() ==> reachable_rec(
                        records@,
                        config,
                        #[trigger] src[k],
                        arena@[k].depth as nat,
                    ),
                forall|jj: int, k: int|
                    0 <= jj < n && 0 <= k < i && kept_spec(records@, config, jj) && !used@[jj]
                        && records@[jj].host_body is Some ==> (#[trigger] arena@[k].id)@ != (
                    #[trigger] records@[jj].host_body)->0@,
            decreases n - i,
        {
            let parent_depth = arena[i].depth;
            let mut j: usize = 0;
            while j < n
                invariant
                    n == records@.len(),
                    used@.len() == n,
                    src.len() == arena@.len(),
                    1 <= arena@.len() <= n,
                    i < arena@.len(),
                    j <= n,
                    parent_depth == arena@[i as int].depth,
                    count_true(used@) == arena@.len(),
                    forall|k: int|
                        0 <= k < n && kept_spec(records@, config, k) ==> record_valid(
                            #[trigger] records@[k],
                        ),
                    forall|x: int, y: int|
                        0 <= x < n && 0 <= y < n && x != y && kept_spec(records@, config, x)
                            && kept_spec(records@, config, y) ==> (#[trigger] records@[x].id)@ != (
                        #[trigger] records@[y].id)@,
                    forall|k: int|
                        0 <= k < arena@.len() ==> build_entry_ok(
                            records@,
                            arena@,
                            src,
                            #[trigger] src[k],
                            k,
                            config,
                        ),
                    forall|k1: int, k2: int|
                        0 <= k1 < arena@.len() && 0 <= k2 < arena@.len() && k1 != k2 ==> src[k1]
                            != src[k2],
                    forall|jj: int|
                        0 <= jj < n && used@[jj] ==> kept_spec(records@, config, jj) && exists|
                            k: int,
                        |
                            0 <= k < arena@.len() && #[trigger] src[k] == jj,
                    forall|k: int| 0 <= k < arena@.len() ==> used@[#[trigger] src[k]],
                    primary < n,
                    src[0] == primary as int,
                    primary == first_primary_spec(records@, config),
                    forall|k: int|
                        0 <= k < arena@.len() ==> reachable_rec(
                            records@,
                            config,
                            #[trigger] src[k],
                            arena@[k].depth as nat,
                        ),
                    forall|jj: int, k: int|
                        0 <= jj < n && 0 <= k < i && kept_spec(records@, config, jj) && !used@[jj]
                            && records@[jj].host_body is Some ==> (#[trigger] arena@[k].id)@ != (
                        #[trigger] records@[jj].host_body)->0@,
                    forall|jj: int|
                        0 <= jj < j && kept_spec(records@, config, jj) && !used@[jj]
                            && records@[jj].host_body is Some ==> (
                        #[trigger] records@[jj].host_body)->0@ != arena@[i as int].id@,
                decreases n - j,
            {
                let rec = &records[j];
                let candidate = config.keeps(rec.body_type) && !used[j];
                let child = candidate && match &rec.host_body {
                    Option::None => false,
                    Option::Some(h) => id_eq(h, &arena[i].id),
                };
                if child {
                    let ghost pre_arena = arena@;
                    let ghost pre_used = used@;
                    let ghost pre_src = src;
                    proof {
                        assert(build_entry_ok(
                            records@,
                            pre_arena,
                            pre_src,
                            pre_src[i as int],
                            i as int,
                            config,
                        ));
                    }
                    let body = body_from_record(&records[j], Some(i), parent_depth + 1);
                    let ghost gbody = body;
                    arena.push(body);
                    set_true(&mut used, j);
                    proof {
                        src = src.push(j as int);
                        lemma_count_update(pre_used, j as int);
                        assert(used@ =~= pre_used.update(j as int, true));
                        lemma_count_le_len(used@);
                        let new_len = arena@.len() as int;
                        assert(arena@ == pre_arena.push(gbody));
                        assert forall|k: int|
                            0 <= k < new_len implies build_entry_ok(
                            records@,
                            arena@,
                            src,
                            #[trigger] src[k],
                            k,
                            config,
                        ) by {
                            if k < pre_arena.len() {
                                assert(build_entry_ok(
                                    records@,
                                    pre_arena,
                                    pre_src,
                                    pre_src[k],
                                    k,
                                    config,
                                ));
                                assert(src[k] == pre_src[k]);
                                assert(arena@[k] == pre_arena[k]);
                                if k >= 1 {
                                    assert(arena@[pre_arena[k].parent->0 as int]
                                        == pre_arena[pre_arena[k].parent->0 as int]);
                                }
                            } else {
                                assert(k == new_len - 1);
                                assert(src[k] == j as int);
                                assert(arena@[k] == gbody);
                                assert(arena@[i as int] == pre_arena[i as int]);
                                assert(gbody.depth == pre_arena[i as int].depth + 1);
                                assert(pre_arena[i as int].depth <= i as int);
                            }
                        }
                        assert forall|k1: int, k2: int|
                            0 <= k1 < new_len && 0 <= k2 < new_len && k1 != k2 implies src[k1]
                            != src[k2] by {
                            if k1 < pre_src.len() && k2 < pre_src.len() {
                            } else if k1 < pre_src.len() {
                                assert(pre_used[pre_src[k1]]);
                            } else {
                                assert(pre_used[pre_src[k2]]);
                            }
                        }
                        assert forall|jj: int|
                            0 <= jj < n && used@[jj] implies kept_spec(records@, config, jj)
                            && exists|k: int| 0 <= k < new_len && #[trigger] src[k] == jj by {
                            if jj == j as int {
                                assert(src[new_len - 1] == jj);
                            } else {
                                assert(pre_used[jj]);
                                let k0 = choose|k: int|
                                    0 <= k < pre_arena.len() && #[trigger] pre_src[k] == jj;
                                assert(src[k0] == jj);
                            }
                        }
                        assert forall|k: int| 0 <= k < new_len implies used@[#[trigger] src[k]] by {
                            if k < pre_src.len() {
                                assert(pre_used[pre_src[k]]);
                            } else {
                                assert(src[k] == j as int);
                            }
                        }
                        assert(pre_used[primary as int]);
                        assert(j as int != primary as int);
                        assert(records@[j as int].host_body->0@ == pre_arena[i as int].id@);
                        assert(records@[pre_src[i as int]].id@ == pre_arena[i as int].id@);
                        assert(reachable_rec(
                            records@,
                            config,
                            pre_src[i as int],
                            pre_arena[i as int].depth as nat,
                        ));
                        assert(reachable_rec(records@, config, j as int, (parent_depth + 1) as nat));
                        assert forall|k: int|
                            0 <= k < new_len implies reachable_rec(
                            records@,
                            config,
                            #[trigger] src[k],
                            arena@[k].depth as nat,
                        ) by {
                            if k < pre_arena.len() {
                                assert(src[k] == pre_src[k]);
                                assert(arena@[k] == pre_arena[k]);
                                assert(reachable_rec(
                                    records@,
                                    config,
                                    pre_src[k],
                                    pre_arena[k].depth as nat,
                                ));
                            } else {
                                assert(src[k] == j as int);
                                assert(arena@[k] == gbody);
                            }
                        }
                        assert forall|jj: int, k: int|
                            0 <= jj < n && 0 <= k < i && kept_spec(records@, config, jj)
                                && !used@[jj] && records@[jj].host_body is Some implies (
                        #[trigger] arena@[k].id)@ != (#[trigger] records@[jj].host_body)->0@ by {
                            assert(jj != j as int);
                            assert(used@[jj] == pre_used[jj]);
                            assert(arena@[k] == pre_arena[k]);
                        }
                        assert forall|jj: int|
                            0 <= jj < j && kept_spec(records@, config, jj) && !used@[jj]
                                && records@[jj].host_body is Some implies (
                        #[trigger] records@[jj].host_body)->0@ != arena@[i as int].id@ by {
                            assert(jj != j as int);
                            assert(used@[jj] == pre_used[jj]);
                            assert(arena@[i as int] == pre_arena[i as int]);
                        }
                    }
                }
                j = j + 1;
            }
            proof {
                assert forall|jj: int, k: int|
                    0 <= jj < n && 0 <= k < i + 1 && kept_spec(records@, config, jj) && !used@[jj]
                        && records@[jj].host_body is Some implies (#[trigger] arena@[k].id)@ != (
                #[trigger] records@[jj].host_body)->0@ by {
                    if k == i {
                        assert((records@[jj].host_body)->0@ != arena@[i as int].id@);
                    }
                }
            }
            i = i + 1;
        }
        // A kept record the walk never placed is unreachable from the
        // primary body: reject the catalog.
        let mut missing: usize = n;
        let mut j: usize = 0;
        while j < n && missing == n
            invariant
                n == records@.len(),
                used@.len() == n,
                j <= n,
                missing <= n,
                missing == n ==> forall|k: int|
                    0 <= k < j && #[trigger] kept_spec(records@, config, k) ==> used@[k],
                missing < n ==> kept_spec(records@, config, missing as int)
                    && !used@[missing as int],
            decreases n - j,
        {
            if config.keeps(records[j].body_type) && !used[j] {
                missing = j;
            }
            j = j + 1;
        }
        if missing < n {
            proof {
                let jm = missing as int;
                if record_reachable(records@, config, jm) {
                    lemma_reachable_is_used(
                        records@,
                        config,
                        used@,
                        arena@,
                        src,
                        primary as int,
                        jm,
                        records@.len(),
                    );
                    assert(false);
                }
                assert(kept_spec(records@, config, jm) && !record_reachable(records@, config, jm));
                assert(some_kept_unreachable(records@, config));
                assert(some_kept_primary(records@, config));
            }
            return Err(CatalogError::Unreachable);
        }
        let m = BodiesMapping { bodies: arena };
        proof {
            lemma_built_arena_ok(records@, m.bodies@, src, config);
            assert forall|jj: int|
                0 <= jj < records@.len() && kept_spec(records@, config, jj) implies #[trigger] record_included(
                records@,
                m.bodies@,
                jj,
            ) by {
                assert(used@[jj]);
                let k = choose|k: int| 0 <= k < m.bodies@.len() && #[trigger] src[k] == jj;
                assert(build_entry_ok(records@, m.bodies@, src, src[k], k, config));
                assert(m.bodies@[k].id@ == records@[jj].id@);
            }
            assert(records_in_arena(records@, m.bodies@, config));
            assert forall|jj: int|
                0 <= jj < records@.len() && #[trigger] kept_spec(records@, config, jj) implies record_reachable(
                records@,
                config,
                jj,
            ) by {
                assert(used@[jj]);
                let k = choose|k: int| 0 <= k < m.bodies@.len() && #[trigger] src[k] == jj;
                assert(build_entry_ok(records@, m.bodies@, src, src[k], k, config));
                assert(reachable_rec(records@, config, jj, m.bodies@[k].depth as nat));
                lemma_reachable_fuel(
                    records@,
                    config,
                    jj,
                    m.bodies@[k].depth as nat,
                    records@.len(),
                );
            }
            assert(!some_kept_unreachable(records@, config));
        }
        Ok(m)
    }
}

/// A vector of `n` false flags.
fn vec_false(n: usize) -> (v: Vec<bool>)
    ensures
        v@ == Seq::new(n as nat, |i: int| false),
{
    let mut v: Vec<bool> = Vec::new();
    let mut i: usize = 0;
    while i < n
        invariant
            i <= n,
            v@.len() == i,
            forall|k: int| 0 <= k < i ==> !(#[trigger] v@[k]),
        decreases n - i,
    {
        v.push(false);
        i = i + 1;
    }
    proof {
        assert(v@ =~= Seq::new(n as nat, |i: int| false));
    }
    v
}

/// Set one flag.
fn set_true(v: &mut Vec<bool>, j: usize)
    requires
        j < old(v)@.len(),
    ensures
        final(v)@ == old(v)@.update(j as int, true),
{
    let e = &mut v[j];
    *e = true;
}

/// Number of raised flags.
pub open spec fn count_true(s: Seq<bool>) -> int
    decreases s.len(),
{
    if s.len() == 0 {
        0
    } else {
        count_true(s.drop_last()) + if s.last() {
            1int
        } else {
            0int
        }
    }
}

/// A sequence of lowered flags counts zero.
proof fn lemma_count_all_false(s: Seq<bool>)
    requires
        forall|i: int| 0 <= i < s.len() ==> !(#[trigger] s[i]),
    ensures
        count_true(s) == 0,
    decreases s.len(),
{
    if s.len() > 0 {
        lemma_count_all_false(s.drop_last());
    }
}

/// Raising a lowered flag raises the count by one.
proof fn lemma_count_update(s: Seq<bool>, j: int)
    requires
        0 <= j < s.len(),
        !s[j],
    ensures
        count_true(s.update(j, true)) == count_true(s) + 1,
    decreases s.len(),
{
    let t = s.update(j, true);
    if j == s.len() - 1 {
        assert(t.drop_last() =~= s.drop_last());
    } else {
        assert(t.drop_last() =~= s.drop_last().update(j, true));
        lemma_count_update(s.drop_last(), j);
    }
}

/// The count never exceeds the number of flags.
proof fn lemma_count_le_len(s: Seq<bool>)
    ensures
        count_true(s) <= s.len(),
        count_true(s) >= 0,
    decreases s.len(),
{
    if s.len() > 0 {
        lemma_count_le_len(s.drop_last());
    }
}

/// Everything the walk guarantees of one placed body, relative to the
/// record it came from.
pub open spec fn build_entry_ok(
    rs: Seq<BodyData>,
    arena: Seq<Body>,
    src: Seq<int>,
    srck: int,
    k: int,
    c: BodiesConfig,
) -> bool {
    &&& 0 <= k < arena.len()
    &&& srck == src[k]
    &&& 0 <= srck < rs.len()
    &&& kept_spec(rs, c, srck)
    &&& body_fields_match(arena[k], rs[srck])
    &&& (k == 0 ==> arena[k].parent is None && rs[srck].host_body is None && arena[k].depth == 0)
    &&& (k >= 1 ==> arena[k].parent is Some && arena[k].parent->0 < k && arena[k].depth == arena[arena[k].parent->0 as int].depth + 1 && rs[srck].host_body is Some && (rs[srck].host_body->0)@ == arena[arena[k].parent->0 as int].id@)
    &&& arena[k].depth <= k
}

/// Whether an arena body carries a record's data with its derived state
/// freshly reset.
pub open spec fn body_fields_match(b: Body, r: BodyData) -> bool {
    &&& b.id@ == r.id@
    &&& b.body_type == r.body_type
    &&& b.mass == r.mass
    &&& b.radius == r.radius
    &&& b.orbit.eccentricity == r.eccentricity
    &&& b.orbit.semimajor_axis == r.semimajor_axis
    &&& b.orbit.inclination == r.inclination
    &&& b.orbit.long_asc_node == r.long_asc_node
    &&& b.orbit.arg_periapsis == r.arg_periapsis
    &&& b.orbit.initial_mean_anomaly == r.initial_mean_anomaly
    &&& b.orbit.revolution_period == r.revolution_period
    &&& b.orbit.mean_anomaly == r.initial_mean_anomaly
    &&& b.orbit.eccentric_anomaly == 0
    &&& b.orbit.orbital_position == (Vec2 { x: 0, y: 0 })
    &&& b.orbit.orbital_velocity == (Vec2 { x: 0, y: 0 })
    &&& b.orbit.local_pos == (Vec3 { x: 0, y: 0, z: 0 })
    &&& b.orbit.local_speed == (Vec3 { x: 0, y: 0, z: 0 })
    &&& b.position == (Vec3 { x: 0, y: 0, z: 0 })
    &&& b.velocity == (Vec3 { x: 0, y: 0, z: 0 })
}

/// Copy a record into an arena body at the given place in the hierarchy.
fn body_from_record(r: &BodyData, parent: Option<usize>, depth: usize) -> (b: Body)
    requires
        record_valid(*r),
    ensures
        body_fields_match(b, *r),
        b.parent == parent,
        b.depth == depth,
{
    Body {
        id: copy_id(&r.id),
        body_type: r.body_type,
        mass: r.mass,
        radius: r.radius,
        orbit: EllipticalOrbit::from_elements(
            r.eccentricity,
            r.semimajor_axis,
            r.inclination,
            r.long_asc_node,
            r.arg_periapsis,
            r.initial_mean_anomaly,
            r.revolution_period,
        ),
        parent,
        depth,
        position: Vec3 { x: 0, y: 0, z: 0 },
        velocity: Vec3 { x: 0, y: 0, z: 0 },
    }
}

/// The walk's bookkeeping implies the arena's well-formedness and its
/// correspondence with the records.
proof fn lemma_built_arena_ok(rs: Seq<BodyData>, arena: Seq<Body>, src: Seq<int>, c: BodiesConfig)
    requires
        arena.len() >= 1,
        src.len() == arena.len(),
        forall|k: int|
            0 <= k < arena.len() ==> build_entry_ok(rs, arena, src, #[trigger] src[k], k, c),
        forall|k: int|
            0 <= k < rs.len() && kept_spec(rs, c, k) ==> record_valid(#[trigger] rs[k]),
        forall|x: int, y: int|
            0 <= x < rs.len() && 0 <= y < rs.len() && x != y && kept_spec(rs, c, x) && kept_spec(
                rs,
                c,
                y,
            ) ==> (#[trigger] rs[x].id)@ != (#[trigger] rs[y].id)@,
        forall|k1: int, k2: int|
            0 <= k1 < arena.len() && 0 <= k2 < arena.len() && k1 != k2 ==> src[k1] != src[k2],
    ensures
        wf_seq(arena),
        arena_from_records(rs, arena, c),
{
    assert forall|i: int| 0 <= i < arena.len() implies wf_elements(#[trigger] arena[i].orbit) by {
        assert(build_entry_ok(rs, arena, src, src[i], i, c));
    }
    assert forall|i: int| 0 <= i < arena.len() implies (#[trigger] arena[i].radius) <= LIM by {
        assert(build_entry_ok(rs, arena, src, src[i], i, c));
    }
    assert forall|i: int| 0 <= i < arena.len() implies id_ok(#[trigger] arena[i].id@) by {
        assert(build_entry_ok(rs, arena, src, src[i], i, c));
    }
    assert forall|i: int| 0 <= i < arena.len() implies (#[trigger] arena[i].position).in_range()
        by {
        assert(build_entry_ok(rs, arena, src, src[i], i, c));
    }
    assert forall|i: int| 0 <= i < arena.len() implies (#[trigger] arena[i].velocity).in_range()
        by {
        assert(build_entry_ok(rs, arena, src, src[i], i, c));
    }
    assert forall|i: int|
        0 <= i < arena.len() implies (#[trigger] arena[i].orbit.local_pos).in_range() by {
        assert(build_entry_ok(rs, arena, src, src[i], i, c));
    }
    assert forall|i: int|
        0 <= i < arena.len() implies (#[trigger] arena[i].orbit.local_speed).in_range() by {
        assert(build_entry_ok(rs, arena, src, src[i], i, c));
    }
    assert forall|i: int| 0 <= i < arena.len() implies (#[trigger] arena[i].depth) <= i by {
        assert(build_entry_ok(rs, arena, src, src[i], i, c));
    }
    assert forall|i: int|
        1 <= i < arena.len() implies #[trigger] arena[i].parent is Some && arena[i].parent->0 < i
        && arena[i].depth == arena[arena[i].parent->0 as int].depth + 1 by {
        assert(build_entry_ok(rs, arena, src, src[i], i, c));
    }
    assert(build_entry_ok(rs, arena, src, src[0], 0, c));
    assert forall|i: int, j: int|
        0 <= i < arena.len() && 0 <= j < arena.len() && i != j implies arena[i].id@
        != arena[j].id@ by {
        assert(build_entry_ok(rs, arena, src, src[i], i, c));
        assert(build_entry_ok(rs, arena, src, src[j], j, c));
        assert(rs[src[i]].id@ != rs[src[j]].id@);
    }
    assert forall|i: int| 0 <= i < arena.len() implies #[trigger] arena_entry_linked(
        rs,
        arena,
        c,
        i,
    ) by {
        assert(build_entry_ok(rs, arena, src, src[i], i, c));
        if i >= 1 {
            let p = arena[i].parent->0 as int;
            assert(build_entry_ok(rs, arena, src, src[p], p, c));
        }
        assert(0 <= src[i] < rs.len());
        assert(kept_spec(rs, c, src[i]));
        assert(arena_link(arena, i, rs[src[i]]));
    }
}

/// Whether a record's numeric fields lie within the accepted ranges.
fn record_ranges_ok(r: &BodyData) -> (ok: bool)
    ensures
        ok == record_valid(*r),
{
    let host_ok = match &r.host_body {
        Option::None => true,
        Option::Some(h) => h.len() <= MAX_ID_LENGTH,
    };
    r.id.len() <= MAX_ID_LENGTH && 0 <= r.eccentricity && r.eccentricity < SCALE
        && 0 <= r.semimajor_axis && r.semimajor_axis <= LIM && 0 <= r.revolution_period && r.radius
        <= LIM as u64 && host_ok
}

/// Distance of body `i`'s world position from the origin, rounded down.
pub open spec fn body_dist_spec(b: Seq<Body>, i: int) -> int {
    sqrt_floor(dist_sq_spec(b[i].position, Vec3 { x: 0, y: 0, z: 0 }) as nat) as int
}

/// Largest origin distance among the first `n` bodies.
pub open spec fn system_size_spec(b: Seq<Body>, n: int) -> int
    decreases n,
{
    if n <= 0 {
        0
    } else {
        let rest = system_size_spec(b, n - 1);
        let d = body_dist_spec(b, n - 1);
        if d > rest {
            d
        } else {
            rest
        }
    }
}

/// Radius of the loaded system, kilometres.
pub struct SystemSize(pub u64);

/// The local stage touches no field the well-formedness predicate reads
/// apart from the orbit, whose elements it preserves.
proof fn lemma_local_update_preserves_wf(pre: BodiesMapping, post: BodiesMapping, t: int)
    requires
        wf(pre),
        post.bodies@.len() == pre.bodies@.len(),
        forall|i: int|
            0 <= i < pre.bodies@.len() ==> local_step_fields(
                #[trigger] pre.bodies@[i],
                post.bodies@[i],
                t,
            ),
    ensures
        wf(post),
{
    let b = post.bodies@;
    let a = pre.bodies@;
    assert forall|i: int| 0 <= i < b.len() implies (
    #[trigger] b[i].orbit.local_pos).in_range() by {
        assert(local_step_fields(a[i], b[i], t));
        lemma_after_values_in_range(a[i].orbit, t);
    }
    assert forall|i: int| 0 <= i < b.len() implies (
    #[trigger] b[i].orbit.local_speed).in_range() by {
        assert(local_step_fields(a[i], b[i], t));
        lemma_after_values_in_range(a[i].orbit, t);
    }
    assert forall|i: int|
        1 <= i < b.len() implies #[trigger] b[i].parent is Some && b[i].parent->0 < i
        && b[i].depth == b[b[i].parent->0 as int].depth + 1 by {
        assert(local_step_fields(a[i], b[i], t));
        assert(a[i].parent is Some && a[i].parent->0 < i);
        assert(local_step_fields(a[a[i].parent->0 as int], b[a[i].parent->0 as int], t));
    }
    assert forall|i: int| 0 <= i < b.len() implies wf_elements(#[trigger] b[i].orbit) by {
        assert(local_step_fields(a[i], b[i], t));
    }
    assert forall|i: int| 0 <= i < b.len() implies (#[trigger] b[i].radius) <= LIM by {
        assert(local_step_fields(a[i], b[i], t));
    }
    assert forall|i: int| 0 <= i < b.len() implies id_ok(#[trigger] b[i].id@) by {
        assert(local_step_fields(a[i], b[i], t));
    }
    assert forall|i: int| 0 <= i < b.len() implies (#[trigger] b[i].position).in_range() by {
        assert(local_step_fields(a[i], b[i], t));
    }
    assert forall|i: int| 0 <= i < b.len() implies (#[trigger] b[i].velocity).in_range() by {
        assert(local_step_fields(a[i], b[i], t));
    }
    assert forall|i: int| 0 <= i < b.len() implies (#[trigger] b[i].depth) <= i by {
        assert(local_step_fields(a[i], b[i], t));
    }
    assert forall|i: int, j: int|
        0 <= i < b.len() && 0 <= j < b.len() && i != j implies b[i].id@ != b[j].id@ by {
        assert(local_step_fields(a[i], b[i], t));
        assert(local_step_fields(a[j], b[j], t));
    }
    assert(b[0].parent is None && b[0].depth == 0) by {
        assert(local_step_fields(a[0], b[0], t));
    }
}

/// The global stage only rewrites positions and velocities, which stay in
/// range because the accumulation saturates.
proof fn lemma_global_update_preserves_wf(pre: BodiesMapping, post: BodiesMapping)
    requires
        wf(pre),
        post.bodies@.len() == pre.bodies@.len(),
        forall|i: int|
            0 <= i < pre.bodies@.len() ==> #[trigger] post.bodies@[i] == (Body {
                position: world_pos_of(pre.bodies@, i),
                velocity: world_vel_of(pre.bodies@, i),
                ..pre.bodies@[i]
            }),
    ensures
        wf(post),
{
    assert forall|i: int| 0 <= i < post.bodies@.len() implies (
    #[trigger] post.bodies@[i].position).in_range() && post.bodies@[i].velocity.in_range() by {
        lemma_world_of_in_range(pre.bodies@, i);
    }
}

/// World positions and velocities stay within the coordinate bound.
proof fn lemma_world_of_in_range(b: Seq<Body>, i: int)
    requires
        0 <= i < b.len(),
        forall|k: int| 0 <= k < b.len() ==> (#[trigger] b[k].orbit.local_pos).in_range(),
        forall|k: int| 0 <= k < b.len() ==> (#[trigger] b[k].orbit.local_speed).in_range(),
    ensures
        world_pos_of(b, i).in_range(),
        world_vel_of(b, i).in_range(),
    decreases i,
{
    match b[i].parent {
        Option::None => {},
        Option::Some(p) => {
            if p < i {
                lemma_world_of_in_range(b, p as int);
            }
        },
    }
}

/// Unfold one step of the world-state recursion.
proof fn lemma_world_of_unfold(b: Seq<Body>, i: int)
    requires
        0 <= i < b.len(),
    ensures
        world_pos_of(b, i) == match b[i].parent {
            Option::None => b[i].orbit.local_pos,
            Option::Some(p) => if p < i {
                let acc = world_pos_of(b, p as int);
                Vec3 {
                    x: add_sat_spec(acc.x as int, b[i].orbit.local_pos.x as int) as i64,
                    y: add_sat_spec(acc.y as int, b[i].orbit.local_pos.y as int) as i64,
                    z: add_sat_spec(acc.z as int, b[i].orbit.local_pos.z as int) as i64,
                }
            } else {
                b[i].orbit.local_pos
            },
        },
        world_vel_of(b, i) == match b[i].parent {
            Option::None => b[i].orbit.local_speed,
            Option::Some(p) => if p < i {
                let acc = world_vel_of(b, p as int);
                Vec3 {
                    x: add_sat_spec(acc.x as int, b[i].orbit.local_speed.x as int) as i64,
                    y: add_sat_spec(acc.y as int, b[i].orbit.local_speed.y as int) as i64,
                    z: add_sat_spec(acc.z as int, b[i].orbit.local_speed.z as int) as i64,
                }
            } else {
                b[i].orbit.local_speed
            },
        },
{
}

} // verus!
