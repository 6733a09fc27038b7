//! Ships: free-flying objects whose motion follows the gravity of their
//! influence set.  The registry is an explicit arena with identifier
//! lookup; creation and removal arrive as events drained once per tick in
//! order, and each tick every ship takes one leapfrog step.

use vstd::prelude::*;

verus! {

use crate::algebra::Vec3;
use crate::bodies::{copy_id, id_eq, id_ok, wf, BodiesMapping, Body, MAX_ID_LENGTH};
use crate::fixed::{mul_div, LIM};
use crate::influence::{dominant_spec, influencers_rec, Influenced};
use crate::physics::{accel_sum_spec, drift_spec, get_acceleration, half_kick_spec,
    leapfrog_scalar_spec};

/// Immutable description of a ship: its identifier and where it entered
/// the simulation.
pub struct ShipInfo {
    /// Identifier, unique among ships.
    pub id: Vec<u8>,
    /// World-space position at creation, kilometres.
    pub spawn_pos: Vec3,
    /// World-space velocity at creation, kilometres per day.
    pub spawn_speed: Vec3,
}

/// A ship in the registry: its description and its per-tick kinematics.
pub struct Ship {
    /// Identifier and spawn state.
    pub info: ShipInfo,
    /// Current world-space position, kilometres.
    pub pos: Vec3,
    /// Current world-space velocity, kilometres per day.
    pub velocity: Vec3,
    /// Current world-space acceleration, kilometres per day squared.
    pub acceleration: Vec3,
    /// The bodies that currently dominate and influence the ship.
    pub influence: Influenced,
}

/// The ship registry.
pub struct ShipsMapping {
    /// The ships, in creation order.
    pub ships: Vec<Ship>,
}

/// Well-formedness of the registry against an arena of `n` bodies:
/// identifiers are unique and short, kinematics are in range, and every
/// influence index points into the arena.
pub open spec fn ships_wf(s: ShipsMapping, n: int) -> bool {
    let v = s.ships@;
    &&& forall|i: int| 0 <= i < v.len() ==> id_ok((#[trigger] v[i].info.id)@)
    &&& forall|i: int, j: int|
        0 <= i < v.len() && 0 <= j < v.len() && i != j ==> v[i].info.id@ != v[j].info.id@
    &&& forall|i: int| 0 <= i < v.len() ==> (#[trigger] v[i].pos).in_range()
    &&& forall|i: int| 0 <= i < v.len() ==> (#[trigger] v[i].velocity).in_range()
    &&& forall|i: int| 0 <= i < v.len() ==> (#[trigger] v[i].acceleration).in_range()
    &&& forall|i: int| 0 <= i < v.len() ==> (#[trigger] v[i].influence.main_influencer) < n
    &&& forall|i: int, k: int|
        0 <= i < v.len() && 0 <= k < v[i].influence.influencers@.len()
            ==> v[i].influence.influencers@[k] < n
}

/// Why a ship could not be created.
#[derive(Clone, Copy, Debug, PartialEq, Eq, Structural)]
pub enum ShipCreationError {
    /// The identifier exceeds the accepted length.
    IDTooLong,
    /// A ship with this identifier already exists.
    ShipAlreadyExists,
}

/// Lifecycle commands for ships, drained once per tick in arrival order.
pub enum ShipEvent {
    /// Create a ship, unless its identifier is already taken.
    Create(ShipInfo),
    /// Remove the ship with this identifier; unknown identifiers are a
    /// silent no-op.
    Remove(Vec<u8>),
}

/// Whether `s` is exactly the ship that entering the simulation at
/// `info`'s spawn state produces against the body arena `b`: kinematics
/// at the spawn values, influence resolved at the spawn position, and
/// acceleration summed over that influence set.
pub open spec fn is_created_ship(b: Seq<Body>, info: ShipInfo, s: Ship) -> bool {
    let inf = influencers_rec(b, info.spawn_pos, b.len() as int);
    &&& s.info.id@ == info.id@
    &&& s.info.spawn_pos == info.spawn_pos
    &&& s.info.spawn_speed == info.spawn_speed
    &&& s.pos == info.spawn_pos
    &&& s.velocity == info.spawn_speed
    &&& s.influence.main_influencer == dominant_spec(b, info.spawn_pos)
    &&& s.influence.influencers@ == inf
    &&& s.acceleration.x == accel_sum_spec(b, inf, info.spawn_pos, inf.len() as int).0
    &&& s.acceleration.y == accel_sum_spec(b, inf, info.spawn_pos, inf.len() as int).1
    &&& s.acceleration.z == accel_sum_spec(b, inf, info.spawn_pos, inf.len() as int).2
}

/// How one lifecycle event turns the registry `pre` into `post`.
pub open spec fn apply_event_rel(b: Seq<Body>, pre: Seq<Ship>, ev: ShipEvent, post: Seq<Ship>) -> bool {
    match ev {
        ShipEvent::Create(info) => if !id_ok(info.id@) || !info.spawn_pos.in_range()
            || !info.spawn_speed.in_range() || exists|i: int|
            0 <= i < pre.len() && (#[trigger] pre[i].info.id)@ == info.id@ {
            post == pre
        } else {
            exists|s: Ship| #[trigger] is_created_ship(b, info, s) && post == pre.push(s)
        },
        ShipEvent::Remove(id) => if exists|i: int|
            0 <= i < pre.len() && (#[trigger] pre[i].info.id)@ == id@ {
            exists|i: int|
                0 <= i < pre.len() && (#[trigger] pre[i].info.id)@ == id@ && post == pre.remove(i)
        } else {
            post == pre
        },
    }
}

/// How draining a queue of events walks the registry through a chain of
/// states: `states[0]` before any event, each event stepping to the next
/// state, `states[evs.len()]` after the drain.
pub open spec fn events_chain(b: Seq<Body>, states: Seq<Seq<Ship>>, evs: Seq<ShipEvent>) -> bool {
    &&& states.len() == evs.len() + 1
    &&& forall|i: int|
        0 <= i < evs.len() ==> apply_event_rel(b, #[trigger] states[i], evs[i], states[i + 1])
}

impl ShipsMapping {
    /// An empty registry.
    pub fn new() -> (s: ShipsMapping)
        ensures
            s.ships@.len() == 0,
            ships_wf(s, 0),
    {
        ShipsMapping { ships: Vec::new() }
    }

    /// Number of ships in the registry.
    pub fn len(&self) -> (n: usize)
        ensures
            n == self.ships@.len(),
    {
        self.ships.len()
    }

    /// Registry index of the ship with the given identifier.
    pub fn index_of(&self, id: &Vec<u8>) -> (r: Option<usize>)
        ensures
            match r {
                Option::Some(i) => i < self.ships@.len() && self.ships@[i as int].info.id@ == id@,
                Option::None => forall|i: int|
                    0 <= i < self.ships@.len() ==> (#[trigger] self.ships@[i].info.id)@ != id@,
            },
    {
        let mut i: usize = 0;
        while i < self.ships.len()
            invariant
                i <= self.ships@.len(),
                forall|k: int| 0 <= k < i ==> (#[trigger] self.ships@[k].info.id)@ != id@,
            decreases self.ships@.len() - i,
        {
            if id_eq(&self.ships[i].info.id, id) {
                return Some(i);
            }
            i = i + 1;
        }
        None
    }

    /// Whether a new ship may take the given identifier: it must fit the
    /// length bound and be free.
    pub fn validate_new_id(&self, id: &Vec<u8>) -> (r: Result<(), ShipCreationError>)
        ensures
            match r {
                Result::Ok(()) => id_ok(id@) && forall|i: int|
                    0 <= i < self.ships@.len() ==> (#[trigger] self.ships@[i].info.id)@ != id@,
                Result::Err(e) => (e == ShipCreationError::IDTooLong && !id_ok(id@)) || (e
                    == ShipCreationError::ShipAlreadyExists && id_ok(id@) && exists|i: int|
                    0 <= i < self.ships@.len() && (#[trigger] self.ships@[i].info.id)@ == id@),
            },
    {
        if id.len() > MAX_ID_LENGTH {
            return Err(ShipCreationError::IDTooLong);
        }
        match self.index_of(id) {
            Option::Some(_) => Err(ShipCreationError::ShipAlreadyExists),
            Option::None => Ok(()),
        }
    }

    /// Apply one lifecycle event.  A creation whose identifier is taken
    /// or too long is ignored, as is a removal of an unknown identifier.
    pub fn handle_ship_event(&mut self, m: &BodiesMapping, ev: &ShipEvent)
        requires
            wf(*m),
            ships_wf(*old(self), m.bodies@.len() as int),
        ensures
            apply_event_rel(m.bodies@, old(self).ships@, *ev, final(self).ships@),
            ships_wf(*final(self), m.bodies@.len() as int),
    {
        match ev {
            ShipEvent::Create(info) => {
                if info.id.len() > MAX_ID_LENGTH {
                    return ;
                }
                match self.index_of(&info.id) {
                    Option::Some(_) => {},
                    Option::None => {
                        if !in_range_checked(info.spawn_pos) || !in_range_checked(
                            info.spawn_speed,
                        ) {
                            return ;
                        }
                        let influence = Influenced::new(info.spawn_pos, m);
                        let acceleration = get_acceleration(
                            info.spawn_pos,
                            m,
                            &influence.influencers,
                        );
                        let ship = Ship {
                            pos: info.spawn_pos,
                            velocity: info.spawn_speed,
                            acceleration,
                            influence,
                            info: ShipInfo {
                                id: copy_id(&info.id),
                                spawn_pos: info.spawn_pos,
                                spawn_speed: info.spawn_speed,
                            },
                        };
                        let ghost gship = ship;
                        self.ships.push(ship);
                        proof {
                            assert(is_created_ship(m.bodies@, *info, gship));
                            assert(self.ships@ == old(self).ships@.push(gship));
                            let v = self.ships@;
                            let u = old(self).ships@;
                            assert forall|i: int| 0 <= i < v.len() implies id_ok(
                                (#[trigger] v[i].info.id)@,
                            ) by {
                                if i < u.len() {
                                    assert(v[i] == u[i]);
                                    assert(id_ok((u[i].info.id)@));
                                } else {
                                    assert(v[i] == gship);
                                    assert(gship.info.id@ == info.id@);
                                }
                            }
                            assert forall|i: int| 0 <= i < v.len() implies (
                            #[trigger] v[i].pos).in_range() by {
                                if i < u.len() {
                                    assert(v[i] == u[i]);
                                } else {
                                    assert(v[i] == gship);
                                }
                            }
                            assert forall|i: int| 0 <= i < v.len() implies (
                            #[trigger] v[i].velocity).in_range() by {
                                if i < u.len() {
                                    assert(v[i] == u[i]);
                                } else {
                                    assert(v[i] == gship);
                                }
                            }
                            assert forall|i: int| 0 <= i < v.len() implies (
                            #[trigger] v[i].acceleration).in_range() by {
                                if i < u.len() {
                                    assert(v[i] == u[i]);
                                } else {
                                    assert(v[i] == gship);
                                }
                            }
                            assert forall|i: int| 0 <= i < v.len() implies (
                            #[trigger] v[i].influence.main_influencer) < m.bodies@.len() by {
                                if i < u.len() {
                                    assert(v[i] == u[i]);
                                    assert(u[i].influence.main_influencer < m.bodies@.len());
                                } else {
                                    assert(v[i] == gship);
                                    assert(gship.influence.main_influencer < m.bodies@.len());
                                }
                            }
                            assert forall|i: int, j: int|
                                0 <= i < v.len() && 0 <= j < v.len() && i != j implies v[i].info.id@
                                != v[j].info.id@ by {
                                if i < u.len() && j < u.len() {
                                    assert(v[i] == u[i] && v[j] == u[j]);
                                    assert(u[i].info.id@ != u[j].info.id@);
                                } else if i < u.len() {
                                    assert(v[i] == u[i] && v[j] == gship);
                                    assert((u[i].info.id)@ != info.id@);
                                    assert(gship.info.id@ == info.id@);
                                } else {
                                    assert(v[i] == gship && v[j] == u[j]);
                                    assert((u[j].info.id)@ != info.id@);
                                    assert(gship.info.id@ == info.id@);
                                }
                            }
                            assert forall|i: int, k: int|
                                0 <= i < v.len() && 0 <= k
                                    < v[i].influence.influencers@.len() implies v[i].influence.influencers@[k]
                                < m.bodies@.len() by {
                                if i < u.len() {
                                    assert(v[i] == u[i]);
                                    assert(u[i].influence.influencers@[k] < m.bodies@.len());
                                } else {
                                    assert(v[i] == gship);
                                    assert(gship.influence.influencers@[k] < m.bodies@.len());
                                }
                            }
                        }
                    },
                }
            },
            ShipEvent::Remove(id) => {
                match self.index_of(id) {
                    Option::Some(i) => {
                        self.ships.remove(i);
                        proof {
                            assert(old(self).ships@[i as int].info.id@ == id@);
                            assert(self.ships@ == old(self).ships@.remove(i as int));
                        }
                    },
                    Option::None => {},
                }
            },
        }
    }

    /// Drain a tick's queued lifecycle events in arrival order.  The
    /// returned ghost trace names every intermediate registry state, one
    /// applied event apart.
    pub fn handle_ship_events(&mut self, m: &BodiesMapping, events: &Vec<ShipEvent>) -> (trace:
        Ghost<Seq<Seq<Ship>>>)
        requires
            wf(*m),
            ships_wf(*old(self), m.bodies@.len() as int),
        ensures
            events_chain(m.bodies@, trace@, events@),
            trace@[0] == old(self).ships@,
            trace@[events@.len() as int] == final(self).ships@,
            ships_wf(*final(self), m.bodies@.len() as int),
    {
        let ghost start = self.ships@;
        let ghost mut trace: Seq<Seq<Ship>> = seq![start];
        let mut k: usize = 0;
        while k < events.len()
            invariant
                wf(*m),
                k <= events@.len(),
                ships_wf(*self, m.bodies@.len() as int),
                trace.len() == k + 1,
                trace[0] == old(self).ships@,
                trace[k as int] == self.ships@,
                forall|i: int|
                    0 <= i < k ==> apply_event_rel(
                        m.bodies@,
                        #[trigger] trace[i],
                        events@[i],
                        trace[i + 1],
                    ),
            decreases events@.len() - k,
        {
            self.handle_ship_event(m, &events[k]);
            proof {
                trace = trace.push(self.ships@);
            }
            k = k + 1;
        }
        Ghost(trace)
    }

    /// Integrate every ship one leapfrog step of `dt` simulated days.
    pub fn update_ships(&mut self, m: &BodiesMapping, dt: i64)
        requires
            wf(*m),
            1 <= dt,
            ships_wf(*old(self), m.bodies@.len() as int),
        ensures
            final(self).ships@.len() == old(self).ships@.len(),
            forall|i: int|
                0 <= i < old(self).ships@.len() ==> ship_stepped(
                    m.bodies@,
                    #[trigger] old(self).ships@[i],
                    final(self).ships@[i],
                    dt as int,
                ),
            ships_wf(*final(self), m.bodies@.len() as int),
    {
        let n = self.ships.len();
        let mut i: usize = 0;
        while i < n
            invariant
                wf(*m),
                1 <= dt,
                n == self.ships@.len() == old(self).ships@.len(),
                i <= n,
                ships_wf(*old(self), m.bodies@.len() as int),
                forall|k: int|
                    i <= k < n ==> #[trigger] self.ships@[k] == old(self).ships@[k],
                forall|k: int|
                    0 <= k < i ==> ship_stepped(
                        m.bodies@,
                        #[trigger] old(self).ships@[k],
                        self.ships@[k],
                        dt as int,
                    ),
                forall|k: int| 0 <= k < i ==> (#[trigger] self.ships@[k].pos).in_range(),
                forall|k: int| 0 <= k < i ==> (#[trigger] self.ships@[k].velocity).in_range(),
                forall|k: int|
                    0 <= k < i ==> (#[trigger] self.ships@[k].acceleration).in_range(),
                forall|k: int|
                    0 <= k < i ==> (#[trigger] self.ships@[k].influence.main_influencer)
                        < m.bodies@.len(),
                forall|k: int, j: int|
                    0 <= k < i && 0 <= j < self.ships@[k].influence.influencers@.len()
                        ==> self.ships@[k].influence.influencers@[j] < m.bodies@.len(),
            decreases n - i,
        {
            let ship = &mut self.ships[i];
            update_ship(ship, m, dt);
            i = i + 1;
        }
        proof {
            lemma_stepped_preserves_wf(*old(self), *self, m.bodies@, dt as int);
        }
    }
}

/// The integration stage preserves registry well-formedness: identifiers
/// are untouched and the new kinematics are in range.
proof fn lemma_stepped_preserves_wf(
    pre: ShipsMapping,
    post: ShipsMapping,
    b: Seq<Body>,
    dt: int,
)
    requires
        ships_wf(pre, b.len() as int),
        post.ships@.len() == pre.ships@.len(),
        forall|i: int|
            0 <= i < pre.ships@.len() ==> ship_stepped(
                b,
                #[trigger] pre.ships@[i],
                post.ships@[i],
                dt,
            ),
        forall|i: int| 0 <= i < post.ships@.len() ==> (#[trigger] post.ships@[i].pos).in_range(),
        forall|i: int|
            0 <= i < post.ships@.len() ==> (#[trigger] post.ships@[i].velocity).in_range(),
        forall|i: int|
            0 <= i < post.ships@.len() ==> (#[trigger] post.ships@[i].acceleration).in_range(),
        forall|i: int|
            0 <= i < post.ships@.len() ==> (#[trigger] post.ships@[i].influence.main_influencer)
                < b.len(),
        forall|i: int, j: int|
            0 <= i < post.ships@.len() && 0 <= j < post.ships@[i].influence.influencers@.len()
                ==> post.ships@[i].influence.influencers@[j] < b.len(),
    ensures
        ships_wf(post, b.len() as int),
{
    let v = post.ships@;
    let u = pre.ships@;
    assert forall|i: int| 0 <= i < v.len() implies id_ok((#[trigger] v[i].info.id)@) by {
        assert(ship_stepped(b, u[i], v[i], dt));
    }
    assert forall|i: int, j: int|
        0 <= i < v.len() && 0 <= j < v.len() && i != j implies v[i].info.id@ != v[j].info.id@ by {
        assert(ship_stepped(b, u[i], v[i], dt));
        assert(ship_stepped(b, u[j], v[j], dt));
    }
}

/// Position reached by the drift phase of one leapfrog step.
pub open spec fn drift_pos_spec(s: Ship, dt: int) -> Vec3 {
    Vec3 {
        x: drift_spec(s.pos.x as int, half_kick_spec(s.velocity.x as int, s.acceleration.x as int, dt), dt) as i64,
        y: drift_spec(s.pos.y as int, half_kick_spec(s.velocity.y as int, s.acceleration.y as int, dt), dt) as i64,
        z: drift_spec(s.pos.z as int, half_kick_spec(s.velocity.z as int, s.acceleration.z as int, dt), dt) as i64,
    }
}

/// Whether `post` is `pre` advanced by one leapfrog step of `dt` days
/// against the body arena `b`: half-kick with the stored acceleration,
/// drift, influence and acceleration re-resolved at the new position,
/// then the closing half-kick with the new acceleration.
pub open spec fn ship_stepped(b: Seq<Body>, pre: Ship, post: Ship, dt: int) -> bool {
    let x2 = drift_pos_spec(pre, dt);
    let inf = influencers_rec(b, x2, b.len() as int);
    let a2 = (
        accel_sum_spec(b, inf, x2, inf.len() as int).0,
        accel_sum_spec(b, inf, x2, inf.len() as int).1,
        accel_sum_spec(b, inf, x2, inf.len() as int).2,
    );
    &&& post.info == pre.info
    &&& post.pos == x2
    &&& post.influence.main_influencer == dominant_spec(b, x2)
    &&& post.influence.influencers@ == inf
    &&& post.acceleration.x == a2.0
    &&& post.acceleration.y == a2.1
    &&& post.acceleration.z == a2.2
    &&& post.velocity.x == leapfrog_scalar_spec(
        pre.pos.x as int,
        pre.velocity.x as int,
        pre.acceleration.x as int,
        a2.0,
        dt,
    ).1
    &&& post.velocity.y == leapfrog_scalar_spec(
        pre.pos.y as int,
        pre.velocity.y as int,
        pre.acceleration.y as int,
        a2.1,
        dt,
    ).1
    &&& post.velocity.z == leapfrog_scalar_spec(
        pre.pos.z as int,
        pre.velocity.z as int,
        pre.acceleration.z as int,
        a2.2,
        dt,
    ).1
}

/// Advance one ship by one leapfrog step of `dt` simulated days: the
/// influence record is recomputed at the drifted position before the new
/// acceleration, so the closing kick never uses a stale influence set.
pub fn update_ship(ship: &mut Ship, m: &BodiesMapping, dt: i64)
    requires
        wf(*m),
        1 <= dt,
        old(ship).pos.in_range(),
        old(ship).velocity.in_range(),
        old(ship).acceleration.in_range(),
    ensures
        ship_stepped(m.bodies@, *old(ship), *final(ship), dt as int),
        final(ship).pos.in_range(),
        final(ship).velocity.in_range(),
        final(ship).acceleration.in_range(),
        final(ship).influence.main_influencer < m.bodies@.len(),
        forall|k: int|
            0 <= k < final(ship).influence.influencers@.len() ==> (#[trigger] final(
                ship
            ).influence.influencers@[k]) < m.bodies@.len(),
{
    let vh = Vec3 {
        x: crate::fixed::add_sat(ship.velocity.x, mul_div(ship.acceleration.x, dt, 2)),
        y: crate::fixed::add_sat(ship.velocity.y, mul_div(ship.acceleration.y, dt, 2)),
        z: crate::fixed::add_sat(ship.velocity.z, mul_div(ship.acceleration.z, dt, 2)),
    };
    let x2 = Vec3 {
        x: crate::fixed::add_sat(ship.pos.x, mul_div(vh.x, dt, 1)),
        y: crate::fixed::add_sat(ship.pos.y, mul_div(vh.y, dt, 1)),
        z: crate::fixed::add_sat(ship.pos.z, mul_div(vh.z, dt, 1)),
    };
    let influence = Influenced::new(x2, m);
    let a2 = get_acceleration(x2, m, &influence.influencers);
    let v2 = Vec3 {
        x: crate::fixed::add_sat(vh.x, mul_div(a2.x, dt, 2)),
        y: crate::fixed::add_sat(vh.y, mul_div(a2.y, dt, 2)),
        z: crate::fixed::add_sat(vh.z, mul_div(a2.z, dt, 2)),
    };
    ship.pos = x2;
    ship.velocity = v2;
    ship.acceleration = a2;
    ship.influence = influence;
}

/// Whether every component lies within the coordinate bound.
fn in_range_checked(v: Vec3) -> (r: bool)
    ensures
        r == v.in_range(),
{
    -LIM <= v.x && v.x <= LIM && -LIM <= v.y && v.y <= LIM && -LIM <= v.z && v.z <= LIM
}

} // verus!
