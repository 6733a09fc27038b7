//! The synchronization protocol: the messages one authoritative instance
//! sends its replicas, the periodic kinematic snapshot, and the replica
//! reconciler.
//!
//! Configuration and control messages travel on an ordered-reliable
//! channel; the high-frequency `PeriodicUpdate` travels unreliably and is
//! never retried, since the next snapshot supersedes a lost one.  A
//! replica that receives a snapshot naming a ship it has not created yet
//! drops that entry silently: creation acknowledgement and snapshots
//! travel on independent channels with no ordering between them.

use vstd::prelude::*;

verus! {

use crate::algebra::Vec3;
use crate::bodies::{copy_id, id_ok, wf, BodiesConfig, BodiesMapping, Body};
use crate::fixed::{clamp64, clamp_spec, LIM};
use crate::influence::{dominant_spec, influencers_rec, Influenced};
use crate::physics::{Acceleration, Position, Velocity};
use crate::ships::{ships_wf, Ship, ShipInfo, ShipsMapping};

/// Channels a server sends on: configuration and control on the
/// ordered-reliable channel, kinematic snapshots on the unreliable one.
pub enum ServerChannel {
    /// Ordered-reliable channel for configuration and control.
    Once,
    /// Unreliable channel for the periodic kinematic snapshots.
    PeriodicUpdates,
}

impl ServerChannel {
    /// Transport index of the channel.
    pub fn id(self) -> (r: u8)
        ensures
            r == match self {
                ServerChannel::Once => 0u8,
                ServerChannel::PeriodicUpdates => 1u8,
            },
    {
        match self {
            ServerChannel::Once => 0,
            ServerChannel::PeriodicUpdates => 1,
        }
    }
}

/// Channels a client sends on; only the reliable one carries traffic.
pub enum ClientChannel {
    /// Ordered-reliable channel for ship-creation requests.
    Once,
    /// Reserved second channel, unused by the protocol.
    Unused,
}

impl ClientChannel {
    /// Transport index of the channel.
    pub fn id(self) -> (r: u8)
        ensures
            r == match self {
                ClientChannel::Once => 0u8,
                ClientChannel::Unused => 1u8,
            },
    {
        match self {
            ClientChannel::Once => 0,
            ClientChannel::Unused => 1,
        }
    }
}

/// The per-tick kinematic snapshot: the simulation tick it was taken at
/// and every ship's identifier, position and velocity.
pub struct PeriodicUpdate {
    /// Tick at which the snapshot was taken.
    pub time: u64,
    /// Identifier, position and velocity of every ship.
    pub ships: Vec<(Vec<u8>, Position, Velocity)>,
}

/// What a new connection receives once, immediately on acceptance.
pub struct InitialData {
    /// Which part of the catalog the server simulates.
    pub bodies_config: BodiesConfig,
    /// Whether simulated time is currently advancing.
    pub toggle_time: bool,
}

/// Messages from the authoritative instance to a replica.
pub enum ServerMessage {
    /// The catalog filter changed.
    BodiesConfig(BodiesConfig),
    /// The simulation tick counter, alone.
    UpdateTime(u64),
    /// The running flag changed.
    ToggleTime(bool),
    /// The once-per-connection greeting.
    InitialData(InitialData),
    /// The unreliable kinematic snapshot.
    PeriodicUpdate(PeriodicUpdate),
}

/// A replica's request to create a ship.
pub struct CreateShipMsg {
    /// Identifier and spawn state of the requested ship.
    pub info: ShipInfo,
    /// Acceleration the requesting replica computed at the spawn point.
    pub acceleration: Acceleration,
    /// Spawn position.
    pub pos: Position,
    /// Spawn velocity.
    pub velocity: Velocity,
}

/// Messages from a replica to the authoritative instance.
pub enum ClientMessage {
    /// Request to create a ship.
    CreateShipMsg(CreateShipMsg),
}

/// Build the periodic snapshot of every ship's kinematics at a tick.
pub fn ships_snapshot(ships: &ShipsMapping, simtick: u64) -> (u: PeriodicUpdate)
    ensures
        u.time == simtick,
        u.ships@.len() == ships.ships@.len(),
        forall|i: int|
            0 <= i < ships.ships@.len() ==> (#[trigger] u.ships@[i]).0@ == ships.ships@[i].info.id@
                && u.ships@[i].1 == Position(ships.ships@[i].pos) && u.ships@[i].2 == Velocity(
                ships.ships@[i].velocity,
            ),
{
    let mut entries: Vec<(Vec<u8>, Position, Velocity)> = Vec::new();
    let mut i: usize = 0;
    while i < ships.ships.len()
        invariant
            i <= ships.ships@.len(),
            entries@.len() == i,
            forall|k: int|
                0 <= k < i ==> (#[trigger] entries@[k]).0@ == ships.ships@[k].info.id@
                    && entries@[k].1 == Position(ships.ships@[k].pos) && entries@[k].2 == Velocity(
                    ships.ships@[k].velocity,
                ),
        decreases ships.ships@.len() - i,
    {
        let ship = &ships.ships[i];
        entries.push((copy_id(&ship.info.id), Position(ship.pos), Velocity(ship.velocity)));
        i = i + 1;
    }
    PeriodicUpdate { time: simtick, ships: entries }
}

/// Whether a client id occurs in a list.
fn contains_client(v: &Vec<u64>, x: u64) -> (r: bool)
    ensures
        r == v@.contains(x),
{
    let mut i: usize = 0;
    while i < v.len()
        invariant
            i <= v@.len(),
            forall|k: int| 0 <= k < i ==> v@[k] != x,
        decreases v@.len() - i,
    {
        if v[i] == x {
            return true;
        }
        i = i + 1;
    }
    false
}

/// Ids of `current` that `before` lacks, each listed once.
fn fresh_clients(before: &Vec<u64>, current: &Vec<u64>) -> (r: Vec<u64>)
    ensures
        forall|x: u64| #[trigger] r@.contains(x) == (current@.contains(x) && !before@.contains(x)),
        forall|i: int, k: int| 0 <= i < r@.len() && 0 <= k < r@.len() && i != k ==> r@[i] != r@[k],
{
    let mut out: Vec<u64> = Vec::new();
    let mut i: usize = 0;
    while i < current.len()
        invariant
            i <= current@.len(),
            forall|k: int|
                0 <= k < out@.len() ==> current@.contains(#[trigger] out@[k]) && !before@.contains(
                    out@[k],
                ),
            forall|i2: int, k: int|
                0 <= i2 < out@.len() && 0 <= k < out@.len() && i2 != k ==> out@[i2] != out@[k],
            forall|k: int|
                0 <= k < i && !before@.contains(#[trigger] current@[k]) ==> out@.contains(
                    current@[k],
                ),
        decreases current@.len() - i,
    {
        let x = current[i];
        if !contains_client(before, x) {
            let ghost pre_out = out@;
            if !contains_client(&out, x) {
                out.push(x);
                proof {
                    assert(out@[out@.len() - 1] == x);
                    assert forall|k: int|
                        0 <= k < i && !before@.contains(#[trigger] current@[k]) implies out@.contains(
                        current@[k],
                    ) by {
                        let k0 = choose|k0: int|
                            0 <= k0 < pre_out.len() && pre_out[k0] == current@[k];
                        assert(out@[k0] == current@[k]);
                    }
                }
            }
            proof {
                assert(out@.contains(x));
            }
        }
        i = i + 1;
    }
    proof {
        assert forall|x: u64| #[trigger] out@.contains(x) == (current@.contains(x)
            && !before@.contains(x)) by {
            if out@.contains(x) {
                let k = choose|k: int| 0 <= k < out@.len() && out@[k] == x;
                assert(current@.contains(out@[k]) && !before@.contains(out@[k]));
            }
            if current@.contains(x) && !before@.contains(x) {
                let k = choose|k: int| 0 <= k < current@.len() && current@[k] == x;
                assert(out@.contains(current@[k]));
            }
        }
    }
    out
}

/// Compare the transport's current client list with the last known one:
/// the first list holds exactly the ids that newly connected, the second
/// exactly the ids that disconnected, each id once.
pub fn diff_clients(before: &Vec<u64>, current: &Vec<u64>) -> (r: (Vec<u64>, Vec<u64>))
    ensures
        forall|x: u64| #[trigger] r.0@.contains(x) == (current@.contains(x) && !before@.contains(
            x,
        )),
        forall|x: u64| #[trigger] r.1@.contains(x) == (before@.contains(x) && !current@.contains(
            x,
        )),
        forall|i: int, k: int|
            0 <= i < r.0@.len() && 0 <= k < r.0@.len() && i != k ==> r.0@[i] != r.0@[k],
        forall|i: int, k: int|
            0 <= i < r.1@.len() && 0 <= k < r.1@.len() && i != k ==> r.1@[i] != r.1@[k],
{
    let connected = fresh_clients(before, current);
    let disconnected = fresh_clients(current, before);
    (connected, disconnected)
}

/// What a connection-lifecycle event owes the peer: a fresh connection
/// receives the once-per-connection greeting with the current catalog
/// filter and running flag; a disconnection sends nothing.
pub fn on_connection_event(connected: bool, config: BodiesConfig, running: bool) -> (r: Option<
    InitialData,
>)
    ensures
        connected ==> r == Some(InitialData { bodies_config: config, toggle_time: running }),
        !connected ==> r is None,
{
    if connected {
        Some(InitialData { bodies_config: config, toggle_time: running })
    } else {
        None
    }
}

/// First registry index holding the identifier, scanning from `k`; `-1`
/// when the identifier is unknown.
pub open spec fn find_ship(ships: Seq<Ship>, id: Seq<u8>, k: int) -> int
    decreases ships.len() - k,
{
    if k < 0 || k >= ships.len() {
        -1
    } else if ships[k].info.id@ == id {
        k
    } else {
        find_ship(ships, id, k + 1)
    }
}

/// A wire vector clamped into the coordinate bound.
pub open spec fn clamp_vec_spec(v: Vec3) -> Vec3 {
    Vec3 {
        x: clamp_spec(v.x as int, LIM as int) as i64,
        y: clamp_spec(v.y as int, LIM as int) as i64,
        z: clamp_spec(v.z as int, LIM as int) as i64,
    }
}

/// One snapshot entry applied to a replica registry: the named ship takes
/// the wire kinematics, an unknown identifier changes nothing.
pub open spec fn apply_entry_spec(ships: Seq<Ship>, e: (Vec<u8>, Position, Velocity)) -> Seq<
    Ship,
> {
    let i = find_ship(ships, e.0@, 0);
    if i == -1 {
        ships
    } else {
        ships.update(
            i,
            Ship { pos: clamp_vec_spec(e.1.0), velocity: clamp_vec_spec(e.2.0), ..ships[i] },
        )
    }
}

/// The first `k` snapshot entries applied in order.
pub open spec fn apply_entries_spec(
    ships: Seq<Ship>,
    entries: Seq<(Vec<u8>, Position, Velocity)>,
    k: int,
) -> Seq<Ship>
    decreases k,
{
    if k <= 0 {
        ships
    } else {
        apply_entry_spec(apply_entries_spec(ships, entries, k - 1), entries[k - 1])
    }
}

/// Whether a replica has received its first configuration-bearing
/// message from the server.
#[derive(Clone, Copy, Debug, PartialEq, Eq, Structural)]
pub enum SyncStatus {
    /// Nothing configuration-bearing has arrived yet.
    NotSynced,
    /// The server's configuration has been mirrored.
    Synced,
}

/// A replica's mirror of the authoritative state: the clock values, the
/// catalog filter, whether the first configuration has arrived, and its
/// local ship registry.
pub struct ClientState {
    /// Mirror of the authoritative tick counter.
    pub simtick: u64,
    /// Mirror of the authoritative running flag.
    pub toggle_time: bool,
    /// Mirror of the authoritative catalog filter.
    pub bodies_config: BodiesConfig,
    /// Whether a configuration-bearing message has been received.
    pub sync: SyncStatus,
    /// The replica's ship registry.
    pub ships: ShipsMapping,
}

impl ClientState {
    /// A replica that has not heard from the server yet.
    pub fn new() -> (c: ClientState)
        ensures
            c.simtick == 0,
            c.toggle_time == false,
            c.bodies_config == BodiesConfig::SmallestBodyType(crate::bodies::BodyType::Planet),
            c.sync == SyncStatus::NotSynced,
            c.ships.ships@.len() == 0,
    {
        ClientState {
            simtick: 0,
            toggle_time: false,
            bodies_config: BodiesConfig::SmallestBodyType(crate::bodies::BodyType::Planet),
            sync: SyncStatus::NotSynced,
            ships: ShipsMapping::new(),
        }
    }

    /// Reconcile one server message into the replica mirrors: control and
    /// configuration overwrite unconditionally (the server is the single
    /// writer), and a kinematic snapshot updates each named ship, dropping
    /// entries whose ship the replica has not created yet.
    pub fn handle_server_message(&mut self, msg: &ServerMessage)
        requires
            forall|i: int, j: int|
                0 <= i < old(self).ships.ships@.len() && 0 <= j < old(self).ships.ships@.len() && i
                    != j ==> old(self).ships.ships@[i].info.id@ != old(self).ships.ships@[j].info.id@,
        ensures
            match *msg {
                ServerMessage::BodiesConfig(c) => *final(self) == (ClientState {
                    bodies_config: c,
                    sync: SyncStatus::Synced,
                    ..*old(self)
                }),
                ServerMessage::UpdateTime(t) => *final(self) == (ClientState {
                    simtick: t,
                    ..*old(self)
                }),
                ServerMessage::ToggleTime(b) => *final(self) == (ClientState {
                    toggle_time: b,
                    ..*old(self)
                }),
                ServerMessage::InitialData(d) => *final(self) == (ClientState {
                    bodies_config: d.bodies_config,
                    toggle_time: d.toggle_time,
                    sync: SyncStatus::Synced,
                    ..*old(self)
                }),
                ServerMessage::PeriodicUpdate(u) => {
                    &&& final(self).simtick == u.time
                    &&& final(self).toggle_time == old(self).toggle_time
                    &&& final(self).bodies_config == old(self).bodies_config
                    &&& final(self).sync == old(self).sync
                    &&& final(self).ships.ships@ == apply_entries_spec(
                        old(self).ships.ships@,
                        u.ships@,
                        u.ships@.len() as int,
                    )
                },
            },
    {
        match msg {
            ServerMessage::BodiesConfig(c) => {
                self.bodies_config = *c;
                self.sync = SyncStatus::Synced;
            },
            ServerMessage::UpdateTime(t) => {
                self.simtick = *t;
            },
            ServerMessage::ToggleTime(b) => {
                self.toggle_time = *b;
            },
            ServerMessage::InitialData(d) => {
                self.bodies_config = d.bodies_config;
                self.toggle_time = d.toggle_time;
                self.sync = SyncStatus::Synced;
            },
            ServerMessage::PeriodicUpdate(u) => {
                self.simtick = u.time;
                let mut k: usize = 0;
                while k < u.ships.len()
                    invariant
                        k <= u.ships@.len(),
                        forall|i: int, j: int|
                            0 <= i < self.ships.ships@.len() && 0 <= j < self.ships.ships@.len()
                                && i != j ==> self.ships.ships@[i].info.id@
                                != self.ships.ships@[j].info.id@,
                        self.ships.ships@ == apply_entries_spec(
                            old(self).ships.ships@,
                            u.ships@,
                            k as int,
                        ),
                        self.simtick == u.time,
                        self.toggle_time == old(self).toggle_time,
                        self.bodies_config == old(self).bodies_config,
                        self.sync == old(self).sync,
                    decreases u.ships@.len() - k,
                {
                    let entry = &u.ships[k];
                    let ghost pre = self.ships.ships@;
                    match self.ships.index_of(&entry.0) {
                        Option::Some(i) => {
                            proof {
                                lemma_find_unique(pre, entry.0@, i as int);
                            }
                            let new_pos = Vec3 {
                                x: clamp64(entry.1.0.x, LIM),
                                y: clamp64(entry.1.0.y, LIM),
                                z: clamp64(entry.1.0.z, LIM),
                            };
                            let new_vel = Vec3 {
                                x: clamp64(entry.2.0.x, LIM),
                                y: clamp64(entry.2.0.y, LIM),
                                z: clamp64(entry.2.0.z, LIM),
                            };
                            let ship = &mut self.ships.ships[i];
                            ship.pos = new_pos;
                            ship.velocity = new_vel;
                        },
                        Option::None => {
                            proof {
                                lemma_find_none(pre, entry.0@, 0);
                            }
                        },
                    }
                    k = k + 1;
                }
            },
        }
    }
}

/// With unique identifiers, a registry index that matches is the first.
proof fn lemma_find_unique(ships: Seq<Ship>, id: Seq<u8>, i: int)
    requires
        0 <= i < ships.len(),
        ships[i].info.id@ == id,
        forall|a: int, b: int|
            0 <= a < ships.len() && 0 <= b < ships.len() && a != b ==> ships[a].info.id@
                != ships[b].info.id@,
    ensures
        find_ship(ships, id, 0) == i,
{
    lemma_find_from(ships, id, 0, i);
}

proof fn lemma_find_from(ships: Seq<Ship>, id: Seq<u8>, k: int, i: int)
    requires
        0 <= k <= i < ships.len(),
        ships[i].info.id@ == id,
        forall|a: int, b: int|
            0 <= a < ships.len() && 0 <= b < ships.len() && a != b ==> ships[a].info.id@
                != ships[b].info.id@,
    ensures
        find_ship(ships, id, k) == i,
    decreases i - k,
{
    if k < i {
        assert(ships[k].info.id@ != ships[i].info.id@);
        lemma_find_from(ships, id, k + 1, i);
    }
}

/// An identifier no registry entry holds is never found.
proof fn lemma_find_none(ships: Seq<Ship>, id: Seq<u8>, k: int)
    requires
        0 <= k,
        forall|i: int| 0 <= i < ships.len() ==> (#[trigger] ships[i].info.id)@ != id,
    ensures
        find_ship(ships, id, k) == -1,
    decreases ships.len() - k,
{
    if k < ships.len() {
        lemma_find_none(ships, id, k + 1);
    }
}

/// How a ship-creation request turns the authoritative registry `pre`
/// into `post`: a taken identifier or out-of-range kinematics change
/// nothing; otherwise the ship enters with the requested kinematics, its
/// influence resolved at the requested position.
pub open spec fn apply_create_msg_rel(
    b: Seq<Body>,
    pre: Seq<Ship>,
    msg: CreateShipMsg,
    post: Seq<Ship>,
) -> bool {
    if !id_ok(msg.info.id@) || !msg.info.spawn_pos.in_range() || !msg.info.spawn_speed.in_range()
        || !msg.pos.0.in_range() || !msg.velocity.0.in_range() || !msg.acceleration.0.in_range()
        || exists|i: int| 0 <= i < pre.len() && (#[trigger] pre[i].info.id)@ == msg.info.id@ {
        post == pre
    } else {
        exists|s: Ship|
            {
                &&& post == #[trigger] pre.push(s)
                &&& s.info.id@ == msg.info.id@
                &&& s.info.spawn_pos == msg.info.spawn_pos
                &&& s.info.spawn_speed == msg.info.spawn_speed
                &&& s.pos == msg.pos.0
                &&& s.velocity == msg.velocity.0
                &&& s.acceleration == msg.acceleration.0
                &&& s.influence.main_influencer == dominant_spec(b, msg.pos.0)
                &&& s.influence.influencers@ == influencers_rec(b, msg.pos.0, b.len() as int)
            }
    }
}

/// Apply one replica message on the authoritative side: create the
/// requested ship unless its identifier is already taken, keeping the
/// kinematics the replica supplied.
pub fn handle_client_message(
    ships: &mut ShipsMapping,
    m: &BodiesMapping,
    msg: &ClientMessage,
)
    requires
        wf(*m),
        ships_wf(*old(ships), m.bodies@.len() as int),
    ensures
        match *msg {
            ClientMessage::CreateShipMsg(c) => apply_create_msg_rel(
                m.bodies@,
                old(ships).ships@,
                c,
                final(ships).ships@,
            ),
        },
        ships_wf(*final(ships), m.bodies@.len() as int),
{
    match msg {
        ClientMessage::CreateShipMsg(c) => {
            if c.info.id.len() > crate::bodies::MAX_ID_LENGTH {
                return ;
            }
            if !in_range3(c.info.spawn_pos) || !in_range3(c.info.spawn_speed) || !in_range3(
                c.pos.0,
            ) || !in_range3(c.velocity.0) || !in_range3(c.acceleration.0) {
                return ;
            }
            match ships.index_of(&c.info.id) {
                Option::Some(_) => {},
                Option::None => {
                    let influence = Influenced::new(c.pos.0, m);
                    let ship = Ship {
                        info: ShipInfo {
                            id: copy_id(&c.info.id),
                            spawn_pos: c.info.spawn_pos,
                            spawn_speed: c.info.spawn_speed,
                        },
                        pos: c.pos.0,
                        velocity: c.velocity.0,
                        acceleration: c.acceleration.0,
                        influence,
                    };
                    let ghost gship = ship;
                    ships.ships.push(ship);
                    proof {
                        assert(ships.ships@ == old(ships).ships@.push(gship));
                        let v = ships.ships@;
                        let u = old(ships).ships@;
                        assert forall|i: int| 0 <= i < v.len() implies id_ok(
                            (#[trigger] v[i].info.id)@,
                        ) by {
                            if i < u.len() {
                                assert(v[i] == u[i]);
                            } else {
                                assert(v[i] == gship);
                            }
                        }
                        assert forall|i: int| 0 <= i < v.len() implies (
                        #[trigger] v[i].pos).in_range() by {
                            if i < u.len() {
                                assert(v[i] == u[i]);
                            } else {
                                assert(v[i] == gship);
                            }
                        }
                        assert forall|i: int| 0 <= i < v.len() implies (
                        #[trigger] v[i].velocity).in_range() by {
                            if i < u.len() {
                                assert(v[i] == u[i]);
                            } else {
                                assert(v[i] == gship);
                            }
                        }
                        assert forall|i: int| 0 <= i < v.len() implies (
                        #[trigger] v[i].acceleration).in_range() by {
                            if i < u.len() {
                                assert(v[i] == u[i]);
                            } else {
                                assert(v[i] == gship);
                            }
                        }
                        assert forall|i: int| 0 <= i < v.len() implies (
                        #[trigger] v[i].influence.main_influencer) < m.bodies@.len() by {
                            if i < u.len() {
                                assert(v[i] == u[i]);
                                assert(u[i].influence.main_influencer < m.bodies@.len());
                            } else {
                                assert(v[i] == gship);
                                assert(gship.influence.main_influencer < m.bodies@.len());
                            }
                        }
                        assert forall|i: int, j: int|
                            0 <= i < v.len() && 0 <= j < v.len() && i != j implies v[i].info.id@
                            != v[j].info.id@ by {
                            if i < u.len() && j < u.len() {
                                assert(v[i] == u[i] && v[j] == u[j]);
                            } else if i < u.len() {
                                assert(v[i] == u[i] && v[j] == gship);
                            } else {
                                assert(v[i] == gship && v[j] == u[j]);
                            }
                        }
                        assert forall|i: int, k: int|
                            0 <= i < v.len() && 0 <= k
                                < v[i].influence.influencers@.len() implies v[i].influence.influencers@[k]
                            < m.bodies@.len() by {
                            if i < u.len() {
                                assert(v[i] == u[i]);
                                assert(u[i].influence.influencers@[k] < m.bodies@.len());
                            } else {
                                assert(v[i] == gship);
                                assert(gship.influence.influencers@[k] < m.bodies@.len());
                            }
                        }
                    }
                },
            }
        },
    }
}

/// Whether every component lies within the coordinate bound.
fn in_range3(v: Vec3) -> (r: bool)
    ensures
        r == v.in_range(),
{
    -LIM <= v.x && v.x <= LIM && -LIM <= v.y && v.y <= LIM && -LIM <= v.z && v.z <= LIM
}

} // verus!
