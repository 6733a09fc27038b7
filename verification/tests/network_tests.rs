//! The synchronization protocol: replica reconciliation, the periodic
//! snapshot, the clock, and the channel layout.

use rust_space_trading::algebra::Vec3;
use rust_space_trading::bodies::{BodiesConfig, BodiesMapping, BodyData, BodyType};
use rust_space_trading::clock::SimulationClock;
use rust_space_trading::network::{
    diff_clients, on_connection_event, ships_snapshot, ClientChannel, ClientState, InitialData,
    PeriodicUpdate, ServerChannel, ServerMessage, SyncStatus,
};
use rust_space_trading::physics::{Position, Velocity};
use rust_space_trading::ships::{ShipEvent, ShipInfo, ShipsMapping};

fn net_system() -> BodiesMapping {
    let records = vec![BodyData {
        id: b"soleil".to_vec(),
        body_type: BodyType::Star,
        eccentricity: 0,
        semimajor_axis: 0,
        inclination: 0,
        long_asc_node: 0,
        arg_periapsis: 0,
        initial_mean_anomaly: 0,
        revolution_period: 0,
        mass: 1_989_000_000_000_000,
        radius: 2_000_000_000_000,
        host_body: None,
    }];
    BodiesMapping::from_records(&records, BodiesConfig::default()).unwrap()
}

fn create_client_ship(state: &mut ClientState, m: &BodiesMapping, id: &[u8]) {
    let events = vec![ShipEvent::Create(ShipInfo {
        id: id.to_vec(),
        spawn_pos: Vec3 { x: 1_000_000, y: 0, z: 0 },
        spawn_speed: Vec3 { x: 0, y: 0, z: 0 },
    })];
    state.ships.handle_ship_events(m, &events);
}

#[test]
fn periodic_update_race_drops_unknown_then_applies_known() {
    // A snapshot naming a ship the replica has not created yet is dropped
    // without error; the next snapshot after the creation applies.
    let m = net_system();
    let mut state = ClientState::new();
    let early = ServerMessage::PeriodicUpdate(PeriodicUpdate {
        time: 5,
        ships: vec![(
            b"nav".to_vec(),
            Position(Vec3 { x: 42, y: 43, z: 44 }),
            Velocity(Vec3 { x: 1, y: 2, z: 3 }),
        )],
    });
    state.handle_server_message(&early);
    assert_eq!(state.simtick, 5);
    assert_eq!(state.ships.len(), 0);
    create_client_ship(&mut state, &m, b"nav");
    let late = ServerMessage::PeriodicUpdate(PeriodicUpdate {
        time: 9,
        ships: vec![(
            b"nav".to_vec(),
            Position(Vec3 { x: 42, y: 43, z: 44 }),
            Velocity(Vec3 { x: 1, y: 2, z: 3 }),
        )],
    });
    state.handle_server_message(&late);
    assert_eq!(state.simtick, 9);
    assert_eq!(state.ships.ships[0].pos, Vec3 { x: 42, y: 43, z: 44 });
    assert_eq!(state.ships.ships[0].velocity, Vec3 { x: 1, y: 2, z: 3 });
}

#[test]
fn control_messages_overwrite_replica_mirrors() {
    let mut state = ClientState::new();
    assert_eq!(state.sync, SyncStatus::NotSynced);
    state.handle_server_message(&ServerMessage::InitialData(InitialData {
        bodies_config: BodiesConfig::SmallestBodyType(BodyType::Moon),
        toggle_time: true,
    }));
    assert_eq!(state.sync, SyncStatus::Synced);
    assert!(state.toggle_time);
    assert_eq!(
        state.bodies_config,
        BodiesConfig::SmallestBodyType(BodyType::Moon)
    );
    state.handle_server_message(&ServerMessage::ToggleTime(false));
    assert!(!state.toggle_time);
    state.handle_server_message(&ServerMessage::UpdateTime(77));
    assert_eq!(state.simtick, 77);
    state.handle_server_message(&ServerMessage::BodiesConfig(
        BodiesConfig::SmallestBodyType(BodyType::Star),
    ));
    assert_eq!(
        state.bodies_config,
        BodiesConfig::SmallestBodyType(BodyType::Star)
    );
}

#[test]
fn snapshot_lists_every_ship_at_the_tick() {
    let m = net_system();
    let mut ships = ShipsMapping::new();
    let events = vec![
        ShipEvent::Create(ShipInfo {
            id: b"un".to_vec(),
            spawn_pos: Vec3 { x: 10, y: 20, z: 30 },
            spawn_speed: Vec3 { x: 1, y: 0, z: 0 },
        }),
        ShipEvent::Create(ShipInfo {
            id: b"deux".to_vec(),
            spawn_pos: Vec3 { x: 40, y: 50, z: 60 },
            spawn_speed: Vec3 { x: 0, y: 1, z: 0 },
        }),
    ];
    ships.handle_ship_events(&m, &events);
    let update = ships_snapshot(&ships, 123);
    assert_eq!(update.time, 123);
    assert_eq!(update.ships.len(), 2);
    assert_eq!(update.ships[0].0, b"un".to_vec());
    assert_eq!(update.ships[0].1, Position(Vec3 { x: 10, y: 20, z: 30 }));
    assert_eq!(update.ships[1].0, b"deux".to_vec());
    assert_eq!(update.ships[1].2, Velocity(Vec3 { x: 0, y: 1, z: 0 }));
}

#[test]
fn clock_monotonic_and_paused_time_stands_still() {
    // The tick counter never decreases, and while paused, simulated time
    // does not advance across repeated scheduler steps.
    let mut clock = SimulationClock::new(3, false);
    let t0 = clock.sim_days();
    clock.advance();
    clock.advance();
    assert_eq!(clock.simtick, 0);
    assert_eq!(clock.sim_days(), t0);
    clock.set_running(true);
    let mut last = clock.simtick;
    for _ in 0..5 {
        clock.advance();
        assert!(clock.simtick >= last);
        last = clock.simtick;
    }
    assert_eq!(clock.simtick, 5);
    assert_eq!(clock.sim_days(), 15);
}

#[test]
fn step_size_change_takes_effect_immediately() {
    let mut clock = SimulationClock::new(1, true);
    clock.advance();
    assert_eq!(clock.sim_days(), 1);
    assert!(clock.set_step(10));
    assert_eq!(clock.sim_days(), 10);
    assert!(!clock.set_step(0));
    assert_eq!(clock.step, 10);
    clock.toggle();
    assert!(!clock.running);
}

#[test]
fn diff_clients_reports_joins_and_leaves_once() {
    let before: Vec<u64> = vec![1, 2, 3];
    let current: Vec<u64> = vec![2, 4, 4, 5];
    let (connected, disconnected) = diff_clients(&before, &current);
    assert_eq!(connected, vec![4, 5]);
    assert_eq!(disconnected, vec![1, 3]);
    let (none_in, none_out) = diff_clients(&current, &current);
    assert_eq!(none_in, Vec::<u64>::new());
    assert_eq!(none_out, Vec::<u64>::new());
}

#[test]
fn connection_event_sends_the_greeting_once() {
    let config = BodiesConfig::SmallestBodyType(BodyType::Moon);
    let greeting = on_connection_event(true, config, true).unwrap();
    assert_eq!(greeting.bodies_config, config);
    assert!(greeting.toggle_time);
    assert!(on_connection_event(false, config, true).is_none());
}

#[test]
fn channels_keep_their_transport_indices() {
    assert_eq!(ServerChannel::Once.id(), 0);
    assert_eq!(ServerChannel::PeriodicUpdates.id(), 1);
    assert_eq!(ClientChannel::Once.id(), 0);
    assert_eq!(ClientChannel::Unused.id(), 1);
}
