//! The wire form of the periodic snapshot: decoding undoes encoding, and
//! malformed bytes are rejected.

use rust_space_trading::algebra::Vec3;
use rust_space_trading::codec::{decode_periodic_update, encode_periodic_update, read_u64};
use rust_space_trading::network::PeriodicUpdate;
use rust_space_trading::physics::{Position, Velocity};

fn sample_update() -> PeriodicUpdate {
    PeriodicUpdate {
        time: 987_654_321,
        ships: vec![
            (
                b"aile".to_vec(),
                Position(Vec3 { x: 149_598_023, y: -7, z: 0 }),
                Velocity(Vec3 { x: -2_563_907, y: 523_045, z: 12 }),
            ),
            (
                b"b".to_vec(),
                Position(Vec3 { x: 0, y: 0, z: 0 }),
                Velocity(Vec3 { x: i64::MIN, y: i64::MAX, z: -1 }),
            ),
        ],
    }
}

#[test]
fn snapshot_wire_round_trip() {
    let u = sample_update();
    let bytes = encode_periodic_update(&u);
    // Fixed layout: 8 bytes of tick, 8 of count, then per entry one
    // length byte, the identifier, and six 8-byte components.
    assert_eq!(bytes.len(), 16 + (1 + 4 + 48) + (1 + 1 + 48));
    let back = decode_periodic_update(&bytes).unwrap();
    assert_eq!(back.time, u.time);
    assert_eq!(back.ships.len(), 2);
    assert_eq!(back.ships[0].0, b"aile".to_vec());
    assert_eq!(back.ships[0].1, u.ships[0].1);
    assert_eq!(back.ships[0].2, u.ships[0].2);
    assert_eq!(back.ships[1].0, b"b".to_vec());
    assert_eq!(back.ships[1].1, u.ships[1].1);
    assert_eq!(back.ships[1].2, u.ships[1].2);
}

#[test]
fn empty_snapshot_round_trip() {
    let u = PeriodicUpdate { time: 0, ships: Vec::new() };
    let bytes = encode_periodic_update(&u);
    assert_eq!(bytes.len(), 16);
    let back = decode_periodic_update(&bytes).unwrap();
    assert_eq!(back.time, 0);
    assert_eq!(back.ships.len(), 0);
}

#[test]
fn malformed_wire_bytes_are_rejected() {
    let u = sample_update();
    let mut bytes = encode_periodic_update(&u);
    // Truncated payload.
    bytes.pop();
    assert!(decode_periodic_update(&bytes).is_none());
    // Shorter than a header.
    assert!(decode_periodic_update(&vec![0u8; 15]).is_none());
    // A count that promises entries the bytes do not hold.
    let bare_header = PeriodicUpdate { time: 1, ships: Vec::new() };
    let mut header_only = encode_periodic_update(&bare_header);
    header_only[8] = 3;
    assert!(decode_periodic_update(&header_only).is_none());
}

#[test]
fn little_endian_layout_on_the_wire() {
    let u = PeriodicUpdate { time: 0x0102_0304, ships: Vec::new() };
    let bytes = encode_periodic_update(&u);
    assert_eq!(bytes[0], 4);
    assert_eq!(bytes[1], 3);
    assert_eq!(bytes[2], 2);
    assert_eq!(bytes[3], 1);
    assert_eq!(read_u64(&bytes, 0), 0x0102_0304);
}
