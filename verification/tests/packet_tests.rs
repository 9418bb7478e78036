//! Tests for the movement-packet decoder, interpolation, and the numeric
//! bit-pattern conversions.

use rofl_decode::numeric::{i32_from_f32_bits, isqrt, ms_from_f32_bits, speed_from_f32_bits};
use rofl_decode::packet::{PathPacket, PosKey};
use rofl_decode::ReplayError;

#[test]
fn path_packet_two_waypoints() {
    // parse type 0x0004: two waypoints, no discard byte; entity 1 at
    // 4.0 units per second; one bit-plane prefix byte of zero, then four
    // fresh coordinate words
    let mut payload: Vec<u8> = Vec::new();
    payload.extend_from_slice(&0x0004u16.to_le_bytes());
    payload.extend_from_slice(&1u32.to_le_bytes());
    payload.extend_from_slice(&4.0f32.to_bits().to_le_bytes());
    payload.push(0x00);
    payload.extend_from_slice(&[0x00, 0x01]);
    payload.extend_from_slice(&[0x00, 0x02]);
    payload.extend_from_slice(&[0x80, 0x01]);
    payload.extend_from_slice(&[0x80, 0x02]);

    let packet = PathPacket::parse(10_000, payload).unwrap();
    assert_eq!(packet.id, 1);
    assert_eq!(packet.speed, 4);
    assert_eq!(packet.timestamp_ms, 10_000);
    assert_eq!(
        packet.waypoints,
        vec![
            (7358 + 2 * 0x0100, 7412 + 2 * 0x0200),
            (7358 + 2 * 0x0180, 7412 + 2 * 0x0280),
        ]
    );
    // half a second past the packet the entity still stands at the first
    // waypoint
    assert_eq!(packet.get_pos(10_500), (7358 + 2 * 0x0100, 7412 + 2 * 0x0200));
}

#[test]
fn path_packet_delta_waypoint() {
    // three waypoints; the prefix byte 0b0110 marks the second waypoint's
    // x axis fresh (bit 0 clear)... bits are least-significant first: bit
    // 0 and 1 belong to waypoint 1, bits 2 and 3 to waypoint 2
    let mut payload: Vec<u8> = Vec::new();
    payload.extend_from_slice(&0x0006u16.to_le_bytes());
    payload.extend_from_slice(&9u32.to_le_bytes());
    payload.extend_from_slice(&100.0f32.to_bits().to_le_bytes());
    payload.push(0b0000_0011); // waypoint 1: both axes are deltas
    payload.extend_from_slice(&[0x10, 0x00]); // w0 x = 0x0010
    payload.extend_from_slice(&[0x20, 0x00]); // w0 y = 0x0020
    payload.push(0x05); // w1 x = 0x0015
    payload.push(0x06); // w1 y = 0x0026
    payload.extend_from_slice(&[0x40, 0x00]); // w2 x fresh = 0x0040
    payload.extend_from_slice(&[0x50, 0x00]); // w2 y fresh = 0x0050

    let packet = PathPacket::parse(0, payload).unwrap();
    assert_eq!(
        packet.waypoints,
        vec![
            (7358 + 2 * 0x10, 7412 + 2 * 0x20),
            (7358 + 2 * 0x15, 7412 + 2 * 0x26),
            (7358 + 2 * 0x40, 7412 + 2 * 0x50),
        ]
    );
}

#[test]
fn path_packet_negative_coordinate() {
    // a word at or above 0x8000 reads as a negative signed value
    let mut payload: Vec<u8> = Vec::new();
    payload.extend_from_slice(&0x0002u16.to_le_bytes());
    payload.extend_from_slice(&2u32.to_le_bytes());
    payload.extend_from_slice(&1.0f32.to_bits().to_le_bytes());
    payload.extend_from_slice(&[0x00, 0x80]); // -32768
    payload.extend_from_slice(&[0xFF, 0xFF]); // -1
    let packet = PathPacket::parse(0, payload).unwrap();
    assert_eq!(packet.waypoints, vec![(7358 - 65536, 7412 - 2)]);
}

#[test]
fn path_packet_zero_count_is_invalid() {
    let mut payload: Vec<u8> = Vec::new();
    payload.extend_from_slice(&0x0000u16.to_le_bytes());
    payload.extend_from_slice(&2u32.to_le_bytes());
    payload.extend_from_slice(&1.0f32.to_bits().to_le_bytes());
    assert_eq!(
        PathPacket::parse(0, payload).unwrap_err(),
        ReplayError::InvalidParseType
    );
}

#[test]
fn waypoint_count_uses_the_whole_parse_type() {
    // parse type 0x0204: 258 waypoints; 65 bit-plane prefix bytes of
    // zero, then 258 fresh coordinate pairs
    let n = 0x0204u16 >> 1;
    let mut payload: Vec<u8> = Vec::new();
    payload.extend_from_slice(&0x0204u16.to_le_bytes());
    payload.extend_from_slice(&7u32.to_le_bytes());
    payload.extend_from_slice(&10.0f32.to_bits().to_le_bytes());
    payload.extend_from_slice(&vec![0u8; ((n as usize - 2) >> 2) + 1]);
    for i in 0..n {
        payload.extend_from_slice(&i.to_le_bytes());
        payload.extend_from_slice(&i.to_le_bytes());
    }
    let packet = PathPacket::parse(0, payload).unwrap();
    assert_eq!(packet.waypoints.len(), 258);
    assert_eq!(packet.waypoints[0], (7358, 7412));
    assert_eq!(packet.waypoints[257], (7358 + 2 * 257, 7412 + 2 * 257));

    // a high-byte count is not mistaken for zero waypoints: 0x0100 asks
    // for 128 waypoints, and a bare header is merely too short
    let mut short: Vec<u8> = Vec::new();
    short.extend_from_slice(&0x0100u16.to_le_bytes());
    short.extend_from_slice(&7u32.to_le_bytes());
    short.extend_from_slice(&10.0f32.to_bits().to_le_bytes());
    assert_eq!(
        PathPacket::parse(0, short).unwrap_err(),
        ReplayError::TruncatedBlock
    );
}

#[test]
fn path_packet_truncated() {
    let payload = vec![0x02u8, 0x00, 1, 0, 0];
    assert_eq!(
        PathPacket::parse(0, payload).unwrap_err(),
        ReplayError::TruncatedBlock
    );
}

#[test]
fn get_pos_walks_segments() {
    let packet = PathPacket {
        timestamp_ms: 0,
        id: 1,
        speed: 100,
        waypoints: vec![(0, 0), (1000, 0)],
    };
    // at its own timestamp: the first waypoint
    assert_eq!(packet.get_pos(0), (0, 0));
    // within the first second: still the first waypoint
    assert_eq!(packet.get_pos(900), (0, 0));
    // the segment takes 1000 units / 100 per second = 10 seconds; halfway
    // through the budget the position is interpolated
    assert_eq!(packet.get_pos(5_000), (500, 0));
    // far past the whole path: the last waypoint
    assert_eq!(packet.get_pos(60_000), (1000, 0));
}

#[test]
fn get_pos_empty_and_single() {
    let empty = PathPacket { timestamp_ms: 0, id: 1, speed: 10, waypoints: vec![] };
    assert_eq!(empty.get_pos(5000), (0, 0));
    let single = PathPacket { timestamp_ms: 0, id: 1, speed: 10, waypoints: vec![(7, 9)] };
    assert_eq!(single.get_pos(5000), (7, 9));
}

#[test]
fn pos_key_packs_both_coordinates() {
    let a = PosKey::new(1000, 2000).as_u64();
    let b = PosKey::new(1000, 2001).as_u64();
    let c = PosKey::new(1001, 2000).as_u64();
    assert_ne!(a, b);
    assert_ne!(a, c);
    assert_eq!(a, PosKey::new(1000, 2000).as_u64());
    // negative coordinates keep distinct keys too
    assert_ne!(PosKey::new(-1, 0).as_u64(), PosKey::new(0, -1).as_u64());
}

#[test]
fn float_bit_conversions() {
    assert_eq!(ms_from_f32_bits(2.5f32.to_bits()), 2500);
    assert_eq!(ms_from_f32_bits(0.0f32.to_bits()), 0);
    assert_eq!(ms_from_f32_bits((-3.0f32).to_bits()), 0);
    assert_eq!(ms_from_f32_bits(10.4f32.to_bits()), 10_399); // 10.4f32 is just below 10.4
    assert_eq!(ms_from_f32_bits(f32::NAN.to_bits()), 0);
    assert_eq!(ms_from_f32_bits(f32::INFINITY.to_bits()), u32::MAX);

    assert_eq!(speed_from_f32_bits(325.0f32.to_bits()), 325);
    assert_eq!(speed_from_f32_bits(0.5f32.to_bits()), 0);

    assert_eq!(i32_from_f32_bits(1000.0f32.to_bits()), 1000);
    assert_eq!(i32_from_f32_bits((-1000.75f32).to_bits()), -1000);
    assert_eq!(i32_from_f32_bits(f32::NAN.to_bits()), 0);
    assert_eq!(i32_from_f32_bits(f32::NEG_INFINITY.to_bits()), i32::MIN);
    assert_eq!(i32_from_f32_bits(1e12f32.to_bits()), i32::MAX);
}

#[test]
fn isqrt_values() {
    assert_eq!(isqrt(0), 0);
    assert_eq!(isqrt(1), 1);
    assert_eq!(isqrt(3), 1);
    assert_eq!(isqrt(4), 2);
    assert_eq!(isqrt(999_999), 999);
    assert_eq!(isqrt(1_000_000), 1000);
    assert_eq!(isqrt(u64::MAX), 0xFFFF_FFFF);
}
