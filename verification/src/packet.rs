//! Decoded packets: ward spawns and movement paths.
//!
//! A movement packet carries a bit-packed waypoint stream: a count in the
//! parse type, an optional discard byte, a bit plane saying which axes of
//! the later waypoints are one-byte deltas, and the coordinate words.
//! Decoded coordinates are `value * 2 + bias` with the axis biases of the
//! game map.  Positions are interpolated along the waypoints at a fixed
//! speed; times are milliseconds and speeds whole units per second.

use vstd::prelude::*;
use crate::ReplayError;
use crate::numeric::{spec_speed_from_f32_bits, speed_from_f32_bits};
use crate::util::{le16_at, le32_at, parse_u16, parse_u32, sign_extend, spec_sign_extend};

verus! {

/// The x-axis bias of decoded waypoint coordinates.
pub const BIAS_X: i32 = 7358;

/// The y-axis bias of decoded waypoint coordinates.
pub const BIAS_Y: i32 = 7412;

/// A map position used as a correlation key.
#[derive(Debug, Clone, Copy, PartialEq, Eq, Structural)]
pub struct PosKey {
    pub x: i32,
    pub y: i32,
}

impl PosKey {
    /// Packs a coordinate pair into a key.
    pub fn new(x: i32, y: i32) -> (r: PosKey)
        ensures
            r.x == x && r.y == y,
    {
        PosKey { x, y }
    }

    /// A single integer carrying both coordinates, for keyed tables.
    pub fn as_u64(&self) -> (r: u64)
        ensures
            r == spec_pos_key_u64(self.x, self.y),
    {
        ((self.x as u32 as u64) << 32u64) | (self.y as u32 as u64)
    }
}

/// The packed form of a coordinate pair: x in the high half, y in the low.
pub open spec fn spec_pos_key_u64(x: i32, y: i32) -> u64 {
    ((x as u32 as u64) << 32u64) | (y as u32 as u64)
}

/// Packing a position into one key loses nothing: equal keys mean equal
/// positions.
pub proof fn lemma_pos_key_injective(x1: i32, y1: i32, x2: i32, y2: i32)
    requires
        spec_pos_key_u64(x1, y1) == spec_pos_key_u64(x2, y2),
    ensures
        x1 == x2 && y1 == y2,
{
    let a1: u64 = x1 as u32 as u64;
    let b1: u64 = y1 as u32 as u64;
    let a2: u64 = x2 as u32 as u64;
    let b2: u64 = y2 as u32 as u64;
    assert((a1 < 0x1_0000_0000 && b1 < 0x1_0000_0000 && a2 < 0x1_0000_0000 && b2
        < 0x1_0000_0000 && ((a1 << 32u64) | b1) == ((a2 << 32u64) | b2)) ==> (a1 == a2 && b1
        == b2)) by (bit_vector);
    assert(x1 as u32 == x2 as u32 && y1 as u32 == y2 as u32);
    assert((x1 as u32 == x2 as u32 ==> x1 == x2) && (y1 as u32 == y2 as u32 ==> y1 == y2))
        by (bit_vector);
}

/// One decoded ward-spawn event.
#[derive(Debug, Clone)]
pub struct WardSpawnPacket {
    pub timestamp_ms: u32,
    pub name: String,
    pub id: u32,
    pub owner_id: u32,
    pub x: i32,
    pub y: i32,
}

/// The mathematical image of a [`WardSpawnPacket`].
pub ghost struct WardSpawnSpec {
    pub timestamp_ms: u32,
    pub name: Seq<char>,
    pub id: u32,
    pub owner_id: u32,
    pub x: i32,
    pub y: i32,
}

impl View for WardSpawnPacket {
    type V = WardSpawnSpec;

    open spec fn view(&self) -> WardSpawnSpec {
        WardSpawnSpec {
            timestamp_ms: self.timestamp_ms,
            name: self.name@,
            id: self.id,
            owner_id: self.owner_id,
            x: self.x,
            y: self.y,
        }
    }
}

/// One decoded movement update: the entity's waypoints from `timestamp_ms`
/// on, walked at `speed` units per second.
#[derive(Debug, Clone)]
pub struct PathPacket {
    pub timestamp_ms: u32,
    pub id: u32,
    pub speed: u32,
    pub waypoints: Vec<(i32, i32)>,
}

/// The mathematical image of a [`PathPacket`].
pub ghost struct PathPacketSpec {
    pub timestamp_ms: u32,
    pub id: u32,
    pub speed: u32,
    pub waypoints: Seq<(i32, i32)>,
}

impl View for PathPacket {
    type V = PathPacketSpec;

    open spec fn view(&self) -> PathPacketSpec {
        PathPacketSpec {
            timestamp_ms: self.timestamp_ms,
            id: self.id,
            speed: self.speed,
            waypoints: self.waypoints@,
        }
    }
}

/// Decoded waypoint coordinates stay well inside this bound on both axes.
pub open spec fn wf_waypoints(ws: Seq<(i32, i32)>) -> bool {
    forall|i: int|
        0 <= i < ws.len() ==> -1000000 <= (#[trigger] ws[i]).0 <= 1000000 && -1000000 <= ws[i].1
            <= 1000000
}

/// The bit of the waypoint bit plane at index `k`, bits filling each byte
/// least-significant first; `None` when the byte lies past the payload.
pub open spec fn coord_bit(payload: Seq<u8>, bit_base: int, k: int) -> Option<bool>
    recommends
        0 <= k,
{
    let idx = bit_base + k / 8;
    if 0 <= idx < payload.len() {
        Some((payload[idx] >> ((k % 8) as u8)) & 1 == 1)
    } else {
        None
    }
}

/// Reads one axis: a one-byte delta added to the previous value when its
/// plane bit is set, else a fresh little-endian word.
pub open spec fn spec_axis_read(payload: Seq<u8>, pos: int, delta: bool, prev: u16) -> Option<
    (u16, int),
> {
    if delta {
        if 0 <= pos < payload.len() {
            Some((vstd::wrapping::u16_specs::wrapping_add(prev, payload[pos] as u16), pos + 1))
        } else {
            None
        }
    } else {
        if 0 <= pos && pos + 2 <= payload.len() {
            Some((le16_at(payload, pos), pos + 2))
        } else {
            None
        }
    }
}

/// Reads the two axes of waypoint `i`.  Waypoint 0 is always two fresh
/// words; later waypoints consult plane bits `2(i-1)` and `2(i-1)+1`.
pub open spec fn spec_waypoint_step(
    payload: Seq<u8>,
    bit_base: int,
    pos: int,
    i: nat,
    px: u16,
    py: u16,
) -> Option<(u16, u16, int)> {
    let bits = if i == 0 {
        Some((false, false))
    } else {
        let k = 2 * (i - 1);
        match (coord_bit(payload, bit_base, k), coord_bit(payload, bit_base, k + 1)) {
            (Some(bx), Some(by)) => Some((bx, by)),
            _ => None,
        }
    };
    match bits {
        None => None,
        Some((bx, by)) => match spec_axis_read(payload, pos, bx, px) {
            None => None,
            Some((x, p1)) => match spec_axis_read(payload, p1, by, py) {
                None => None,
                Some((y, p2)) => Some((x, y, p2)),
            },
        },
    }
}

/// Decodes waypoints `i .. n`, threading the previous coordinate pair for
/// delta decoding; `None` when any read runs past the payload.
pub open spec fn spec_decode_waypoints(
    payload: Seq<u8>,
    bit_base: int,
    pos: int,
    i: nat,
    n: nat,
    px: u16,
    py: u16,
) -> Option<(Seq<(u16, u16)>, int)>
    decreases n - i,
{
    if i >= n {
        Some((Seq::empty(), pos))
    } else {
        match spec_waypoint_step(payload, bit_base, pos, i, px, py) {
            None => None,
            Some((x, y, p2)) => match spec_decode_waypoints(payload, bit_base, p2, i + 1, n, x, y) {
                None => None,
                Some((rest, pend)) => Some((seq![(x, y)] + rest, pend)),
            },
        }
    }
}

/// One decoded coordinate: the word as a signed 16-bit value, doubled and
/// shifted by the axis bias.
pub open spec fn spec_waypoint_coord(c: u16, bias: int) -> i32 {
    (2 * spec_sign_extend(c as i16, 16) + bias) as i32
}

/// The outcome of decoding one movement payload.
pub ghost enum PathParse {
    /// The parse type declared zero waypoints.
    Invalid,
    /// A field ran past the end of the payload.
    Truncated,
    /// The decoded packet.
    Parsed(PathPacketSpec),
}

/// Decodes a movement payload: parse type, entity id, speed bits, an
/// optional discard byte, the waypoint count from the low byte of the parse
/// type, the bit-plane prefix, and the waypoints.
pub open spec fn spec_parse_path(timestamp_ms: u32, payload: Seq<u8>) -> PathParse {
    if payload.len() < 10 {
        PathParse::Truncated
    } else {
        let parse_type = le16_at(payload, 0);
        let ent_id = le32_at(payload, 2);
        let speed = spec_speed_from_f32_bits(le32_at(payload, 6));
        let pos0: int = if parse_type & 1 != 0 {
            11
        } else {
            10
        };
        if pos0 > payload.len() {
            PathParse::Truncated
        } else {
            let n = (parse_type >> 1u16) as nat;
            if n == 0 {
                PathParse::Invalid
            } else {
                let cpos: int = if n > 1 {
                    pos0 + (n - 2) as int / 4 + 1
                } else {
                    pos0
                };
                match spec_decode_waypoints(payload, pos0, cpos, 0, n, 0, 0) {
                    None => PathParse::Truncated,
                    Some((coords, pend)) => PathParse::Parsed(
                        PathPacketSpec {
                            timestamp_ms,
                            id: ent_id,
                            speed,
                            waypoints: coords.map_values(
                                |c: (u16, u16)|
                                    (
                                        spec_waypoint_coord(c.0, BIAS_X as int),
                                        spec_waypoint_coord(c.1, BIAS_Y as int),
                                    ),
                            ),
                        },
                    ),
                }
            }
        }
    }
}

impl PathPacket {
    /// Decodes one movement payload into a packet.
    #[verifier::loop_isolation(false)]
    #[verifier::rlimit(60)]
    pub fn parse(timestamp_ms: u32, payload: Vec<u8>) -> (r: Result<PathPacket, ReplayError>)
        ensures
            match spec_parse_path(timestamp_ms, payload@) {
                PathParse::Invalid => r matches Err(e) && e == ReplayError::InvalidParseType,
                PathParse::Truncated => r matches Err(e) && e == ReplayError::TruncatedBlock,
                PathParse::Parsed(p) => (r matches Ok(pkt) && pkt@ == p) && wf_waypoints(
                    p.waypoints,
                ),
            },
    {
        let mut pos: usize = 0;
        let parse_type: u16 = match parse_u16(payload.as_slice(), &mut pos) {
            Ok(v) => v,
            Err(_) => {
                return Err(ReplayError::TruncatedBlock);
            },
        };
        let ent_id: u32 = match parse_u32(payload.as_slice(), &mut pos) {
            Ok(v) => v,
            Err(_) => {
                return Err(ReplayError::TruncatedBlock);
            },
        };
        let speed_bits: u32 = match parse_u32(payload.as_slice(), &mut pos) {
            Ok(v) => v,
            Err(_) => {
                return Err(ReplayError::TruncatedBlock);
            },
        };
        let speed: u32 = speed_from_f32_bits(speed_bits);
        if parse_type & 1 != 0 {
            if pos >= payload.len() {
                return Err(ReplayError::TruncatedBlock);
            }
            pos = pos + 1;
        }
        let bit_base: usize = pos;
        let n: usize = (parse_type >> 1u16) as usize;
        if n == 0 {
            return Err(ReplayError::InvalidParseType);
        }
        proof {
            assert((parse_type >> 1u16) < 0x8000) by (bit_vector);
        }
        if n > 1 {
            let n2: usize = n - 2;
            proof {
                assert(n2 >> 2u32 == n2 / 4) by (bit_vector);
            }
            let nskip: usize = (n2 >> 2u32) + 1;
            pos = pos + nskip;
        }
        let ghost cpos0: int = pos as int;
        let ghost full = spec_decode_waypoints(payload@, bit_base as int, cpos0, 0, n as nat, 0, 0);

        let mut coords: Vec<(u16, u16)> = Vec::new();
        let mut px: u16 = 0;
        let mut py: u16 = 0;
        let mut i: usize = 0;
        while i < n
            invariant
                i <= n,
                n < 0x8000,
                bit_base <= payload@.len(),
                coords@.len() == i,
                full == match spec_decode_waypoints(
                    payload@,
                    bit_base as int,
                    pos as int,
                    i as nat,
                    n as nat,
                    px,
                    py,
                ) {
                    None => None::<(Seq<(u16, u16)>, int)>,
                    Some(t) => Some((coords@ + t.0, t.1)),
                },
            decreases n - i,
        {
            let ghost pos_in: int = pos as int;
            let ghost px_in = px;
            let ghost py_in = py;
            let bx: bool;
            let by: bool;
            if i == 0 {
                bx = false;
                by = false;
            } else {
                let k: usize = 2 * (i - 1);
                if k / 8 >= payload.len() - bit_base {
                    return Err(ReplayError::TruncatedBlock);
                }
                if (k + 1) / 8 >= payload.len() - bit_base {
                    return Err(ReplayError::TruncatedBlock);
                }
                let idx: usize = bit_base + k / 8;
                let idx2: usize = bit_base + (k + 1) / 8;
                bx = (payload[idx] >> ((k % 8) as u8)) & 1 == 1;
                by = (payload[idx2] >> (((k + 1) % 8) as u8)) & 1 == 1;
            }
            let x: u16 = if bx {
                if pos >= payload.len() {
                    return Err(ReplayError::TruncatedBlock);
                }
                let d: u8 = payload[pos];
                pos = pos + 1;
                px.wrapping_add(d as u16)
            } else {
                match parse_u16(payload.as_slice(), &mut pos) {
                    Ok(v) => v,
                    Err(_) => {
                        return Err(ReplayError::TruncatedBlock);
                    },
                }
            };
            let y: u16 = if by {
                if pos >= payload.len() {
                    return Err(ReplayError::TruncatedBlock);
                }
                let d: u8 = payload[pos];
                pos = pos + 1;
                py.wrapping_add(d as u16)
            } else {
                match parse_u16(payload.as_slice(), &mut pos) {
                    Ok(v) => v,
                    Err(_) => {
                        return Err(ReplayError::TruncatedBlock);
                    },
                }
            };
            proof {
                assert(spec_waypoint_step(
                    payload@,
                    bit_base as int,
                    pos_in,
                    i as nat,
                    px_in,
                    py_in,
                ) == Some((x, y, pos as int)));
            }
            let ghost coords_before = coords@;
            coords.push((x, y));
            proof {
                assert(coords@ =~= coords_before + seq![(x, y)]);
                match spec_decode_waypoints(
                    payload@,
                    bit_base as int,
                    pos as int,
                    (i + 1) as nat,
                    n as nat,
                    x,
                    y,
                ) {
                    None => {},
                    Some((rest, pend)) => {
                        assert(coords_before + (seq![(x, y)] + rest) =~= (coords_before + seq![
                            (x, y),
                        ]) + rest);
                    },
                }
            }
            px = x;
            py = y;
            i = i + 1;
        }

        let ghost coords_final = coords@;
        proof {
            assert(coords@ + Seq::<(u16, u16)>::empty() =~= coords@);
        }

        let mut waypoints: Vec<(i32, i32)> = Vec::new();
        let mut j: usize = 0;
        while j < coords.len()
            invariant
                j <= coords@.len(),
                coords@ == coords_final,
                waypoints@ == coords@.subrange(0, j as int).map_values(
                    |c: (u16, u16)|
                        (
                            spec_waypoint_coord(c.0, BIAS_X as int),
                            spec_waypoint_coord(c.1, BIAS_Y as int),
                        ),
                ),
                wf_waypoints(waypoints@),
            decreases coords@.len() - j,
        {
            let (cx, cy) = coords[j];
            let x: i32 = 2 * (sign_extend(cx as i16, 16) as i32) + BIAS_X;
            let y: i32 = 2 * (sign_extend(cy as i16, 16) as i32) + BIAS_Y;
            waypoints.push((x, y));
            proof {
                let f = |c: (u16, u16)|
                    (
                        spec_waypoint_coord(c.0, BIAS_X as int),
                        spec_waypoint_coord(c.1, BIAS_Y as int),
                    );
                assert(coords@.subrange(0, j as int).map_values(f).push(f(coords@[j as int]))
                    =~= coords@.subrange(0, j + 1).map_values(f));
            }
            j = j + 1;
        }
        proof {
            assert(coords@.subrange(0, coords@.len() as int) =~= coords@);
        }

        Ok(PathPacket { timestamp_ms, id: ent_id, speed, waypoints })
    }
}

/// The distance between two points in thousandths of a map unit, rounded
/// down.
pub open spec fn spec_dist_milli(a: (i32, i32), b: (i32, i32)) -> nat {
    let dx = a.0 as int - b.0 as int;
    let dy = a.1 as int - b.1 as int;
    crate::numeric::spec_isqrt(((dx * dx + dy * dy) * 1000000) as nat)
}

/// Computes the distance between two points in thousandths of a unit.
pub fn point_dist_milli(a: (i32, i32), b: (i32, i32)) -> (r: u64)
    requires
        -1000000 <= a.0 <= 1000000,
        -1000000 <= a.1 <= 1000000,
        -1000000 <= b.0 <= 1000000,
        -1000000 <= b.1 <= 1000000,
    ensures
        r == spec_dist_milli(a, b),
        r <= 3_000_000_000,
{
    let dx: i64 = a.0 as i64 - b.0 as i64;
    let dy: i64 = a.1 as i64 - b.1 as i64;
    proof {
        assert(dx * dx <= 4_000_000_000_000 && dx * dx >= 0) by (nonlinear_arith)
            requires
                -2000000 <= dx <= 2000000,
        ;
        assert(dy * dy <= 4_000_000_000_000 && dy * dy >= 0) by (nonlinear_arith)
            requires
                -2000000 <= dy <= 2000000,
        ;
    }
    let dd: i64 = dx * dx + dy * dy;
    let m: u64 = (dd as u64) * 1_000_000;
    let r = crate::numeric::isqrt(m);
    proof {
        assert(r <= 3_000_000_000) by (nonlinear_arith)
            requires
                r * r <= m && m <= 8_000_000_000_000_000_000,
        ;
    }
    r
}

/// Linear interpolation along one axis: `a` plus the fraction `rem / dt` of
/// the way toward `b`, rounded toward `a`; `a` itself when the segment
/// takes no time.
pub open spec fn spec_interp_axis(a: int, b: int, rem: nat, dt: nat) -> int {
    if dt == 0 {
        a
    } else {
        let mag = if b >= a {
            b - a
        } else {
            a - b
        };
        let off = (mag * rem) / dt as int;
        if b >= a {
            a + off
        } else {
            a - off
        }
    }
}

/// Interpolates one axis between two bounded coordinates.
fn interp_axis(a: i32, b: i32, rem: u64, dt: u64) -> (r: i32)
    requires
        rem <= dt,
        dt <= 0x1_0000_0000,
        -1000000 <= a <= 1000000,
        -1000000 <= b <= 1000000,
    ensures
        r as int == spec_interp_axis(a as int, b as int, rem as nat, dt as nat),
        -1000000 <= r <= 1000000,
{
    if dt == 0 {
        return a;
    }
    let diff: i64 = b as i64 - a as i64;
    let mag: u64 = if diff >= 0 {
        diff as u64
    } else {
        (-diff) as u64
    };
    proof {
        assert(mag * rem <= 2000000 * 0x1_0000_0000) by (nonlinear_arith)
            requires
                mag <= 2000000 && rem <= 0x1_0000_0000,
        ;
        vstd::arithmetic::mul::lemma_mul_inequality(rem as int, dt as int, mag as int);
        vstd::arithmetic::div_mod::lemma_div_is_ordered(
            (mag * rem) as int,
            (mag * dt) as int,
            dt as int,
        );
        vstd::arithmetic::div_mod::lemma_div_multiples_vanish(mag as int, dt as int);
        assert(rem * mag == mag * rem && dt * mag == mag * dt && dt * mag == mag as int
            * dt as int) by (nonlinear_arith);
    }
    let off: u64 = (mag * rem) / dt;
    if diff >= 0 {
        (a as i64 + off as i64) as i32
    } else {
        (a as i64 - off as i64) as i32
    }
}

/// Walks the waypoint chain: each segment costs its distance divided by the
/// speed in milliseconds; the position lies on the first segment the
/// remaining budget fits into, or at the last waypoint.
pub open spec fn spec_walk(ws: Seq<(i32, i32)>, speed: u32, rem: u64) -> (i32, i32)
    recommends
        speed >= 1,
    decreases ws.len(),
{
    if ws.len() == 0 {
        (0, 0)
    } else if ws.len() == 1 {
        ws[0]
    } else {
        let d = spec_dist_milli(ws[0], ws[1]);
        let dt = d / speed as nat;
        if rem <= dt {
            (
                spec_interp_axis(ws[0].0 as int, ws[1].0 as int, rem as nat, dt) as i32,
                spec_interp_axis(ws[0].1 as int, ws[1].1 as int, rem as nat, dt) as i32,
            )
        } else {
            spec_walk(ws.drop_first(), speed, (rem - dt) as u64)
        }
    }
}

/// The position of the packet's entity at `at_ms`: the origin for an empty
/// path, the sole waypoint for a path of one, the first waypoint within a
/// second of the packet (or for a stationary speed), else the walk of the
/// chain with the elapsed milliseconds.
pub open spec fn spec_get_pos(p: PathPacketSpec, at_ms: u32) -> (i32, i32) {
    if p.waypoints.len() == 0 {
        (0, 0)
    } else if p.waypoints.len() == 1 {
        p.waypoints[0]
    } else if at_ms <= p.timestamp_ms + 1000 {
        p.waypoints[0]
    } else if p.speed == 0 {
        p.waypoints[0]
    } else {
        spec_walk(p.waypoints, p.speed, (at_ms - p.timestamp_ms) as u64)
    }
}

/// The time the whole path takes, in milliseconds: the sum of segment
/// distances divided by the speed.
pub open spec fn spec_total_time(ws: Seq<(i32, i32)>, speed: u32) -> nat
    recommends
        speed >= 1,
    decreases ws.len(),
{
    if ws.len() <= 1 {
        0
    } else {
        spec_dist_milli(ws[0], ws[1]) / speed as nat + spec_total_time(ws.drop_first(), speed)
    }
}

impl PathPacket {
    /// The interpolated position of the entity at `at_ms` milliseconds.
    #[verifier::loop_isolation(false)]
    pub fn get_pos(&self, at_ms: u32) -> (r: (i32, i32))
        requires
            wf_waypoints(self.waypoints@),
        ensures
            r == spec_get_pos(self@, at_ms),
    {
        if self.waypoints.len() == 0 {
            return (0, 0);
        }
        if self.waypoints.len() == 1 {
            return self.waypoints[0];
        }
        if at_ms as u64 <= self.timestamp_ms as u64 + 1000 {
            return self.waypoints[0];
        }
        if self.speed == 0 {
            return self.waypoints[0];
        }
        let mut rem: u64 = (at_ms - self.timestamp_ms) as u64;
        let ghost ws = self.waypoints@;
        let ghost rem0 = rem;
        proof {
            assert(ws.skip(0) =~= ws);
        }
        let mut j: usize = 0;
        while j + 1 < self.waypoints.len()
            invariant
                j < ws.len(),
                spec_walk(ws.skip(j as int), self.speed, rem) == spec_walk(ws, self.speed, rem0),
            decreases ws.len() - j,
        {
            let a = self.waypoints[j];
            let b = self.waypoints[j + 1];
            let d: u64 = point_dist_milli(a, b);
            let dt: u64 = d / (self.speed as u64);
            proof {
                assert(ws.skip(j as int)[0] == ws[j as int]);
                assert(ws.skip(j as int)[1] == ws[j as int + 1]);
            }
            if rem <= dt {
                let x = interp_axis(a.0, b.0, rem, dt);
                let y = interp_axis(a.1, b.1, rem, dt);
                return (x, y);
            }
            rem = rem - dt;
            proof {
                assert(ws.skip(j as int).drop_first() =~= ws.skip(j as int + 1));
            }
            j = j + 1;
        }
        proof {
            assert(ws.skip(j as int).len() == 1);
            assert(ws.skip(j as int)[0] == ws[j as int]);
        }
        self.waypoints[j]
    }
}

/// Law: at its own timestamp a packet stands at its first waypoint.
pub proof fn lemma_get_pos_at_start(p: PathPacketSpec)
    requires
        p.waypoints.len() >= 1,
    ensures
        spec_get_pos(p, p.timestamp_ms) == p.waypoints[0],
{
}

/// Past the whole path the walk stands at the last waypoint.
proof fn lemma_walk_past_end(ws: Seq<(i32, i32)>, speed: u32, rem: u64)
    requires
        ws.len() >= 1,
        speed >= 1,
        rem > spec_total_time(ws, speed),
    ensures
        spec_walk(ws, speed, rem) == ws.last(),
    decreases ws.len(),
{
    if ws.len() == 1 {
    } else {
        let d = spec_dist_milli(ws[0], ws[1]);
        let dt = d / speed as nat;
        lemma_walk_past_end(ws.drop_first(), speed, (rem - dt) as u64);
        assert(ws.drop_first().last() == ws.last());
    }
}

/// Law: a query strictly past the packet's first second and strictly past
/// the path's total walking time lands on the last waypoint.  (A stationary
/// packet, speed zero, never leaves its first waypoint.)
pub proof fn lemma_get_pos_after_path(p: PathPacketSpec, at_ms: u32)
    requires
        p.waypoints.len() >= 1,
        p.speed >= 1,
        at_ms > p.timestamp_ms + 1000,
        at_ms - p.timestamp_ms > spec_total_time(p.waypoints, p.speed),
    ensures
        spec_get_pos(p, at_ms) == p.waypoints.last(),
{
    if p.waypoints.len() == 1 {
    } else {
        lemma_walk_past_end(p.waypoints, p.speed, (at_ms - p.timestamp_ms) as u64);
    }
}

} // verus!
