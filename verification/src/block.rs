//! Event blocks: the variable-width records inside a decompressed chunk.
//!
//! Each block starts with a one-byte marker whose bits select wide or narrow
//! encodings of the timestamp, length, packet id and parameter fields.
//! Timestamps are carried as milliseconds; a delta marker adds to the running
//! clock and an absolute marker replaces it with a decoded float value.

use vstd::prelude::*;
use crate::numeric::{ms_from_f32_bits, spec_ms_from_f32_bits};
use crate::util::{le16_at, le32_at, parse_u16, parse_u32, parse_u8, sat_add_u32, spec_sat_add_u32};
use vstd::slice::{slice_subrange, slice_to_vec};

verus! {

/// One event record: header fields plus the raw payload bytes.
#[derive(Debug)]
pub struct Block {
    pub length: u32,
    pub timestamp_ms: u32,
    pub packet_id: u16,
    pub param: u32,
    pub payload: Vec<u8>,
}

/// The mathematical image of a [`Block`].
pub ghost struct BlockSpec {
    pub length: u32,
    pub timestamp_ms: u32,
    pub packet_id: u16,
    pub param: u32,
    pub payload: Seq<u8>,
}

impl View for Block {
    type V = BlockSpec;

    open spec fn view(&self) -> BlockSpec {
        BlockSpec {
            length: self.length,
            timestamp_ms: self.timestamp_ms,
            packet_id: self.packet_id,
            param: self.param,
            payload: self.payload@,
        }
    }
}

impl Default for Block {
    /// An empty block: all header fields zero, no payload.
    fn default() -> (r: Block)
        ensures
            r.length == 0,
            r.timestamp_ms == 0,
            r.packet_id == 0,
            r.param == 0,
            r.payload@ == Seq::<u8>::empty(),
    {
        Block { length: 0, timestamp_ms: 0, packet_id: 0, param: 0, payload: Vec::new() }
    }
}

/// Parses one block at `pos`, returning the block, the position after it,
/// and the new accumulator state `(time, packet id, param)`.
///
/// Marker bits, with the narrow form on a clear bit:
/// `0x80` clear: one delta byte added to the running clock, set: a four-byte
/// float timestamp replaces it; `0x10` clear: one length byte, set: four;
/// `0x40` clear: the previous packet id is reused, set: two id bytes;
/// `0x20` clear: one param delta byte added to the previous param, set: four
/// param bytes.  Returns `None` exactly when any field would run past the
/// end: a mid-field underflow ends the stream silently, a clean stop.
pub open spec fn block_step(bytes: Seq<u8>, pos: int, acc: u32, pid: u16, par: u32) -> Option<
    (BlockSpec, int, u32, u16, u32),
> {
    if pos < 0 || pos >= bytes.len() {
        None
    } else {
        let marker = bytes[pos];
        let p1 = pos + 1;
        let tlen: int = if marker & 0x80 == 0 {
            1
        } else {
            4
        };
        if p1 + tlen > bytes.len() {
            None
        } else {
            let ts: u32 = if marker & 0x80 == 0 {
                spec_sat_add_u32(acc, bytes[p1] as u32)
            } else {
                spec_ms_from_f32_bits(le32_at(bytes, p1))
            };
            let p2 = p1 + tlen;
            let llen: int = if marker & 0x10 == 0 {
                1
            } else {
                4
            };
            if p2 + llen > bytes.len() {
                None
            } else {
                let length: u32 = if marker & 0x10 == 0 {
                    bytes[p2] as u32
                } else {
                    le32_at(bytes, p2)
                };
                let p3 = p2 + llen;
                let ilen: int = if marker & 0x40 == 0 {
                    0
                } else {
                    2
                };
                if p3 + ilen > bytes.len() {
                    None
                } else {
                    let packet_id: u16 = if marker & 0x40 == 0 {
                        pid
                    } else {
                        le16_at(bytes, p3)
                    };
                    let p4 = p3 + ilen;
                    let plen: int = if marker & 0x20 == 0 {
                        1
                    } else {
                        4
                    };
                    if p4 + plen > bytes.len() {
                        None
                    } else {
                        let param: u32 = if marker & 0x20 == 0 {
                            vstd::wrapping::u32_specs::wrapping_add(par, bytes[p4] as u32)
                        } else {
                            le32_at(bytes, p4)
                        };
                        let p5 = p4 + plen;
                        if p5 + length > bytes.len() {
                            None
                        } else {
                            Some(
                                (
                                    BlockSpec {
                                        length,
                                        timestamp_ms: ts,
                                        packet_id,
                                        param,
                                        payload: bytes.subrange(p5, p5 + length),
                                    },
                                    p5 + length,
                                    ts,
                                    packet_id,
                                    param,
                                ),
                            )
                        }
                    }
                }
            }
        }
    }
}

/// A successful step lands strictly past `pos` and inside the buffer.
pub proof fn lemma_block_step_bounds(bytes: Seq<u8>, pos: int, acc: u32, pid: u16, par: u32)
    ensures
        block_step(bytes, pos, acc, pid, par) matches Some(st) ==> pos < st.1 <= bytes.len(),
{
}

/// All blocks from `pos` to the end of the stream.
pub open spec fn parse_blocks(bytes: Seq<u8>, pos: int, acc: u32, pid: u16, par: u32) -> Seq<
    BlockSpec,
>
    decreases bytes.len() - pos,
    when 0 <= pos <= bytes.len()
    via parse_blocks_decreases
{
    match block_step(bytes, pos, acc, pid, par) {
        None => Seq::empty(),
        Some(st) => seq![st.0] + parse_blocks(bytes, st.1, st.2, st.3, st.4),
    }
}

#[via_fn]
proof fn parse_blocks_decreases(bytes: Seq<u8>, pos: int, acc: u32, pid: u16, par: u32) {
    lemma_block_step_bounds(bytes, pos, acc, pid, par);
}

/// Law: every block the parser emits carries exactly `length` payload bytes.
pub proof fn lemma_blocks_payload_len(bytes: Seq<u8>, pos: int, acc: u32, pid: u16, par: u32)
    requires
        0 <= pos <= bytes.len(),
    ensures
        forall|i: int|
            0 <= i < parse_blocks(bytes, pos, acc, pid, par).len() ==> (#[trigger] parse_blocks(
                bytes,
                pos,
                acc,
                pid,
                par,
            )[i]).payload.len() == parse_blocks(bytes, pos, acc, pid, par)[i].length,
    decreases bytes.len() - pos,
{
    match block_step(bytes, pos, acc, pid, par) {
        None => {},
        Some(st) => {
            lemma_block_step_bounds(bytes, pos, acc, pid, par);
            lemma_blocks_payload_len(bytes, st.1, st.2, st.3, st.4);
            assert(parse_blocks(bytes, pos, acc, pid, par) == seq![st.0] + parse_blocks(
                bytes,
                st.1,
                st.2,
                st.3,
                st.4,
            ));
        },
    }
}

/// The stream is well-timed from this state on: every block's timestamp is
/// at least the running clock when the block is read.  Delta markers satisfy
/// this by construction; it constrains only absolute timestamps.
pub open spec fn well_timed(bytes: Seq<u8>, pos: int, acc: u32, pid: u16, par: u32) -> bool
    decreases bytes.len() - pos,
    when 0 <= pos <= bytes.len()
    via well_timed_decreases
{
    match block_step(bytes, pos, acc, pid, par) {
        None => true,
        Some(st) => st.2 >= acc && well_timed(bytes, st.1, st.2, st.3, st.4),
    }
}

#[via_fn]
proof fn well_timed_decreases(bytes: Seq<u8>, pos: int, acc: u32, pid: u16, par: u32) {
    lemma_block_step_bounds(bytes, pos, acc, pid, par);
}

/// Law: in a well-timed stream the emitted timestamps never decrease, and
/// none falls below the running clock.
pub proof fn lemma_blocks_time_monotone(bytes: Seq<u8>, pos: int, acc: u32, pid: u16, par: u32)
    requires
        0 <= pos <= bytes.len(),
        well_timed(bytes, pos, acc, pid, par),
    ensures
        forall|i: int|
            0 <= i < parse_blocks(bytes, pos, acc, pid, par).len() ==> acc <= (
            #[trigger] parse_blocks(bytes, pos, acc, pid, par)[i]).timestamp_ms,
        forall|i: int, j: int|
            0 <= i <= j < parse_blocks(bytes, pos, acc, pid, par).len() ==> parse_blocks(
                bytes,
                pos,
                acc,
                pid,
                par,
            )[i].timestamp_ms <= parse_blocks(bytes, pos, acc, pid, par)[j].timestamp_ms,
    decreases bytes.len() - pos,
{
    match block_step(bytes, pos, acc, pid, par) {
        None => {},
        Some(st) => {
            lemma_block_step_bounds(bytes, pos, acc, pid, par);
            lemma_blocks_time_monotone(bytes, st.1, st.2, st.3, st.4);
            assert(parse_blocks(bytes, pos, acc, pid, par) == seq![st.0] + parse_blocks(
                bytes,
                st.1,
                st.2,
                st.3,
                st.4,
            ));
        },
    }
}

/// Whether one block fits the canonical wide encoding that `encode_block`
/// produces: the payload length matches the header and the timestamp lies
/// at most 255 ms past the previous one.
pub open spec fn block_encodable(b: BlockSpec, prev_ts: u32) -> bool {
    &&& b.payload.len() == b.length
    &&& prev_ts <= b.timestamp_ms
    &&& b.timestamp_ms - prev_ts <= 255
}

/// The canonical wide encoding of one block: marker `0x70` (delta
/// timestamp, four length bytes, explicit packet id, four param bytes)
/// followed by the fields and the payload.
pub open spec fn encode_block_spec(b: BlockSpec, prev_ts: u32) -> Seq<u8> {
    seq![0x70u8, (b.timestamp_ms - prev_ts) as u8] + vstd::bytes::spec_u32_to_le_bytes(b.length)
        + vstd::bytes::spec_u16_to_le_bytes(b.packet_id) + vstd::bytes::spec_u32_to_le_bytes(
        b.param,
    ) + b.payload
}

/// Whether a whole sequence of blocks fits the canonical encoding.
pub open spec fn blocks_encodable(s: Seq<BlockSpec>, prev_ts: u32) -> bool
    decreases s.len(),
{
    s.len() == 0 || (block_encodable(s[0], prev_ts) && blocks_encodable(
        s.drop_first(),
        s[0].timestamp_ms,
    ))
}

/// The canonical encoding of a sequence of blocks.
pub open spec fn encode_blocks_spec(s: Seq<BlockSpec>, prev_ts: u32) -> Seq<u8>
    decreases s.len(),
{
    if s.len() == 0 {
        Seq::empty()
    } else {
        encode_block_spec(s[0], prev_ts) + encode_blocks_spec(s.drop_first(), s[0].timestamp_ms)
    }
}

/// Encodes one block in the canonical wide form.
pub fn encode_block(b: &Block, prev_ts: u32) -> (r: Vec<u8>)
    requires
        block_encodable(b@, prev_ts),
    ensures
        r@ == encode_block_spec(b@, prev_ts),
{
    let mut out: Vec<u8> = Vec::new();
    out.push(0x70u8);
    out.push((b.timestamp_ms - prev_ts) as u8);
    let mut word = vstd::bytes::u32_to_le_bytes(b.length);
    out.append(&mut word);
    let mut idw = vstd::bytes::u16_to_le_bytes(b.packet_id);
    out.append(&mut idw);
    let mut parw = vstd::bytes::u32_to_le_bytes(b.param);
    out.append(&mut parw);
    let ghost head = out@;
    let mut i: usize = 0;
    while i < b.payload.len()
        invariant
            i <= b.payload@.len(),
            out@ == head + b.payload@.subrange(0, i as int),
        decreases b.payload@.len() - i,
    {
        out.push(b.payload[i]);
        proof {
            assert(head + b.payload@.subrange(0, i as int) + seq![b.payload@[i as int]] =~= head
                + b.payload@.subrange(0, i + 1));
        }
        i = i + 1;
    }
    proof {
        assert(b.payload@.subrange(0, b.payload@.len() as int) =~= b.payload@);
        assert(out@ =~= encode_block_spec(b@, prev_ts));
    }
    out
}

/// A block step is local: it reads nothing before its position, so parsing
/// a concatenation past the prefix acts on the suffix alone.
proof fn lemma_block_step_prefix(a: Seq<u8>, b: Seq<u8>, k: int, acc: u32, pid: u16, par: u32)
    requires
        0 <= k,
    ensures
        match block_step(b, k, acc, pid, par) {
            None => block_step(a + b, a.len() + k, acc, pid, par) is None,
            Some(st) => block_step(a + b, a.len() + k, acc, pid, par) == Some(
                (st.0, a.len() + st.1, st.2, st.3, st.4),
            ),
        },
{
    let ab = a + b;
    let al = a.len() as int;
    assert(ab.len() == al + b.len());
    if k < b.len() {
        let marker = b[k];
        assert(ab[al + k] == marker);
        let p1 = k + 1;
        let tlen: int = if marker & 0x80 == 0 {
            1
        } else {
            4
        };
        if p1 + tlen <= b.len() {
            if marker & 0x80 == 0 {
                assert(ab[al + p1] == b[p1]);
            } else {
                assert(ab.subrange(al + p1, al + p1 + 4) =~= b.subrange(p1, p1 + 4));
            }
            let p2 = p1 + tlen;
            let llen: int = if marker & 0x10 == 0 {
                1
            } else {
                4
            };
            if p2 + llen <= b.len() {
                if marker & 0x10 == 0 {
                    assert(ab[al + p2] == b[p2]);
                } else {
                    assert(ab.subrange(al + p2, al + p2 + 4) =~= b.subrange(p2, p2 + 4));
                }
                let p3 = p2 + llen;
                let ilen: int = if marker & 0x40 == 0 {
                    0
                } else {
                    2
                };
                if p3 + ilen <= b.len() {
                    if marker & 0x40 != 0 {
                        assert(ab.subrange(al + p3, al + p3 + 2) =~= b.subrange(p3, p3 + 2));
                    }
                    let p4 = p3 + ilen;
                    let plen: int = if marker & 0x20 == 0 {
                        1
                    } else {
                        4
                    };
                    if p4 + plen <= b.len() {
                        if marker & 0x20 == 0 {
                            assert(ab[al + p4] == b[p4]);
                        } else {
                            assert(ab.subrange(al + p4, al + p4 + 4) =~= b.subrange(p4, p4 + 4));
                        }
                        let p5 = p4 + plen;
                        let length: u32 = if marker & 0x10 == 0 {
                            b[p2] as u32
                        } else {
                            le32_at(b, p2)
                        };
                        if p5 + length <= b.len() {
                            assert(ab.subrange(al + p5, al + p5 + length) =~= b.subrange(
                                p5,
                                p5 + length,
                            ));
                        }
                    }
                }
            }
        }
    }
}

/// Parsing a concatenation from the start of the suffix yields exactly the
/// parse of the suffix.
proof fn lemma_parse_blocks_prefix(a: Seq<u8>, b: Seq<u8>, k: int, acc: u32, pid: u16, par: u32)
    requires
        0 <= k <= b.len(),
    ensures
        parse_blocks(a + b, a.len() + k, acc, pid, par) == parse_blocks(b, k, acc, pid, par),
    decreases b.len() - k,
{
    lemma_block_step_prefix(a, b, k, acc, pid, par);
    match block_step(b, k, acc, pid, par) {
        None => {},
        Some(st) => {
            lemma_block_step_bounds(b, k, acc, pid, par);
            lemma_parse_blocks_prefix(a, b, st.1, st.2, st.3, st.4);
        },
    }
}

/// Law: the parser inverts the canonical encoder.  A stream synthesised
/// from blocks whose payload lengths match their headers and whose
/// timestamps advance by at most 255 ms per block parses back to exactly
/// those blocks.
pub proof fn lemma_block_round_trip(s: Seq<BlockSpec>, prev_ts: u32, pid: u16, par: u32)
    requires
        blocks_encodable(s, prev_ts),
    ensures
        parse_blocks(encode_blocks_spec(s, prev_ts), 0, prev_ts, pid, par) == s,
    decreases s.len(),
{
    vstd::bytes::lemma_auto_spec_u32_to_from_le_bytes();
    vstd::bytes::lemma_auto_spec_u16_to_from_le_bytes();
    assert(0x70u8 & 0x80 == 0 && 0x70u8 & 0x10 != 0 && 0x70u8 & 0x40 != 0 && 0x70u8 & 0x20 != 0)
        by (bit_vector);
    if s.len() == 0 {
    } else {
        let b0 = s[0];
        let rest = s.drop_first();
        let head = encode_block_spec(b0, prev_ts);
        let tail = encode_blocks_spec(rest, b0.timestamp_ms);
        let enc = encode_blocks_spec(s, prev_ts);
        assert(enc == head + tail);
        let delta = (b0.timestamp_ms - prev_ts) as u8;
        assert(head.len() == 12 + b0.payload.len());
        assert(enc[0] == 0x70u8);
        assert(enc[1] == delta);
        assert(enc.subrange(2, 6) =~= vstd::bytes::spec_u32_to_le_bytes(b0.length));
        assert(enc.subrange(6, 8) =~= vstd::bytes::spec_u16_to_le_bytes(b0.packet_id));
        assert(enc.subrange(8, 12) =~= vstd::bytes::spec_u32_to_le_bytes(b0.param));
        assert(le32_at(enc, 2) == b0.length);
        assert(le16_at(enc, 6) == b0.packet_id);
        assert(le32_at(enc, 8) == b0.param);
        assert(enc.subrange(12, 12 + b0.length) =~= b0.payload);
        assert(spec_sat_add_u32(prev_ts, delta as u32) == b0.timestamp_ms);
        let st = block_step(enc, 0, prev_ts, pid, par);
        assert(st matches Some(t) && t == (
            b0,
            head.len() as int,
            b0.timestamp_ms,
            b0.packet_id,
            b0.param,
        ));
        lemma_parse_blocks_prefix(head, tail, 0, b0.timestamp_ms, b0.packet_id, b0.param);
        lemma_block_round_trip(rest, b0.timestamp_ms, b0.packet_id, b0.param);
        assert(parse_blocks(enc, 0, prev_ts, pid, par) == seq![b0] + rest);
        assert(seq![b0] + rest =~= s);
    }
}

/// Streaming parser over one decompressed chunk payload.
pub struct BlockParser {
    pub chunk: Vec<u8>,
    pub pos: usize,
    pub acc_time_ms: u32,
    pub previous_block_packet_id: u16,
    pub previous_block_param: u32,
}

impl BlockParser {
    /// The blocks this parser will emit from its current state.
    pub open spec fn remaining_blocks(&self) -> Seq<BlockSpec>
        recommends
            self.pos <= self.chunk@.len(),
    {
        parse_blocks(
            self.chunk@,
            self.pos as int,
            self.acc_time_ms,
            self.previous_block_packet_id,
            self.previous_block_param,
        )
    }

    /// Starts a parser at the beginning of a chunk payload, with the clock
    /// at zero and no previous packet id or parameter.
    pub fn new(chunk: Vec<u8>) -> (r: BlockParser)
        ensures
            r.chunk@ == chunk@,
            r.pos == 0,
            r.acc_time_ms == 0,
            r.previous_block_packet_id == 0,
            r.previous_block_param == 0,
    {
        BlockParser {
            chunk,
            pos: 0,
            acc_time_ms: 0,
            previous_block_packet_id: 0,
            previous_block_param: 0,
        }
    }

    /// Parses the next block, or returns `None` at the end of the stream,
    /// leaving the parser unchanged in that case.
    pub fn next_block(&mut self) -> (r: Option<Block>)
        ensures
            match block_step(
                old(self).chunk@,
                old(self).pos as int,
                old(self).acc_time_ms,
                old(self).previous_block_packet_id,
                old(self).previous_block_param,
            ) {
                None => r is None && *final(self) == *old(self),
                Some(st) => {
                    &&& r matches Some(b) && b@ == st.0
                    &&& final(self).chunk@ == old(self).chunk@
                    &&& final(self).pos == st.1
                    &&& final(self).acc_time_ms == st.2
                    &&& final(self).previous_block_packet_id == st.3
                    &&& final(self).previous_block_param == st.4
                },
            },
    {
        let bytes_len = self.chunk.len();
        let mut pos: usize = self.pos;
        let marker: u8 = match parse_u8(self.chunk.as_slice(), &mut pos) {
            Ok(b) => b,
            Err(_) => {
                return None;
            },
        };

        let ts: u32 = if marker & 0x80 == 0 {
            let d: u8 = match parse_u8(self.chunk.as_slice(), &mut pos) {
                Ok(b) => b,
                Err(_) => {
                    return None;
                },
            };
            sat_add_u32(self.acc_time_ms, d as u32)
        } else {
            let bits: u32 = match parse_u32(self.chunk.as_slice(), &mut pos) {
                Ok(v) => v,
                Err(_) => {
                    return None;
                },
            };
            ms_from_f32_bits(bits)
        };

        let length: u32 = if marker & 0x10 == 0 {
            match parse_u8(self.chunk.as_slice(), &mut pos) {
                Ok(b) => b as u32,
                Err(_) => {
                    return None;
                },
            }
        } else {
            match parse_u32(self.chunk.as_slice(), &mut pos) {
                Ok(v) => v,
                Err(_) => {
                    return None;
                },
            }
        };

        let packet_id: u16 = if marker & 0x40 == 0 {
            self.previous_block_packet_id
        } else {
            match parse_u16(self.chunk.as_slice(), &mut pos) {
                Ok(v) => v,
                Err(_) => {
                    return None;
                },
            }
        };

        let param: u32 = if marker & 0x20 == 0 {
            match parse_u8(self.chunk.as_slice(), &mut pos) {
                Ok(b) => self.previous_block_param.wrapping_add(b as u32),
                Err(_) => {
                    return None;
                },
            }
        } else {
            match parse_u32(self.chunk.as_slice(), &mut pos) {
                Ok(v) => v,
                Err(_) => {
                    return None;
                },
            }
        };

        if (length as usize) > bytes_len - pos {
            return None;
        }
        let payload: Vec<u8> = slice_to_vec(
            slice_subrange(self.chunk.as_slice(), pos, pos + length as usize),
        );
        pos = pos + length as usize;

        self.pos = pos;
        self.acc_time_ms = ts;
        self.previous_block_packet_id = packet_id;
        self.previous_block_param = param;

        Some(Block { length, timestamp_ms: ts, packet_id, param, payload })
    }
}

} // verus!
