//! The replay-to-blocks pipeline: strip framing, walk chunks, parse every
//! block of every decompressed chunk whose kind is not 2.

use vstd::prelude::*;
use crate::ReplayError;
use crate::block::{parse_blocks, Block, BlockParser, BlockSpec};
use crate::chunk::{chunk_step, spec_strip_framing, ChunkParser, ChunkStep};
use vstd::slice::slice_to_vec;

verus! {

/// The outcome of harvesting every block of a replay.
pub ghost enum BlocksOutcome {
    /// The replay was rejected with this error.
    Failed(ReplayError),
    /// The blocks, in stream order.
    Blocks(Seq<BlockSpec>),
}

/// A chunk step that yields a chunk lands strictly past `pos` and inside
/// the buffer.
pub proof fn lemma_chunk_step_bounds(b: Seq<u8>, pos: int)
    ensures
        chunk_step(b, pos) matches ChunkStep::Next(c, p) ==> pos < p <= b.len(),
{
}

/// The blocks of every remaining chunk: decompressed chunks of kind other
/// than 2 contribute their parsed blocks, others nothing.
pub open spec fn spec_chunk_blocks(content: Seq<u8>, pos: int) -> BlocksOutcome
    decreases content.len() - pos,
    when 0 <= pos <= content.len()
    via spec_chunk_blocks_decreases
{
    match chunk_step(content, pos) {
        ChunkStep::Done => BlocksOutcome::Blocks(Seq::empty()),
        ChunkStep::Truncated => BlocksOutcome::Failed(ReplayError::TruncatedChunk),
        ChunkStep::BadPayload => BlocksOutcome::Failed(ReplayError::ChunkDecompressError),
        ChunkStep::Next(c, p2) => match spec_chunk_blocks(content, p2) {
            BlocksOutcome::Failed(e) => BlocksOutcome::Failed(e),
            BlocksOutcome::Blocks(rest) => BlocksOutcome::Blocks(
                (if c.type_ != 2 && c.payload is Some {
                    parse_blocks(c.payload.unwrap(), 0, 0, 0, 0)
                } else {
                    Seq::empty()
                }) + rest,
            ),
        },
    }
}

#[via_fn]
proof fn spec_chunk_blocks_decreases(content: Seq<u8>, pos: int) {
    lemma_chunk_step_bounds(content, pos);
}

/// Every block of a replay buffer, or the error that stopped the walk.
pub open spec fn spec_get_blocks(buffer: Seq<u8>) -> BlocksOutcome {
    match spec_strip_framing(buffer) {
        None => BlocksOutcome::Failed(ReplayError::TruncatedChunk),
        Some(content) => spec_chunk_blocks(content, 0),
    }
}

/// Harvests every block of a replay, in stream order.
#[verifier::loop_isolation(false)]
pub fn get_blocks(buffer: Vec<u8>) -> (r: Result<Vec<Block>, ReplayError>)
    ensures
        match spec_get_blocks(buffer@) {
            BlocksOutcome::Failed(e) => r matches Err(e2) && e2 == e,
            BlocksOutcome::Blocks(s) => r matches Ok(v) && v@.map_values(|b: Block| b@) == s,
        },
{
    let mut parser = match ChunkParser::new(buffer) {
        Ok(p) => p,
        Err(e) => {
            return Err(e);
        },
    };
    let ghost content = parser.replay_content@;
    let mut blocks: Vec<Block> = Vec::new();
    let mut done: bool = false;
    while !done
        invariant
            parser.replay_content@ == content,
            parser.cursor <= content.len() || done,
            spec_chunk_blocks(content, 0) == (if done {
                BlocksOutcome::Blocks(blocks@.map_values(|b: Block| b@))
            } else {
                match spec_chunk_blocks(content, parser.cursor as int) {
                    BlocksOutcome::Failed(e) => BlocksOutcome::Failed(e),
                    BlocksOutcome::Blocks(rest) => BlocksOutcome::Blocks(
                        blocks@.map_values(|b: Block| b@) + rest,
                    ),
                }
            }),
        decreases content.len() - parser.cursor, (if done {
            0int
        } else {
            1int
        }),
    {
        let ghost cursor0 = parser.cursor as int;
        match parser.next_chunk() {
            Err(e) => {
                return Err(e);
            },
            Ok(None) => {
                proof {
                    assert(blocks@.map_values(|b: Block| b@) + Seq::<BlockSpec>::empty()
                        =~= blocks@.map_values(|b: Block| b@));
                }
                done = true;
            },
            Ok(Some(chunk)) => {
                proof {
                    lemma_chunk_step_bounds(content, cursor0);
                }
                let ghost chunk_part: Seq<BlockSpec> = if chunk@.type_ != 2
                    && chunk@.payload is Some {
                    parse_blocks(chunk@.payload.unwrap(), 0, 0, 0, 0)
                } else {
                    Seq::empty()
                };
                let ghost blocks0 = blocks@.map_values(|b: Block| b@);
                if chunk.type_ != 2 {
                    match chunk.payload {
                        Some(payload) => {
                            let mut bp = BlockParser::new(payload);
                            let ghost pbytes = bp.chunk@;
                            let mut more: bool = true;
                            while more
                                invariant
                                    bp.chunk@ == pbytes,
                                    bp.pos <= pbytes.len() || !more,
                                    more ==> blocks0 + parse_blocks(pbytes, 0, 0, 0, 0)
                                        =~= blocks@.map_values(|b: Block| b@) + parse_blocks(
                                        pbytes,
                                        bp.pos as int,
                                        bp.acc_time_ms,
                                        bp.previous_block_packet_id,
                                        bp.previous_block_param,
                                    ),
                                    !more ==> blocks0 + parse_blocks(pbytes, 0, 0, 0, 0)
                                        =~= blocks@.map_values(|b: Block| b@),
                                decreases pbytes.len() - bp.pos, (if more {
                                    1int
                                } else {
                                    0int
                                }),
                            {
                                let ghost st0 = (
                                    bp.pos as int,
                                    bp.acc_time_ms,
                                    bp.previous_block_packet_id,
                                    bp.previous_block_param,
                                );
                                match bp.next_block() {
                                    Some(b) => {
                                        proof {
                                            crate::block::lemma_block_step_bounds(
                                                pbytes,
                                                st0.0,
                                                st0.1,
                                                st0.2,
                                                st0.3,
                                            );
                                        }
                                        let ghost old_map = blocks@.map_values(|b: Block| b@);
                                        blocks.push(b);
                                        proof {
                                            assert(blocks@.map_values(|bb: Block| bb@)
                                                =~= old_map + seq![b@]);
                                            assert((old_map + seq![b@]) + parse_blocks(
                                                pbytes,
                                                bp.pos as int,
                                                bp.acc_time_ms,
                                                bp.previous_block_packet_id,
                                                bp.previous_block_param,
                                            ) =~= old_map + (seq![b@] + parse_blocks(
                                                pbytes,
                                                bp.pos as int,
                                                bp.acc_time_ms,
                                                bp.previous_block_packet_id,
                                                bp.previous_block_param,
                                            )));
                                        }
                                    },
                                    None => {
                                        proof {
                                            assert(blocks@.map_values(|bb: Block| bb@)
                                                + Seq::<BlockSpec>::empty() =~= blocks@.map_values(
                                                |bb: Block| bb@,
                                            ));
                                        }
                                        more = false;
                                    },
                                }
                            }
                        },
                        None => {
                            proof {
                                assert(blocks0 + chunk_part =~= blocks0);
                            }
                        },
                    }
                } else {
                    proof {
                        assert(blocks0 + chunk_part =~= blocks0);
                    }
                }
                proof {
                    let bm = blocks@.map_values(|b: Block| b@);
                    match spec_chunk_blocks(content, parser.cursor as int) {
                        BlocksOutcome::Failed(e) => {},
                        BlocksOutcome::Blocks(rest) => {
                            assert((blocks0 + chunk_part) + rest =~= blocks0 + (chunk_part
                                + rest));
                        },
                    }
                }
            },
        }
    }
    Ok(blocks)
}

/// The `(timestamp, payload)` pairs of the blocks carrying packet id `id`,
/// in stream order.
pub open spec fn spec_blocks_with_id(s: Seq<BlockSpec>, id: u16) -> Seq<(u32, Seq<u8>)>
    decreases s.len(),
{
    if s.len() == 0 {
        Seq::empty()
    } else {
        let front = spec_blocks_with_id(s.drop_last(), id);
        if s.last().packet_id == id {
            front + seq![(s.last().timestamp_ms, s.last().payload)]
        } else {
            front
        }
    }
}

/// Copies a byte vector.
pub fn copy_bytes(v: &Vec<u8>) -> (r: Vec<u8>)
    ensures
        r@ == v@,
{
    slice_to_vec(v.as_slice())
}

/// Harvests the `(timestamp, payload)` pairs of every block carrying the
/// given packet id.
#[verifier::loop_isolation(false)]
pub fn get_blocks_with_id(replay_file: &[u8], id: u16) -> (r: Result<
    Vec<(u32, Vec<u8>)>,
    ReplayError,
>)
    ensures
        match spec_get_blocks(replay_file@) {
            BlocksOutcome::Failed(e) => r matches Err(e2) && e2 == e,
            BlocksOutcome::Blocks(s) => r matches Ok(v) && v@.map_values(
                |p: (u32, Vec<u8>)| (p.0, p.1@),
            ) == spec_blocks_with_id(s, id),
        },
{
    let buffer: Vec<u8> = slice_to_vec(replay_file);
    let blocks: Vec<Block> = match get_blocks(buffer) {
        Ok(v) => v,
        Err(e) => {
            return Err(e);
        },
    };
    let ghost s = blocks@.map_values(|b: Block| b@);
    let mut out: Vec<(u32, Vec<u8>)> = Vec::new();
    let mut i: usize = 0;
    while i < blocks.len()
        invariant
            i <= blocks@.len(),
            out@.map_values(|p: (u32, Vec<u8>)| (p.0, p.1@)) =~= spec_blocks_with_id(
                s.take(i as int),
                id,
            ),
        decreases blocks@.len() - i,
    {
        proof {
            assert(s.take(i as int + 1).drop_last() =~= s.take(i as int));
            assert(s.take(i as int + 1).last() == s[i as int]);
        }
        let ghost out0 = out@.map_values(|p: (u32, Vec<u8>)| (p.0, p.1@));
        if blocks[i].packet_id == id {
            let payload = copy_bytes(&blocks[i].payload);
            out.push((blocks[i].timestamp_ms, payload));
            proof {
                assert(out@.map_values(|p: (u32, Vec<u8>)| (p.0, p.1@)) =~= out0 + seq![
                    (s[i as int].timestamp_ms, s[i as int].payload),
                ]);
            }
        }
        i = i + 1;
    }
    proof {
        assert(s.take(s.len() as int) =~= s);
    }
    Ok(out)
}

} // verus!
