//! Tests for the chunk and block parsers and the replay framing.

use rofl_decode::block::{Block, BlockParser};
use rofl_decode::chunk::ChunkParser;
use rofl_decode::parser::{get_blocks, get_blocks_with_id};
use rofl_decode::ReplayError;

/// Wraps a chunked body in replay framing: 16 fixed header bytes, 13 more
/// header bytes, then the body, a 256-byte signature and an empty trailing
/// metadata descriptor with its four length bytes.
fn frame_replay(body: &[u8]) -> Vec<u8> {
    let mut buffer = vec![0u8; 29];
    buffer.extend_from_slice(body);
    buffer.extend_from_slice(&[0u8; 0x100]);
    buffer.extend_from_slice(&0u32.to_le_bytes());
    buffer
}

fn chunk_header(id: u32, kind: u8, id2: u32, unc: u32, comp: u32) -> Vec<u8> {
    let mut h = Vec::new();
    h.extend_from_slice(&id.to_le_bytes());
    h.push(kind);
    h.extend_from_slice(&id2.to_le_bytes());
    h.extend_from_slice(&unc.to_le_bytes());
    h.extend_from_slice(&comp.to_le_bytes());
    h
}

#[test]
fn empty_body_yields_zero_chunks() {
    let buffer = frame_replay(&[]);
    let mut parser = ChunkParser::new(buffer).unwrap();
    assert!(matches!(parser.next_chunk(), Ok(None)));
    // the report side of the same seed: no packets, no entries
    let blocks = get_blocks(frame_replay(&[])).unwrap();
    assert_eq!(blocks.len(), 0);
}

#[test]
fn placeholder_chunk_has_no_payload() {
    let mut body = chunk_header(7, 0, 9, 4, 0);
    body.extend_from_slice(&[1, 2, 3, 4]);
    let buffer = frame_replay(&body);
    let mut parser = ChunkParser::new(buffer).unwrap();
    let chunk = parser.next_chunk().unwrap().unwrap();
    assert_eq!(chunk.id, 7);
    assert_eq!(chunk.type_, 0);
    assert_eq!(chunk.id_2, 9);
    assert_eq!(chunk.uncompressed_len, 4);
    assert_eq!(chunk.compressed_len, 0);
    assert!(chunk.payload.is_none());
    assert!(matches!(parser.next_chunk(), Ok(None)));
    // the block parser is never invoked: the replay yields no blocks
    let blocks = get_blocks(frame_replay(&body)).unwrap();
    assert_eq!(blocks.len(), 0);
}

#[test]
fn truncated_chunk_header_is_rejected() {
    let body = vec![1u8, 2, 3];
    let buffer = frame_replay(&body);
    let mut parser = ChunkParser::new(buffer).unwrap();
    assert_eq!(parser.next_chunk().unwrap_err(), ReplayError::TruncatedChunk);
}

#[test]
fn too_short_replay_is_rejected() {
    assert_eq!(
        ChunkParser::new(vec![0u8; 8]).unwrap_err(),
        ReplayError::TruncatedChunk
    );
}

#[test]
fn bad_compressed_payload_is_rejected() {
    let mut body = chunk_header(1, 0, 1, 10, 4);
    body.extend_from_slice(&[0xDE, 0xAD, 0xBE, 0xEF]);
    let buffer = frame_replay(&body);
    let mut parser = ChunkParser::new(buffer).unwrap();
    assert_eq!(
        parser.next_chunk().unwrap_err(),
        ReplayError::ChunkDecompressError
    );
}

#[test]
fn narrow_block_fields_decode() {
    // marker 0x00: delta time, one length byte, previous packet id,
    // one param delta byte
    let payload = vec![0x00u8, 10, 2, 5, 0xAA, 0xBB];
    let mut parser = BlockParser::new(payload);
    let block = parser.next_block().unwrap();
    assert_eq!(block.timestamp_ms, 10);
    assert_eq!(block.length, 2);
    assert_eq!(block.packet_id, 0);
    assert_eq!(block.param, 5);
    assert_eq!(block.payload, vec![0xAA, 0xBB]);
    assert!(parser.next_block().is_none());
}

#[test]
fn absolute_timestamp_replaces_clock() {
    // marker 0x80: four float timestamp bytes (2.5 seconds), one length
    // byte, previous packet id, one param delta byte
    let mut payload = vec![0x80u8];
    payload.extend_from_slice(&2.5f32.to_bits().to_le_bytes());
    payload.extend_from_slice(&[0, 0]);
    let mut parser = BlockParser::new(payload);
    let block = parser.next_block().unwrap();
    assert_eq!(block.timestamp_ms, 2500);
    assert_eq!(block.length, 0);
}

#[test]
fn wide_block_fields_decode() {
    // marker 0x70: delta time, four length bytes, two packet id bytes,
    // four param bytes
    let mut payload = vec![0x70u8, 200];
    payload.extend_from_slice(&3u32.to_le_bytes());
    payload.extend_from_slice(&0x1234u16.to_le_bytes());
    payload.extend_from_slice(&0xCAFE_BABEu32.to_le_bytes());
    payload.extend_from_slice(&[9, 8, 7]);
    let mut parser = BlockParser::new(payload);
    let block = parser.next_block().unwrap();
    assert_eq!(block.timestamp_ms, 200);
    assert_eq!(block.length, 3);
    assert_eq!(block.packet_id, 0x1234);
    assert_eq!(block.param, 0xCAFE_BABE);
    assert_eq!(block.payload, vec![9, 8, 7]);
}

#[test]
fn truncated_block_ends_stream() {
    // length byte promises four payload bytes but only two follow
    let payload = vec![0x00u8, 10, 4, 5, 0xAA, 0xBB];
    let mut parser = BlockParser::new(payload);
    assert!(parser.next_block().is_none());
}

#[test]
fn delta_timestamps_never_decrease() {
    // three delta-timed blocks; each adds its delta byte to the clock
    let payload = vec![
        0x00u8, 50, 0, 0, // t = 50
        0x00, 0, 0, 0, // t = 50
        0x00, 200, 0, 0, // t = 250
    ];
    let mut parser = BlockParser::new(payload);
    let mut last = 0u32;
    let mut seen = 0;
    while let Some(block) = parser.next_block() {
        assert!(block.timestamp_ms >= last);
        last = block.timestamp_ms;
        seen += 1;
    }
    assert_eq!(seen, 3);
    assert_eq!(last, 250);
}

#[test]
fn block_round_trip() {
    let blocks = vec![
        Block {
            length: 3,
            timestamp_ms: 100,
            packet_id: 0x0110,
            param: 42,
            payload: vec![1, 2, 3],
        },
        Block {
            length: 0,
            timestamp_ms: 250,
            packet_id: 0x0042,
            param: 0xFFFF_FFFF,
            payload: vec![],
        },
        Block {
            length: 2,
            timestamp_ms: 250,
            packet_id: 0x0042,
            param: 7,
            payload: vec![0xEE, 0xFF],
        },
    ];
    let mut stream: Vec<u8> = Vec::new();
    let mut prev_ts = 0u32;
    for b in &blocks {
        stream.extend_from_slice(&rofl_decode::block::encode_block(b, prev_ts));
        prev_ts = b.timestamp_ms;
    }
    let mut parser = BlockParser::new(stream);
    for b in &blocks {
        let got = parser.next_block().unwrap();
        assert_eq!(got.length, b.length);
        assert_eq!(got.timestamp_ms, b.timestamp_ms);
        assert_eq!(got.packet_id, b.packet_id);
        assert_eq!(got.param, b.param);
        assert_eq!(got.payload, b.payload);
    }
    assert!(parser.next_block().is_none());
}

#[test]
fn compressed_chunk_blocks_are_harvested() {
    // one block, wide form, packet id 0x110, carried by a zstd chunk
    let block = Block {
        length: 2,
        timestamp_ms: 120,
        packet_id: 0x110,
        param: 1,
        payload: vec![0xAB, 0xCD],
    };
    let raw = rofl_decode::block::encode_block(&block, 0);
    let compressed = zstd::stream::encode_all(raw.as_slice(), 0).unwrap();
    let mut body = chunk_header(1, 1, 1, raw.len() as u32, compressed.len() as u32);
    body.extend_from_slice(&compressed);
    let buffer = frame_replay(&body);

    let blocks = get_blocks(buffer.clone()).unwrap();
    assert_eq!(blocks.len(), 1);
    assert_eq!(blocks[0].packet_id, 0x110);
    assert_eq!(blocks[0].payload, vec![0xAB, 0xCD]);

    let pairs = get_blocks_with_id(&buffer, 0x110).unwrap();
    assert_eq!(pairs.len(), 1);
    assert_eq!(pairs[0].0, 120);
    assert_eq!(pairs[0].1, vec![0xAB, 0xCD]);
    let none = get_blocks_with_id(&buffer, 0x111).unwrap();
    assert_eq!(none.len(), 0);
}

#[test]
fn kind_two_chunks_yield_no_blocks() {
    let block = Block {
        length: 0,
        timestamp_ms: 5,
        packet_id: 1,
        param: 0,
        payload: vec![],
    };
    let raw = rofl_decode::block::encode_block(&block, 0);
    let compressed = zstd::stream::encode_all(raw.as_slice(), 0).unwrap();
    let mut body = chunk_header(1, 2, 1, raw.len() as u32, compressed.len() as u32);
    body.extend_from_slice(&compressed);
    let blocks = get_blocks(frame_replay(&body)).unwrap();
    assert_eq!(blocks.len(), 0);
}
