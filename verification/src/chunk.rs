//! Chunks: the outer compressed containers of a replay file.
//!
//! A replay carries, after its header and before a trailing signature and
//! metadata descriptor, a sequence of chunks.  Each chunk has a 17-byte
//! little-endian header; a non-zero `compressed_len` announces that many
//! bytes of zstd-compressed payload, and a zero one a placeholder whose
//! `uncompressed_len` bytes are skipped.

use vstd::prelude::*;
use crate::ReplayError;
use crate::util::{le32_at, parse_u32, parse_u8};
use vstd::slice::{slice_subrange, slice_to_vec};

verus! {

/// What `zstd` decompression returns on the given frame bytes: `None` where
/// the decompressor rejects them.  Decompression is a function of the bytes
/// alone.
pub uninterp spec fn zstd_inflate(c: Seq<u8>) -> Option<Seq<u8>>;

/// Relies on `zstd::stream::decode_all`: decompresses one zstd frame held
/// in memory; the result depends on the input bytes alone.
#[verifier::external_body]
fn zstd_decompress(data: &[u8]) -> (r: Option<Vec<u8>>)
    ensures
        match r {
            Some(v) => zstd_inflate(data@) == Some(v@),
            None => zstd_inflate(data@) is None,
        },
{
    match zstd::stream::decode_all(data) {
        Ok(v) => Some(v),
        Err(_) => None,
    }
}

/// One chunk: its header fields, and the decompressed payload where the
/// chunk was compressed (`None` for a placeholder).
#[derive(Debug)]
pub struct Chunk {
    pub id: u32,
    pub type_: u8,
    pub id_2: u32,
    pub uncompressed_len: u32,
    pub compressed_len: u32,
    pub payload: Option<Vec<u8>>,
}

/// The mathematical image of a [`Chunk`].
pub ghost struct ChunkSpec {
    pub id: u32,
    pub type_: u8,
    pub id_2: u32,
    pub uncompressed_len: u32,
    pub compressed_len: u32,
    pub payload: Option<Seq<u8>>,
}

impl View for Chunk {
    type V = ChunkSpec;

    open spec fn view(&self) -> ChunkSpec {
        ChunkSpec {
            id: self.id,
            type_: self.type_,
            id_2: self.id_2,
            uncompressed_len: self.uncompressed_len,
            compressed_len: self.compressed_len,
            payload: match self.payload {
                Some(v) => Some(v@),
                None => None,
            },
        }
    }
}

/// Drops the outer replay header: 16 fixed bytes, then 12 more when the
/// byte at file offset `0x1C` is 1, else 13.  `None` when the buffer is too
/// short to hold the header.
pub open spec fn spec_skip_header(b: Seq<u8>) -> Option<Seq<u8>> {
    if b.len() < 0x1D {
        None
    } else if b[0x1C] == 1 {
        Some(b.subrange(0x1C, b.len() as int))
    } else {
        Some(b.subrange(0x1D, b.len() as int))
    }
}

/// Strips the framing of a whole replay: the trailing four length bytes and
/// the metadata descriptor they measure, the 256-byte signature before
/// them, and the outer header in front.  `None` when any part is missing.
pub open spec fn spec_strip_framing(b: Seq<u8>) -> Option<Seq<u8>> {
    if b.len() < 4 {
        None
    } else {
        let m = le32_at(b, b.len() - 4) as int;
        if b.len() - 4 - m < 0x100 {
            None
        } else {
            spec_skip_header(b.subrange(0, b.len() - 4 - m - 0x100))
        }
    }
}

/// The five header fields of the chunk at `pos`: id, kind, second id,
/// uncompressed length, compressed length.
pub open spec fn spec_chunk_header(b: Seq<u8>, pos: int) -> (u32, u8, u32, u32, u32)
    recommends
        0 <= pos,
        pos + 17 <= b.len(),
{
    (le32_at(b, pos), b[pos + 4], le32_at(b, pos + 5), le32_at(b, pos + 9), le32_at(b, pos + 13))
}

/// The outcome of reading one chunk at `pos`.
pub ghost enum ChunkStep {
    /// The cursor stands at the end: a clean stop.
    Done,
    /// The stream ends inside a header or payload.
    Truncated,
    /// The decompressor rejected a compressed payload.
    BadPayload,
    /// A chunk, and the position after it.
    Next(ChunkSpec, int),
}

/// Reads one chunk at `pos`: the header, then either a compressed payload
/// run through `zstd_inflate` or a skipped placeholder.
pub open spec fn chunk_step(b: Seq<u8>, pos: int) -> ChunkStep {
    if pos < 0 {
        ChunkStep::Truncated
    } else if pos >= b.len() {
        ChunkStep::Done
    } else if pos + 17 > b.len() {
        ChunkStep::Truncated
    } else {
        let h = spec_chunk_header(b, pos);
        let p1 = pos + 17;
        if h.4 != 0 {
            if p1 + h.4 > b.len() {
                ChunkStep::Truncated
            } else {
                match zstd_inflate(b.subrange(p1, p1 + h.4)) {
                    None => ChunkStep::BadPayload,
                    Some(pl) => ChunkStep::Next(
                        ChunkSpec {
                            id: h.0,
                            type_: h.1,
                            id_2: h.2,
                            uncompressed_len: h.3,
                            compressed_len: h.4,
                            payload: Some(pl),
                        },
                        p1 + h.4,
                    ),
                }
            }
        } else {
            if p1 + h.3 > b.len() {
                ChunkStep::Truncated
            } else {
                ChunkStep::Next(
                    ChunkSpec {
                        id: h.0,
                        type_: h.1,
                        id_2: h.2,
                        uncompressed_len: h.3,
                        compressed_len: h.4,
                        payload: None,
                    },
                    p1 + h.3,
                )
            }
        }
    }
}

/// Iterates the chunks of one replay whose framing has been stripped.
#[derive(Debug)]
pub struct ChunkParser {
    pub replay_content: Vec<u8>,
    pub cursor: usize,
}

impl ChunkParser {
    /// Strips the replay framing and positions a parser on the first chunk.
    /// Fails with `TruncatedChunk` when the buffer is too short for its own
    /// framing.
    pub fn new(buffer: Vec<u8>) -> (r: Result<ChunkParser, ReplayError>)
        ensures
            match spec_strip_framing(buffer@) {
                Some(c) => r matches Ok(p) && p.replay_content@ == c && p.cursor == 0,
                None => r matches Err(e) && e == ReplayError::TruncatedChunk,
            },
    {
        let len = buffer.len();
        if len < 4 {
            return Err(ReplayError::TruncatedChunk);
        }
        let mut pos: usize = len - 4;
        let metadata_len: u32 = match parse_u32(buffer.as_slice(), &mut pos) {
            Ok(v) => v,
            Err(_) => {
                return Err(ReplayError::TruncatedChunk);
            },
        };
        if metadata_len as u64 + 4 + 0x100 > len as u64 {
            return Err(ReplayError::TruncatedChunk);
        }
        let body_len: usize = len - 4 - metadata_len as usize - 0x100;
        let mut trimmed: Vec<u8> = slice_to_vec(slice_subrange(buffer.as_slice(), 0, body_len));
        match Self::skip_rofl_header_size(&mut trimmed) {
            Ok(_) => {},
            Err(e) => {
                return Err(e);
            },
        }
        Ok(ChunkParser { replay_content: trimmed, cursor: 0 })
    }

    /// Drops the outer replay header from the front of `buffer`, leaving it
    /// unchanged when it is too short.
    pub fn skip_rofl_header_size(buffer: &mut Vec<u8>) -> (r: Result<(), ReplayError>)
        ensures
            match spec_skip_header(old(buffer)@) {
                Some(c) => r is Ok && final(buffer)@ == c,
                None => (r matches Err(e) && e == ReplayError::TruncatedChunk) && final(buffer)@
                    == old(buffer)@,
            },
    {
        if buffer.len() < 0x1D {
            return Err(ReplayError::TruncatedChunk);
        }
        let start: usize = if buffer[0x1C] == 1 {
            0x1C
        } else {
            0x1D
        };
        let rest: Vec<u8> = slice_to_vec(slice_subrange(buffer.as_slice(), start, buffer.len()));
        *buffer = rest;
        Ok(())
    }

    /// Reads the 17-byte chunk header at the cursor and advances past it;
    /// fails with `TruncatedChunk`, leaving the parser unchanged, when
    /// fewer than 17 bytes remain.
    pub fn parse_chunk_header(&mut self) -> (r: Result<(u32, u8, u32, u32, u32), ReplayError>)
        ensures
            final(self).replay_content@ == old(self).replay_content@,
            r is Ok <==> old(self).cursor + 17 <= old(self).replay_content@.len(),
            r matches Ok(h) ==> h == spec_chunk_header(
                old(self).replay_content@,
                old(self).cursor as int,
            ) && final(self).cursor == old(self).cursor + 17,
            r is Err ==> (r matches Err(e) && e == ReplayError::TruncatedChunk) && *final(self)
                == *old(self),
    {
        let mut pos: usize = self.cursor;
        let id: u32 = match parse_u32(self.replay_content.as_slice(), &mut pos) {
            Ok(v) => v,
            Err(_) => {
                return Err(ReplayError::TruncatedChunk);
            },
        };
        let type_: u8 = match parse_u8(self.replay_content.as_slice(), &mut pos) {
            Ok(v) => v,
            Err(_) => {
                return Err(ReplayError::TruncatedChunk);
            },
        };
        let id_2: u32 = match parse_u32(self.replay_content.as_slice(), &mut pos) {
            Ok(v) => v,
            Err(_) => {
                return Err(ReplayError::TruncatedChunk);
            },
        };
        let uncompressed_len: u32 = match parse_u32(self.replay_content.as_slice(), &mut pos) {
            Ok(v) => v,
            Err(_) => {
                return Err(ReplayError::TruncatedChunk);
            },
        };
        let compressed_len: u32 = match parse_u32(self.replay_content.as_slice(), &mut pos) {
            Ok(v) => v,
            Err(_) => {
                return Err(ReplayError::TruncatedChunk);
            },
        };
        self.cursor = pos;
        Ok((id, type_, id_2, uncompressed_len, compressed_len))
    }

    /// Reads the next chunk.  `Ok(None)` at a clean end of the stream;
    /// `TruncatedChunk` when the bytes end mid-header or mid-payload;
    /// `ChunkDecompressError` when the decompressor rejects a payload.
    pub fn next_chunk(&mut self) -> (r: Result<Option<Chunk>, ReplayError>)
        ensures
            final(self).replay_content@ == old(self).replay_content@,
            match chunk_step(old(self).replay_content@, old(self).cursor as int) {
                ChunkStep::Done => r matches Ok(c) && c is None && *final(self) == *old(self),
                ChunkStep::Truncated => r matches Err(e) && e == ReplayError::TruncatedChunk,
                ChunkStep::BadPayload => r matches Err(e) && e
                    == ReplayError::ChunkDecompressError,
                ChunkStep::Next(c, p) => (r matches Ok(o) && o matches Some(ch) && ch@ == c)
                    && final(self).cursor == p,
            },
    {
        if self.cursor >= self.replay_content.len() {
            return Ok(None);
        }
        let (id, type_, id_2, uncompressed_len, compressed_len) = match self.parse_chunk_header() {
            Ok(h) => h,
            Err(e) => {
                return Err(e);
            },
        };

        let payload: Option<Vec<u8>> = if compressed_len != 0 {
            if (compressed_len as usize) > self.replay_content.len() - self.cursor {
                return Err(ReplayError::TruncatedChunk);
            }
            let compressed: &[u8] = slice_subrange(
                self.replay_content.as_slice(),
                self.cursor,
                self.cursor + compressed_len as usize,
            );
            let uncompressed: Vec<u8> = match zstd_decompress(compressed) {
                Some(v) => v,
                None => {
                    return Err(ReplayError::ChunkDecompressError);
                },
            };
            self.cursor = self.cursor + compressed_len as usize;
            Some(uncompressed)
        } else {
            if (uncompressed_len as usize) > self.replay_content.len() - self.cursor {
                return Err(ReplayError::TruncatedChunk);
            }
            self.cursor = self.cursor + uncompressed_len as usize;
            None
        };

        Ok(Some(Chunk { id, type_, id_2, uncompressed_len, compressed_len, payload }))
    }
}

} // verus!
