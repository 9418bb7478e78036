//! Offline decoder for compressed game-replay files.
//!
//! The library peels a replay into compressed chunks and variable-width event
//! blocks, decodes movement-path packets, reads the trailing metadata
//! descriptor, loads patch bundles describing a build of the game binary, and
//! plans the memory layout for a CPU-emulator shim that re-runs the game's own
//! packet decoders.  An unverified front end performs file I/O and drives the
//! emulator; every decision and every byte-level computation lives here.

pub mod block;
pub mod chunk;
pub mod config;
pub mod emu;
pub mod jsonval;
pub mod metadata;
pub mod numeric;
pub mod packet;
pub mod parser;
pub mod report;
pub mod table;
pub mod util;

use vstd::prelude::*;

verus! {

/// Everything that can go wrong while decoding a replay or a patch bundle.
#[derive(Clone, Copy, Debug, PartialEq, Eq, Structural)]
pub enum ReplayError {
    /// The replay byte stream ended in the middle of a chunk header or payload.
    TruncatedChunk,
    /// A packet payload ended in the middle of a field.
    TruncatedBlock,
    /// The compressed payload of a chunk was rejected by the decompressor.
    ChunkDecompressError,
    /// The trailing metadata descriptor is malformed.
    MetadataParseError,
    /// The patch bundle is malformed: bad archive, bad JSON, or bad hex field.
    PatchConfigError,
    /// The emulator address-space plan could not be produced.
    EmulatorSetupError,
    /// One emulated decode produced no usable result.
    DecodeFailed,
    /// A movement packet declared zero waypoints.
    InvalidParseType,
}

impl ReplayError {
    /// A short human-readable label for the error.
    pub fn describe(&self) -> (r: &'static str)
        ensures
            r@.len() > 0,
    {
        proof {
            reveal_strlit("truncated chunk");
            reveal_strlit("truncated block");
            reveal_strlit("chunk decompression failed");
            reveal_strlit("metadata parse error");
            reveal_strlit("patch config error");
            reveal_strlit("emulator setup error");
            reveal_strlit("decode failed");
            reveal_strlit("invalid parsing type");
        }
        match self {
            ReplayError::TruncatedChunk => "truncated chunk",
            ReplayError::TruncatedBlock => "truncated block",
            ReplayError::ChunkDecompressError => "chunk decompression failed",
            ReplayError::MetadataParseError => "metadata parse error",
            ReplayError::PatchConfigError => "patch config error",
            ReplayError::EmulatorSetupError => "emulator setup error",
            ReplayError::DecodeFailed => "decode failed",
            ReplayError::InvalidParseType => "invalid parsing type",
        }
    }
}

} // verus!
