//! Chunk-level parsing, validation and re-serialization of PNG containers.
use vstd::prelude::*;

pub mod bytes;
pub mod chunk;
pub mod crc;
pub mod error;
pub mod header;
pub mod laws;
pub mod png;

pub use chunk::PNGChunk;
pub use crc::CrcTable;
pub use error::{ChunkField, HeaderField, PngError};
pub use header::PNGInfo;
pub use png::{ChunkCursor, CrcMode, PngImage};

verus! {

} // verus!
