//! Chunk coordinates and peer identifiers.

use vstd::prelude::*;

verus! {

/// Width and height of a chunk, in pixels.
pub const CHUNK_SIZE: usize = 128;

/// Number of pixels in one chunk.
pub const CHUNK_LEN: usize = CHUNK_SIZE * CHUNK_SIZE;

/// Coordinate of a chunk; the chunk covers pixels
/// `[cx * CHUNK_SIZE, (cx + 1) * CHUNK_SIZE)` on each axis.
#[derive(Clone, Copy, PartialEq, Eq, Structural, Debug)]
pub struct ChunkCoord(pub i32, pub i32);

/// Opaque identifier of a peer; equality comparable and copyable.
#[derive(Clone, Copy, PartialEq, Eq, Structural, Debug)]
pub struct PeerId(pub u64);

} // verus!
