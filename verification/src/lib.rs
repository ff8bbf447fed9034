//! Distributed world synchronization core for a peer-to-peer tile world.
//!
//! The world is split into fixed-size square chunks of pixels. At any moment
//! each chunk has at most one authoritative peer; a designated host arbitrates
//! who that is. This crate holds the per-chunk authority state machine, the
//! priority-based preemption protocol, the listener fan-out, the host-side
//! chunk storage, and the bulk terraforming operators, all with verified
//! contracts. Transport, persistence and the simulator itself stay outside.

pub mod coord_map;
pub mod coords;
pub mod durability;
pub mod explosion;
pub mod laws;
pub mod lifecycle;
pub mod local;
pub mod manager;
pub mod messages;
pub mod model;
pub mod peer_set;
pub mod pixel;
pub mod protocol;
pub mod state;
pub mod terraform;
pub mod util;

pub use coords::{ChunkCoord, PeerId, CHUNK_LEN, CHUNK_SIZE};
pub use pixel::{ChunkData, ChunkDelta, NoitaWorldUpdate, Pixel, PixelFlags, WorldUpdateKind};
