//! The closed wire vocabulary of the authority protocol, and the outbound
//! queue entry. Every message is delivered reliably and in order per
//! destination pair; the transport itself lives outside this crate.

use vstd::prelude::*;

use crate::coords::{ChunkCoord, PeerId};
use crate::peer_set::PeerSet;
use crate::pixel::{ChunkData, ChunkDelta, Pixel};

verus! {

/// Where an outbound message goes.
#[derive(Clone, Copy, PartialEq, Eq, Structural, Debug)]
pub enum Destination {
    Host,
    Peer(PeerId),
    Broadcast,
}

#[derive(Debug)]
pub enum WorldNetMessage {
    /// Any peer to host: I want authority over `chunk`.
    RequestAuthority { chunk: ChunkCoord, priority: u8, can_wait: bool },
    /// Departing authority to its planned successor: request authority now.
    AskForAuthority { chunk: ChunkCoord, priority: u8 },
    /// Listener to authority: I outrank you; plan to hand off to
    /// `new_authority` at `new_priority`.
    LoseAuthority { chunk: ChunkCoord, new_priority: u8, new_authority: PeerId },
    /// Authority to host: my priority changed.
    ChangePriority { chunk: ChunkCoord, priority: u8 },
    /// Host to requester: you are authority; here is the last known data if
    /// the owner changed.
    GotAuthority { chunk: ChunkCoord, chunk_data: Option<ChunkData>, priority: u8 },
    /// Departing authority to host: promote my data into host storage.
    RelinquishAuthority { chunk: ChunkCoord, chunk_data: Option<ChunkData>, world_num: i32 },
    /// Transferring authority to host: update the canonical snapshot.
    UpdateStorage { chunk: ChunkCoord, chunk_data: Option<ChunkData>, world_num: i32 },
    /// Host to requester: `authority` owns it; go listen.
    AuthorityAlreadyTaken { chunk: ChunkCoord, authority: PeerId },
    /// Peer to authority: subscribe me.
    ListenRequest { chunk: ChunkCoord },
    /// Peer to authority: unsubscribe me.
    ListenStopRequest { chunk: ChunkCoord },
    /// Non-authority to a would-be listener: please unload.
    UnloadChunk { chunk: ChunkCoord },
    /// Authority to new listener: you are subscribed; here is the content.
    ListenInitialResponse { chunk: ChunkCoord, chunk_data: Option<ChunkData>, priority: u8 },
    /// Authority to one listener: apply this delta; with `take_auth`, you are
    /// the next authority.
    ListenUpdate { delta: ChunkDelta, priority: u8, take_auth: bool },
    /// Batched deltas without any authority change.
    ChunkPacket { chunkpacket: Vec<(ChunkDelta, u8)> },
    /// Host to all: the owner gave up; listeners should unload.
    ListenAuthorityRelinquished { chunk: ChunkCoord },
    /// Host to new owner: pull the chunk from `current_authority`.
    GetAuthorityFrom { chunk: ChunkCoord, current_authority: PeerId },
    /// New owner to current: send me your state.
    RequestAuthorityTransfer { chunk: ChunkCoord },
    /// Current owner to new: here is my state and my listener set.
    TransferOk { chunk: ChunkCoord, chunk_data: Option<ChunkData>, listeners: PeerSet },
    /// Current owner to new: I no longer own it; fall back.
    TransferFailed { chunk: ChunkCoord },
    /// New owner to former listeners: listen to me now.
    NotifyNewAuthority { chunk: ChunkCoord },
}

/// The view of an optional chunk snapshot.
pub open spec fn opt_data_view(d: Option<ChunkData>) -> Option<Seq<Pixel>> {
    match d {
        Some(data) => Some(data@),
        None => None,
    }
}

impl WorldNetMessage {
    /// Every payload the message carries is well formed.
    pub open spec fn wf(&self) -> bool {
        match self {
            WorldNetMessage::GotAuthority { chunk_data, .. } => match chunk_data {
                Some(d) => d.wf(),
                None => true,
            },
            WorldNetMessage::RelinquishAuthority { chunk_data, .. } => match chunk_data {
                Some(d) => d.wf(),
                None => true,
            },
            WorldNetMessage::UpdateStorage { chunk_data, .. } => match chunk_data {
                Some(d) => d.wf(),
                None => true,
            },
            WorldNetMessage::ListenInitialResponse { chunk_data, .. } => match chunk_data {
                Some(d) => d.wf(),
                None => true,
            },
            WorldNetMessage::ListenUpdate { delta, .. } => delta.wf(),
            WorldNetMessage::ChunkPacket { chunkpacket } => forall|i: int|
                0 <= i < chunkpacket@.len() ==> (#[trigger] chunkpacket@[i]).0.wf(),
            WorldNetMessage::TransferOk { chunk_data, listeners, .. } => {
                &&& match chunk_data {
                    Some(d) => d.wf(),
                    None => true,
                }
                &&& listeners.wf()
            },
            _ => true,
        }
    }
}

/// One queued outbound message. The transport sends every entry reliably.
#[derive(Debug)]
pub struct MessageRequest {
    pub dst: Destination,
    pub msg: WorldNetMessage,
}

} // verus!
