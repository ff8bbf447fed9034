//! The per-chunk state machine node kept by each peer.

use vstd::prelude::*;

use crate::coords::PeerId;
use crate::peer_set::PeerSet;

verus! {

/// What this peer is, or wants to be, for one chunk.
#[derive(Debug)]
pub enum ChunkState {
    /// The chunk is not synced yet; authority will be requested for it on
    /// the next liveness pass.
    RequestAuthority { priority: u8, can_wait: bool },
    /// A request went to the host; awaiting the response.
    WaitingForAuthority,
    /// Listening for chunk updates from `authority`.
    Listening { authority: PeerId, priority: u8 },
    /// Producing chunk updates for `listeners`; possibly about to hand off
    /// to `new_authority`.
    Authority {
        listeners: PeerSet,
        priority: u8,
        new_authority: Option<(PeerId, u8)>,
        /// Raised once the pending successor got its take-authority update;
        /// no further updates go out after that.
        stop_sending: bool,
    },
    /// Tombstone; the entry goes away at the end of the liveness pass.
    UnloadPending,
    /// Mid pull-transfer from the current authority.
    Transfer,
    /// This peer outranks the authority and has asked it to yield; still a
    /// listener meanwhile.
    WantToGetAuth { authority: PeerId, auth_priority: u8, my_priority: u8 },
}

impl ChunkState {
    pub open spec fn wf(&self) -> bool {
        match self {
            ChunkState::Authority { listeners, .. } => listeners.wf(),
            _ => true,
        }
    }

    /// A fresh authority node with no listeners and no pending hand-off.
    pub open spec fn is_fresh_authority(&self, priority: u8) -> bool {
        match self {
            ChunkState::Authority { listeners, priority: p, new_authority, stop_sending } => {
                &&& listeners@ == Seq::<PeerId>::empty()
                &&& *p == priority
                &&& new_authority is None
                &&& *stop_sending == false
            },
            _ => false,
        }
    }

    pub fn authority(priority: u8) -> (r: ChunkState)
        ensures
            r.is_fresh_authority(priority),
            r.wf(),
    {
        ChunkState::Authority {
            listeners: PeerSet::new(),
            priority,
            new_authority: None,
            stop_sending: false,
        }
    }
}

} // verus!
