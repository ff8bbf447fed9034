//! The synchronization core of one peer: its models, its per-chunk states,
//! and — on the host — the authority table and canonical chunk storage.

use vstd::prelude::*;

use crate::coord_map::{entries_distinct, map_of, CoordMap};
use crate::coords::{ChunkCoord, PeerId, CHUNK_LEN};
use crate::durability::DurabilityMap;
use crate::messages::MessageRequest;
use crate::model::{delta_writes, WorldModel};
use crate::pixel::{ChunkData, NoitaWorldUpdate};
use crate::state::ChunkState;

verus! {

/// One marker per live chunk, for a debug overlay. Pixel position plus the
/// local role; `priority` is what the host records for the chunk, where
/// this peer is the host and has an entry.
#[derive(Debug)]
pub struct DebugMarker {
    pub x: i64,
    pub y: i64,
    pub message: &'static str,
    pub priority: Option<u8>,
}

/// The short role tag a chunk state shows in the overlay.
pub open spec fn state_tag(s: ChunkState) -> Seq<char> {
    match s {
        ChunkState::RequestAuthority { .. } => "req auth"@,
        ChunkState::WaitingForAuthority => "wai auth"@,
        ChunkState::Listening { .. } => "list"@,
        ChunkState::Authority { .. } => "auth"@,
        ChunkState::UnloadPending => "unl"@,
        ChunkState::Transfer => "tran"@,
        ChunkState::WantToGetAuth { .. } => "want auth"@,
    }
}

#[derive(Debug)]
pub struct WorldManager {
    /// Whether terraform operators also edit the local models on non-hosts,
    /// so the simulator sees the effect before the authority's data arrives.
    pub nice_terraforming: bool,
    /// Fixed at construction; exactly one peer is the host.
    pub is_host: bool,
    /// Player position, in chunks.
    pub my_pos: (i32, i32),
    /// Camera position, in chunks.
    pub cam_pos: (i32, i32),
    pub is_notplayer: bool,
    pub my_peer_id: PeerId,
    /// Changes received from other peers, awaiting replay into the simulator.
    pub inbound_model: WorldModel,
    /// Changes produced by the local simulator, to be sent to other peers.
    pub outbound_model: WorldModel,
    /// Host only: chunks currently under no authority.
    pub chunk_storage: CoordMap<ChunkData>,
    /// Host only: who holds each chunk, and at what priority.
    pub authority_map: CoordMap<(PeerId, u8)>,
    /// The local per-chunk state machine nodes.
    pub chunk_state: CoordMap<ChunkState>,
    /// Outbound queue, drained by the transport.
    pub emitted_messages: Vec<MessageRequest>,
    /// Incremented once per simulator end-of-frame call.
    pub current_update: u64,
    /// The update counter at which each chunk last saw local activity.
    pub chunk_last_update: CoordMap<u64>,
    /// The priority of the most recent local authority request, so a failed
    /// transfer can re-request at the same priority.
    pub last_request_priority: CoordMap<u8>,
    /// World generation marker; a mismatch resets everything.
    pub world_num: i32,
    /// Material id to (minimum hardness tier, energy cost per pixel), for
    /// explosion rays.
    pub durabilities: DurabilityMap,
}

/// The configuration and counters no message handler touches.
pub open spec fn same_config(pre: WorldManager, post: WorldManager) -> bool {
    &&& post.nice_terraforming == pre.nice_terraforming
    &&& post.is_host == pre.is_host
    &&& post.my_pos == pre.my_pos
    &&& post.cam_pos == pre.cam_pos
    &&& post.is_notplayer == pre.is_notplayer
    &&& post.my_peer_id == pre.my_peer_id
    &&& post.current_update == pre.current_update
    &&& post.world_num == pre.world_num
    &&& post.durabilities == pre.durabilities
}

impl WorldManager {
    pub open spec fn wf(&self) -> bool {
        &&& self.inbound_model.wf()
        &&& self.outbound_model.wf()
        &&& self.chunk_storage.wf()
        &&& forall|c: ChunkCoord|
            self.chunk_storage@.dom().contains(c) ==> (#[trigger] self.chunk_storage@[c]).wf()
        &&& self.authority_map.wf()
        &&& self.chunk_state.wf()
        &&& forall|c: ChunkCoord|
            self.chunk_state@.dom().contains(c) ==> (#[trigger] self.chunk_state@[c]).wf()
        &&& self.chunk_last_update.wf()
        &&& self.last_request_priority.wf()
    }

    /// A fresh manager. `initial_storage` seeds the host's chunk storage
    /// from persistence; entries whose data has the wrong length are
    /// dropped, so any input is safe.
    pub fn new(is_host: bool, my_peer_id: PeerId, initial_storage: Vec<(ChunkCoord, ChunkData)>) -> (r:
        WorldManager)
        ensures
            r.wf(),
            r.nice_terraforming == true,
            r.is_host == is_host,
            r.my_peer_id == my_peer_id,
            r.current_update == 0,
            r.world_num == 0,
            r.my_pos.0 == i32::MIN / 2 && r.my_pos.1 == i32::MIN / 2,
            r.cam_pos.0 == i32::MIN / 2 && r.cam_pos.1 == i32::MIN / 2,
            r.is_notplayer == false,
            forall|m: u16| crate::durability::dur_lookup(r.durabilities@, m) is None,
            r.authority_map@ == Map::<ChunkCoord, (PeerId, u8)>::empty(),
            r.chunk_state@ == Map::<ChunkCoord, ChunkState>::empty(),
            r.chunk_last_update@ == Map::<ChunkCoord, u64>::empty(),
            r.last_request_priority@ == Map::<ChunkCoord, u8>::empty(),
            r.emitted_messages@ == Seq::<MessageRequest>::empty(),
            r.inbound_model.contents() == Map::<ChunkCoord, Seq<crate::pixel::Pixel>>::empty(),
            r.outbound_model.contents() == Map::<ChunkCoord, Seq<crate::pixel::Pixel>>::empty(),
            (entries_distinct(initial_storage@) && (forall|i: int|
                0 <= i < initial_storage@.len() ==> (#[trigger] initial_storage@[i]).1.wf()))
                ==> r.chunk_storage@ == map_of(initial_storage@),
    {
        let mut chunk_storage: CoordMap<ChunkData> = CoordMap::new();
        let n = initial_storage.len();
        let ghost all_ok = entries_distinct(initial_storage@) && (forall|i: int|
            0 <= i < initial_storage@.len() ==> (#[trigger] initial_storage@[i]).1.wf());
        let mut storage_iter = initial_storage;
        let ghost orig = storage_iter@;
        let mut i: usize = 0;
        proof {
            assert(storage_iter@ =~= orig.skip(0));
            assert(chunk_storage@ =~= map_of(orig.take(0)));
        }
        while i < n
            invariant
                storage_iter@ == orig.skip(i as int),
                n == orig.len(),
                i <= n,
                chunk_storage.wf(),
                forall|c: ChunkCoord|
                    chunk_storage@.dom().contains(c) ==> (#[trigger] chunk_storage@[c]).wf(),
                all_ok == (entries_distinct(orig) && (forall|j: int|
                    0 <= j < orig.len() ==> (#[trigger] orig[j]).1.wf())),
                all_ok ==> chunk_storage@ == map_of(orig.take(i as int)),
            decreases n - i,
        {
            let (c, d) = storage_iter.remove(0);
            proof {
                assert(orig.skip(i as int)[0] == orig[i as int]);
                assert(orig.skip(i as int).remove(0) =~= orig.skip(i + 1));
            }
            if d.pixels.len() == CHUNK_LEN {
                chunk_storage.insert(c, d);
            }
            proof {
                if all_ok {
                    assert(orig[i as int].1.wf());
                    assert(orig.take(i + 1).drop_last() =~= orig.take(i as int));
                    assert(orig.take(i + 1).last() == orig[i as int]);
                }
            }
            i += 1;
        }
        proof {
            if all_ok {
                assert(orig.take(n as int) =~= orig);
            }
        }
        let r = WorldManager {
            nice_terraforming: true,
            is_host,
            my_pos: (i32::MIN / 2, i32::MIN / 2),
            cam_pos: (i32::MIN / 2, i32::MIN / 2),
            is_notplayer: false,
            my_peer_id,
            inbound_model: WorldModel::new(),
            outbound_model: WorldModel::new(),
            chunk_storage,
            authority_map: CoordMap::new(),
            chunk_state: CoordMap::new(),
            emitted_messages: Vec::new(),
            current_update: 0,
            chunk_last_update: CoordMap::new(),
            last_request_priority: CoordMap::new(),
            world_num: 0,
            durabilities: DurabilityMap::new(),
        };
        proof {
            assert(r.emitted_messages@ =~= Seq::<MessageRequest>::empty());
        }
        r
    }

    /// Fold one simulator-produced edit into the outbound model.
    pub fn add_update(&mut self, update: NoitaWorldUpdate)
        requires
            old(self).wf(),
            update.wf(),
        ensures
            final(self).wf(),
            same_config(*old(self), *final(self)),
            final(self).outbound_model.contents() == old(self).outbound_model.contents().insert(
                update.coord,
                crate::pixel::apply_writes(
                    old(self).outbound_model.base_pixels(update.coord),
                    update.writes@,
                ),
            ),
            final(self).inbound_model == old(self).inbound_model,
            final(self).chunk_storage == old(self).chunk_storage,
            final(self).authority_map == old(self).authority_map,
            final(self).chunk_state == old(self).chunk_state,
            final(self).emitted_messages == old(self).emitted_messages,
            final(self).chunk_last_update == old(self).chunk_last_update,
            final(self).last_request_priority == old(self).last_request_priority,
    {
        self.outbound_model.apply_noita_update(&update);
    }

    /// Drain the inbound model back to the simulator: one update per dirty
    /// chunk, then reset the change tracking.
    pub fn get_noita_updates(&mut self) -> (r: Vec<NoitaWorldUpdate>)
        requires
            old(self).wf(),
        ensures
            final(self).wf(),
            same_config(*old(self), *final(self)),
            r@.len() == old(self).inbound_model.dirty@.len(),
            forall|i: int|
                0 <= i < r@.len() ==> {
                    &&& (#[trigger] r@[i]).coord == old(self).inbound_model.dirty@[i]
                    &&& r@[i].writes@ == delta_writes(
                        old(self).inbound_model.contents()[old(self).inbound_model.dirty@[i]],
                        old(self).inbound_model.chunk_changed(old(self).inbound_model.dirty@[i]),
                        CHUNK_LEN as int,
                    )
                },
            final(self).inbound_model.contents() == old(self).inbound_model.contents(),
            final(self).inbound_model.dirty@ == Seq::<ChunkCoord>::empty(),
            final(self).outbound_model == old(self).outbound_model,
            final(self).chunk_storage == old(self).chunk_storage,
            final(self).authority_map == old(self).authority_map,
            final(self).chunk_state == old(self).chunk_state,
            final(self).emitted_messages == old(self).emitted_messages,
            final(self).chunk_last_update == old(self).chunk_last_update,
            final(self).last_request_priority == old(self).last_request_priority,
    {
        let r = self.inbound_model.all_updates();
        self.inbound_model.reset_change_tracking();
        r
    }

    /// Forget the whole world: both models, the storage, the authority map,
    /// the activity counters and every chunk state.
    pub fn reset(&mut self)
        requires
            old(self).wf(),
        ensures
            final(self).inbound_model.contents() == Map::<ChunkCoord, Seq<crate::pixel::Pixel>>::empty(),
            final(self).outbound_model.contents() == Map::<ChunkCoord, Seq<crate::pixel::Pixel>>::empty(),
            final(self).chunk_storage@ == Map::<ChunkCoord, ChunkData>::empty(),
            final(self).authority_map@ == Map::<ChunkCoord, (PeerId, u8)>::empty(),
            final(self).chunk_last_update@ == Map::<ChunkCoord, u64>::empty(),
            final(self).chunk_state@ == Map::<ChunkCoord, ChunkState>::empty(),
            final(self).wf(),
            same_config(*old(self), *final(self)),
            final(self).emitted_messages == old(self).emitted_messages,
            final(self).last_request_priority == old(self).last_request_priority,
    {
        self.inbound_model.reset();
        self.outbound_model.reset();
        self.chunk_storage.clear();
        self.authority_map.clear();
        self.chunk_last_update.clear();
        self.chunk_state.clear();
    }

    /// Hand the queued outbound messages to the transport.
    pub fn get_emitted_msgs(&mut self) -> (r: Vec<MessageRequest>)
        ensures
            r@ == old(self).emitted_messages@,
            final(self).emitted_messages@ == Seq::<MessageRequest>::empty(),
            final(self).inbound_model == old(self).inbound_model,
            final(self).outbound_model == old(self).outbound_model,
            final(self).chunk_storage == old(self).chunk_storage,
            final(self).authority_map == old(self).authority_map,
            final(self).chunk_state == old(self).chunk_state,
            final(self).chunk_last_update == old(self).chunk_last_update,
            final(self).last_request_priority == old(self).last_request_priority,
            same_config(*old(self), *final(self)),
            old(self).wf() ==> final(self).wf(),
    {
        let mut out: Vec<MessageRequest> = Vec::new();
        core::mem::swap(&mut out, &mut self.emitted_messages);
        proof {
            assert(final(self).emitted_messages@ =~= Seq::<MessageRequest>::empty());
        }
        out
    }

    /// One marker per live chunk, at its pixel position, with its role tag
    /// and — where this peer records one — the chunk's priority.
    pub fn get_debug_markers(&self) -> (r: Vec<DebugMarker>)
        requires
            self.wf(),
        ensures
            r@.len() == self.chunk_state.key_seq().len(),
            forall|i: int|
                0 <= i < r@.len() ==> {
                    let c = self.chunk_state.key_seq()[i];
                    &&& (#[trigger] r@[i]).x == c.0 as i64 * 128
                    &&& r@[i].y == c.1 as i64 * 128
                    &&& r@[i].message@ == state_tag(self.chunk_state@[c])
                    &&& r@[i].priority == (if self.authority_map@.dom().contains(c) {
                        Some(self.authority_map@[c].1)
                    } else {
                        None::<u8>
                    })
                },
    {
        let mut r: Vec<DebugMarker> = Vec::new();
        let n = self.chunk_state.num_entries();
        let mut i: usize = 0;
        while i < n
            invariant
                self.wf(),
                n == self.chunk_state.key_seq().len(),
                i <= n,
                r@.len() == i,
                forall|j: int|
                    0 <= j < i ==> {
                        let c = self.chunk_state.key_seq()[j];
                        &&& (#[trigger] r@[j]).x == c.0 as i64 * 128
                        &&& r@[j].y == c.1 as i64 * 128
                        &&& r@[j].message@ == state_tag(self.chunk_state@[c])
                        &&& r@[j].priority == (if self.authority_map@.dom().contains(c) {
                            Some(self.authority_map@[c].1)
                        } else {
                            None::<u8>
                        })
                    },
            decreases n - i,
        {
            let c = self.chunk_state.key_at(i);
            let message = match self.chunk_state.val_at(i) {
                ChunkState::RequestAuthority { .. } => "req auth",
                ChunkState::WaitingForAuthority => "wai auth",
                ChunkState::Listening { .. } => "list",
                ChunkState::Authority { .. } => "auth",
                ChunkState::UnloadPending => "unl",
                ChunkState::Transfer => "tran",
                ChunkState::WantToGetAuth { .. } => "want auth",
            };
            let priority = match self.authority_map.get_copy(c) {
                Some(a) => Some(a.1),
                None => None,
            };
            r.push(DebugMarker { x: c.0 as i64 * 128, y: c.1 as i64 * 128, message, priority });
            i += 1;
        }
        r
    }
}

} // verus!
