//! The protocol's cross-call guarantees, proved once and for all from the
//! transition relations that the handlers' contracts state.

use vstd::prelude::*;

use crate::coords::{ChunkCoord, PeerId};
use crate::local::{cu_entry, cu_step};
use crate::manager::WorldManager;
use crate::protocol::{
    step_emit_got_authority, step_listen_request, step_lose_authority, step_request_authority,
    step_request_transfer, step_transfer_ok,
};
use crate::state::ChunkState;

verus! {

/// Idempotent re-grant: a `RequestAuthority` from the peer the host already
/// records as owner is answered with a grant that carries no data, and the
/// canonical chunk storage is left untouched.
pub proof fn law_idempotent_regrant(
    pre: WorldManager,
    source: PeerId,
    chunk: ChunkCoord,
    priority: u8,
    can_wait: bool,
    post: WorldManager,
)
    requires
        pre.is_host,
        source != pre.my_peer_id,
        pre.authority_map@.dom().contains(chunk),
        pre.authority_map@[chunk].0 == source,
        step_request_authority(pre, source, chunk, priority, can_wait, post),
    ensures
        post.chunk_storage == pre.chunk_storage,
        post.authority_map@ == pre.authority_map@.insert(chunk, (source, priority)),
        post.emitted_messages@.len() == pre.emitted_messages@.len() + 1,
        crate::protocol::is_got_authority(
            post.emitted_messages@.last(),
            source,
            chunk,
            None,
            priority,
        ),
{
    assert(step_emit_got_authority(pre, chunk, source, priority, post));
    assert(crate::protocol::granted_view(pre, chunk, source) is None);
}

/// Single ownership, host side: while the map names another peer as owner,
/// an ordinary request never creates a second grant. The requester is
/// pointed at the standing authority and the map keeps its entry, so at
/// most one peer at a time is told it owns a chunk.
pub proof fn law_no_second_grant(
    pre: WorldManager,
    source: PeerId,
    chunk: ChunkCoord,
    priority: u8,
    can_wait: bool,
    post: WorldManager,
)
    requires
        pre.is_host,
        source != pre.my_peer_id,
        pre.authority_map@.dom().contains(chunk),
        pre.authority_map@[chunk].0 != source,
        can_wait || pre.authority_map@[chunk].1 <= priority,
        step_request_authority(pre, source, chunk, priority, can_wait, post),
    ensures
        post.authority_map == pre.authority_map,
        post.chunk_storage == pre.chunk_storage,
        post.emitted_messages@ == pre.emitted_messages@.push(
            crate::messages::MessageRequest {
                dst: crate::messages::Destination::Peer(source),
                msg: crate::messages::WorldNetMessage::AuthorityAlreadyTaken {
                    chunk,
                    authority: pre.authority_map@[chunk].0,
                },
            },
        ),
{
}

/// Preemption fairness: whatever order two contenders' `LoseAuthority`
/// messages arrive in, the authority remembers the strictly better bid.
pub proof fn law_preemption_fairness(
    pre: WorldManager,
    chunk: ChunkCoord,
    p1: PeerId,
    pri1: u8,
    p2: PeerId,
    pri2: u8,
    mid_a: WorldManager,
    post_a: WorldManager,
    mid_b: WorldManager,
    post_b: WorldManager,
)
    requires
        pri1 < pri2,
        p1 != pre.my_peer_id,
        p2 != pre.my_peer_id,
        // the handlers keep the peer's own identity; `handle_msg` ensures this
        mid_a.my_peer_id == pre.my_peer_id,
        mid_b.my_peer_id == pre.my_peer_id,
        pre.chunk_state@.dom().contains(chunk),
        pre.chunk_state@[chunk] matches ChunkState::Authority { new_authority: None, .. },
        // one order: first peer 1, then peer 2
        step_lose_authority(pre, chunk, pri1, p1, mid_a),
        step_lose_authority(mid_a, chunk, pri2, p2, post_a),
        // the other order: first peer 2, then peer 1
        step_lose_authority(pre, chunk, pri2, p2, mid_b),
        step_lose_authority(mid_b, chunk, pri1, p1, post_b),
    ensures
        post_a.chunk_state@[chunk] matches ChunkState::Authority { new_authority: na, .. } && na
            == Some((p1, pri1)),
        post_b.chunk_state@[chunk] matches ChunkState::Authority { new_authority: na, .. } && na
            == Some((p1, pri1)),
{
    assert(mid_a.chunk_state@[chunk] matches ChunkState::Authority { new_authority: na, .. }
        && na == Some((p1, pri1)));
    assert(mid_b.chunk_state@[chunk] matches ChunkState::Authority { new_authority: na, .. }
        && na == Some((p2, pri2)));
}

/// Tie break: a contender whose local priority no longer strictly beats the
/// authority's settles back into plain listening; the incumbent keeps the
/// chunk.
pub proof fn law_tie_break(
    pre: WorldManager,
    chunk: ChunkCoord,
    priority: u8,
    pos: Seq<i32>,
    post: WorldManager,
    r: Seq<(PeerId, u8)>,
    authority: PeerId,
    auth_priority: u8,
    my_priority: u8,
)
    requires
        cu_step(pre, chunk, priority, pos, post, r),
        cu_entry(pre, pos, chunk, priority) == (ChunkState::WantToGetAuth {
            authority,
            auth_priority,
            my_priority,
        }),
        my_priority != priority,
        auth_priority <= priority,
    ensures
        post.chunk_state@[chunk] == (ChunkState::Listening {
            authority,
            priority: auth_priority,
        }),
        post.emitted_messages == pre.emitted_messages,
{
}

/// A listener at the same priority as its authority does not begin a
/// preemption: only a strictly better local priority leaves the listening
/// state.
pub proof fn law_no_preempt_on_equal(
    pre: WorldManager,
    chunk: ChunkCoord,
    priority: u8,
    pos: Seq<i32>,
    post: WorldManager,
    r: Seq<(PeerId, u8)>,
    authority: PeerId,
)
    requires
        cu_step(pre, chunk, priority, pos, post, r),
        cu_entry(pre, pos, chunk, priority) == (ChunkState::Listening { authority, priority }),
    ensures
        post.chunk_state@[chunk] == (ChunkState::Listening { authority, priority }),
        post.emitted_messages == pre.emitted_messages,
{
}

/// The canonical storage tracks hand-offs: a storage update for the current
/// world overwrites exactly the one chunk with exactly the carried data,
/// and one for a stale world changes nothing at all.
pub proof fn law_storage_takes_handoff(
    pre: WorldManager,
    chunk: ChunkCoord,
    data: crate::pixel::ChunkData,
    world_num: i32,
    post: WorldManager,
)
    requires
        pre.is_host,
        crate::protocol::step_update_storage(pre, chunk, Some(data), world_num, post),
    ensures
        world_num == pre.world_num ==> post.chunk_storage@ == pre.chunk_storage@.insert(
            chunk,
            data,
        ),
        world_num != pre.world_num ==> post == pre,
{
}

/// Transfer round-trip: a successful pull-transfer hands the listener set
/// over exactly. The departing authority sends precisely its listeners, and
/// the new authority stands up with precisely the set it received.
pub proof fn law_transfer_round_trip(
    giver: WorldManager,
    giver_post: WorldManager,
    taker: WorldManager,
    taker_post: WorldManager,
    source: PeerId,
    chunk: ChunkCoord,
    listeners: Seq<PeerId>,
    data: Option<Seq<crate::pixel::Pixel>>,
)
    requires
        source != giver.my_peer_id,
        !giver.is_host,
        giver.chunk_state@.dom().contains(chunk),
        giver.chunk_state@[chunk] matches ChunkState::Authority { listeners: l0, .. } && l0@
            == listeners,
        step_request_transfer(giver, source, chunk, giver_post),
        step_transfer_ok(taker, chunk, data, listeners, taker_post),
    ensures
        // the giver reports exactly its listener set and unloads
        crate::protocol::is_transfer_ok(
            giver_post.emitted_messages@[giver_post.emitted_messages@.len() - 2],
            source,
            chunk,
            crate::protocol::outbound_view(giver, chunk),
            listeners,
        ),
        giver_post.chunk_state@[chunk] is UnloadPending,
        // the taker stands up over exactly that set
        taker_post.chunk_state@[chunk] matches ChunkState::Authority { listeners: l1, .. } && l1@
            == listeners,
{
}

/// A `ListenRequest` adds the subscriber and nobody else: afterwards the
/// authority's listener set holds exactly the old listeners plus the new one.
pub proof fn law_listen_request_adds_one(
    pre: WorldManager,
    source: PeerId,
    chunk: ChunkCoord,
    post: WorldManager,
    listeners: Seq<PeerId>,
)
    requires
        source != pre.my_peer_id,
        pre.chunk_state@.dom().contains(chunk),
        pre.chunk_state@[chunk] matches ChunkState::Authority { listeners: l0, .. } && l0@
            == listeners,
        step_listen_request(pre, source, chunk, post),
    ensures
        post.chunk_state@[chunk] matches ChunkState::Authority { listeners: l1, .. } && l1@ == (
        if listeners.contains(source) {
            listeners
        } else {
            listeners.push(source)
        }),
{
}

} // verus!
