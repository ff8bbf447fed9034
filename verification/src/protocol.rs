//! The authority protocol engine: how one peer reacts to each wire message.
//!
//! `handle_msg` is the single entry point; its contract is the transition
//! relation `step`, stated per message variant over the manager's map views.
//! A message addressed to this peer itself (host to host, or to the own peer
//! id) is handled inline rather than queued, so the handler recurses; a rank
//! on the message vocabulary bounds that recursion, because every message a
//! handler emits ranks strictly below the one being handled.

use vstd::prelude::*;

use crate::coords::{ChunkCoord, PeerId};
use crate::manager::{same_config, WorldManager};
use crate::messages::{opt_data_view, Destination, MessageRequest, WorldNetMessage};
use crate::model::WorldModel;
use crate::peer_set::PeerSet;
use crate::pixel::{apply_writes, ChunkData, ChunkDelta, Pixel};
use crate::state::ChunkState;

verus! {

/// An upper bound on the chain of messages one message can set off. Every
/// message emitted while handling `m` ranks strictly below `m`.
pub open spec fn msg_rank(m: WorldNetMessage) -> nat {
    match m {
        WorldNetMessage::AskForAuthority { .. } => 5,
        WorldNetMessage::ListenUpdate { .. } => 5,
        WorldNetMessage::RequestAuthority { .. } => 4,
        WorldNetMessage::GetAuthorityFrom { .. } => 3,
        WorldNetMessage::AuthorityAlreadyTaken { .. } => 2,
        WorldNetMessage::RequestAuthorityTransfer { .. } => 2,
        WorldNetMessage::ListenRequest { .. } => 1,
        WorldNetMessage::RelinquishAuthority { .. } => 1,
        WorldNetMessage::TransferOk { .. } => 1,
        _ => 0,
    }
}

/// Is a message to `dst` handled by this peer itself, inline?
pub open spec fn sent_to_self(pre: WorldManager, dst: Destination) -> bool {
    (pre.is_host && dst == Destination::Host) || dst == Destination::Peer(pre.my_peer_id)
}

/// The queue only ever grows; what was queued stays queued.
pub open spec fn emits_kept(pre: Seq<MessageRequest>, post: Seq<MessageRequest>) -> bool {
    &&& pre.len() <= post.len()
    &&& forall|i: int| 0 <= i < pre.len() ==> post[i] == pre[i]
}

/// Exactly one message was queued, with this exact value.
pub open spec fn pushed_msg(
    pre: Seq<MessageRequest>,
    post: Seq<MessageRequest>,
    dst: Destination,
    msg: WorldNetMessage,
) -> bool {
    post == pre.push(MessageRequest { dst, msg })
}

/// Exactly one message was queued; its payload is described, not named.
pub open spec fn pushed_one(pre: Seq<MessageRequest>, post: Seq<MessageRequest>) -> bool {
    &&& post.len() == pre.len() + 1
    &&& forall|i: int| 0 <= i < pre.len() ==> post[i] == pre[i]
}

/// Exactly two messages were queued; their payloads are described, not
/// named.
pub open spec fn pushed_two(pre: Seq<MessageRequest>, post: Seq<MessageRequest>) -> bool {
    &&& post.len() == pre.len() + 2
    &&& forall|i: int| 0 <= i < pre.len() ==> post[i] == pre[i]
}

pub open spec fn is_got_authority(
    mr: MessageRequest,
    to: PeerId,
    chunk: ChunkCoord,
    data: Option<Seq<Pixel>>,
    priority: u8,
) -> bool {
    &&& mr.dst == Destination::Peer(to)
    &&& mr.msg matches WorldNetMessage::GotAuthority { chunk: c, chunk_data: d, priority: p }
        && c == chunk && opt_data_view(d) == data && p == priority
}

pub open spec fn is_listen_initial(
    mr: MessageRequest,
    to: PeerId,
    chunk: ChunkCoord,
    data: Option<Seq<Pixel>>,
    priority: u8,
) -> bool {
    &&& mr.dst == Destination::Peer(to)
    &&& mr.msg matches WorldNetMessage::ListenInitialResponse { chunk: c, chunk_data: d, priority: p }
        && c == chunk && opt_data_view(d) == data && p == priority
}

pub open spec fn is_transfer_ok(
    mr: MessageRequest,
    to: PeerId,
    chunk: ChunkCoord,
    data: Option<Seq<Pixel>>,
    listeners: Seq<PeerId>,
) -> bool {
    &&& mr.dst == Destination::Peer(to)
    &&& mr.msg matches WorldNetMessage::TransferOk { chunk: c, chunk_data: d, listeners: l }
        && c == chunk && opt_data_view(d) == data && l@ == listeners
}

pub open spec fn is_update_storage(
    mr: MessageRequest,
    chunk: ChunkCoord,
    data: Option<Seq<Pixel>>,
    world_num: i32,
) -> bool {
    &&& mr.dst == Destination::Host
    &&& mr.msg matches WorldNetMessage::UpdateStorage { chunk: c, chunk_data: d, world_num: w }
        && c == chunk && opt_data_view(d) == data && w == world_num
}

/// What a grant carries: the stored chunk, but only on owner change.
pub open spec fn granted_view(pre: WorldManager, chunk: ChunkCoord, to: PeerId) -> Option<
    Seq<Pixel>,
> {
    if pre.authority_map@.dom().contains(chunk) && pre.authority_map@[chunk].0 == to {
        None
    } else if pre.chunk_storage@.dom().contains(chunk) {
        Some(pre.chunk_storage@[chunk]@)
    } else {
        None
    }
}

/// What the outbound model would hand over for `chunk`.
pub open spec fn outbound_view(pre: WorldManager, chunk: ChunkCoord) -> Option<Seq<Pixel>> {
    if pre.outbound_model.contents().dom().contains(chunk) {
        Some(pre.outbound_model.contents()[chunk])
    } else {
        None
    }
}

/// An authority node after a `LoseAuthority` from a contender: the
/// best-priority contender is remembered, and a message naming this peer
/// itself clears the pending hand-off. Any other state is left alone.
pub open spec fn after_lose_authority(
    st: ChunkState,
    me: PeerId,
    new_priority: u8,
    new_peer: PeerId,
) -> ChunkState {
    match st {
        ChunkState::Authority { listeners, priority, new_authority, stop_sending } => {
            let na = if new_peer == me {
                None
            } else {
                match new_authority {
                    Some(n) => if n.1 > new_priority {
                        Some((new_peer, new_priority))
                    } else {
                        Some(n)
                    },
                    None => Some((new_peer, new_priority)),
                }
            };
            ChunkState::Authority { listeners, priority, new_authority: na, stop_sending }
        },
        _ => st,
    }
}

/// One `NotifyNewAuthority` per listener other than this peer, in listener
/// order.
pub open spec fn notify_seq(ls: Seq<PeerId>, me: PeerId, chunk: ChunkCoord) -> Seq<MessageRequest>
    decreases ls.len(),
{
    if ls.len() == 0 {
        Seq::empty()
    } else {
        notify_seq(ls.drop_last(), me, chunk) + (if ls.last() == me {
            Seq::empty()
        } else {
            seq![
                MessageRequest {
                    dst: Destination::Peer(ls.last()),
                    msg: WorldNetMessage::NotifyNewAuthority { chunk },
                },
            ]
        })
    }
}

/// Everything a message handler may touch is listed per variant; these
/// fields no handler touches.
pub open spec fn same_models(pre: WorldManager, post: WorldManager) -> bool {
    &&& post.inbound_model == pre.inbound_model
    &&& post.outbound_model == pre.outbound_model
}

/// No handler reads or writes the activity counters.
pub open spec fn same_clu(pre: WorldManager, post: WorldManager) -> bool {
    post.chunk_last_update == pre.chunk_last_update
}

/// The whole mutable core except the outbound queue is unchanged.
pub open spec fn same_core(pre: WorldManager, post: WorldManager) -> bool {
    &&& same_models(pre, post)
    &&& post.chunk_storage == pre.chunk_storage
    &&& post.authority_map == pre.authority_map
    &&& post.chunk_state == pre.chunk_state
    &&& same_clu(pre, post)
    &&& post.last_request_priority == pre.last_request_priority
}

/// Both models had `data` applied to `chunk`, or were left alone.
pub open spec fn models_absorbed(
    pre: WorldManager,
    post: WorldManager,
    chunk: ChunkCoord,
    data: Option<Seq<Pixel>>,
) -> bool {
    match data {
        Some(d) => {
            &&& post.inbound_model.contents() == pre.inbound_model.contents().insert(chunk, d)
            &&& post.outbound_model.contents() == pre.outbound_model.contents().insert(chunk, d)
        },
        None => same_models(pre, post),
    }
}

/// The inbound model alone had `data` applied to `chunk`, or was left alone.
pub open spec fn inbound_absorbed(
    pre: WorldManager,
    post: WorldManager,
    chunk: ChunkCoord,
    data: Option<Seq<Pixel>>,
) -> bool {
    &&& post.outbound_model == pre.outbound_model
    &&& match data {
        Some(d) => post.inbound_model.contents() == pre.inbound_model.contents().insert(chunk, d),
        None => post.inbound_model == pre.inbound_model,
    }
}

/// The inbound model absorbed one delta.
pub open spec fn inbound_delta(
    pre: WorldManager,
    post: WorldManager,
    chunk: ChunkCoord,
    writes: Seq<(u16, Pixel)>,
) -> bool {
    &&& post.outbound_model == pre.outbound_model
    &&& post.inbound_model.contents() == pre.inbound_model.contents().insert(
        chunk,
        apply_writes(pre.inbound_model.base_pixels(chunk), writes),
    )
}

// ------------------------------------------------------------------
// The per-variant transition relations.
// ------------------------------------------------------------------

/// Granting authority over `chunk` to `to` (host side): the authority map
/// records the new owner, and the grant is delivered — queued for a remote
/// requester, handled inline when the host grants to itself.
pub open spec fn step_emit_got_authority(
    pre: WorldManager,
    chunk: ChunkCoord,
    to: PeerId,
    priority: u8,
    post: WorldManager,
) -> bool {
    &&& post.authority_map@ == pre.authority_map@.insert(chunk, (to, priority))
    &&& post.chunk_storage == pre.chunk_storage
    &&& same_clu(pre, post)
    &&& if to != pre.my_peer_id {
        &&& same_models(pre, post)
        &&& post.chunk_state == pre.chunk_state
        &&& post.last_request_priority == pre.last_request_priority
        &&& pushed_one(pre.emitted_messages@, post.emitted_messages@)
        &&& is_got_authority(
            post.emitted_messages@.last(),
            to,
            chunk,
            granted_view(pre, chunk, to),
            priority,
        )
    } else {
        &&& post.emitted_messages == pre.emitted_messages
        &&& post.chunk_state@.dom() == pre.chunk_state@.dom().insert(chunk)
        &&& post.chunk_state@[chunk].is_fresh_authority(priority)
        &&& forall|x: ChunkCoord|
            x != chunk && pre.chunk_state@.dom().contains(x) ==> post.chunk_state@[x]
                == pre.chunk_state@[x]
        &&& post.last_request_priority@ == pre.last_request_priority@.remove(chunk)
        &&& models_absorbed(pre, post, chunk, granted_view(pre, chunk, to))
    }
}

/// `mid` is `pre` with one authority-map entry recorded and nothing else.
pub open spec fn only_am_inserted(
    pre: WorldManager,
    mid: WorldManager,
    chunk: ChunkCoord,
    entry: (PeerId, u8),
) -> bool {
    &&& mid.authority_map@ == pre.authority_map@.insert(chunk, entry)
    &&& same_models(pre, mid)
    &&& mid.chunk_storage == pre.chunk_storage
    &&& mid.chunk_state == pre.chunk_state
    &&& same_clu(pre, mid)
    &&& mid.last_request_priority == pre.last_request_priority
    &&& mid.emitted_messages == pre.emitted_messages
    &&& same_config(pre, mid)
}

/// `mid` is `pre` with one request priority recorded and nothing else.
pub open spec fn only_lrp_inserted(
    pre: WorldManager,
    mid: WorldManager,
    chunk: ChunkCoord,
    priority: u8,
) -> bool {
    &&& mid.last_request_priority@ == pre.last_request_priority@.insert(chunk, priority)
    &&& same_models(pre, mid)
    &&& mid.chunk_storage == pre.chunk_storage
    &&& mid.authority_map == pre.authority_map
    &&& mid.chunk_state == pre.chunk_state
    &&& same_clu(pre, mid)
    &&& mid.emitted_messages == pre.emitted_messages
    &&& same_config(pre, mid)
}

/// Host-side `RequestAuthority`: re-grant to the current owner, pull-transfer
/// for an outranking impatient requester, or point the requester at the
/// standing authority; an unowned chunk is granted outright.
pub open spec fn step_request_authority(
    pre: WorldManager,
    source: PeerId,
    chunk: ChunkCoord,
    priority: u8,
    can_wait: bool,
    post: WorldManager,
) -> bool {
    if !pre.is_host {
        post == pre
    } else if pre.authority_map@.dom().contains(chunk) {
        let owner = pre.authority_map@[chunk].0;
        let owner_pri = pre.authority_map@[chunk].1;
        if source == owner {
            step_emit_got_authority(pre, chunk, source, priority, post)
        } else if owner_pri > priority && !can_wait {
            step_emit_transfer_authority(pre, chunk, source, priority, owner, post)
        } else {
            if source != pre.my_peer_id {
                &&& same_core(pre, post)
                &&& pushed_msg(
                    pre.emitted_messages@,
                    post.emitted_messages@,
                    Destination::Peer(source),
                    WorldNetMessage::AuthorityAlreadyTaken { chunk, authority: owner },
                )
            } else {
                step_authority_already_taken(pre, chunk, owner, post)
            }
        }
    } else {
        step_emit_got_authority(pre, chunk, source, priority, post)
    }
}

/// Host-side start of a pull-transfer: the map already names the new owner,
/// who is told whom to pull from.
pub open spec fn step_emit_transfer_authority(
    pre: WorldManager,
    chunk: ChunkCoord,
    to: PeerId,
    priority: u8,
    current_authority: PeerId,
    post: WorldManager,
) -> bool {
    &&& post.chunk_storage == pre.chunk_storage
    &&& same_clu(pre, post)
    &&& same_models(pre, post)
    &&& if to != pre.my_peer_id {
        &&& post.authority_map@ == pre.authority_map@.insert(chunk, (to, priority))
        &&& post.chunk_state == pre.chunk_state
        &&& post.last_request_priority == pre.last_request_priority
        &&& pushed_msg(
            pre.emitted_messages@,
            post.emitted_messages@,
            Destination::Peer(to),
            WorldNetMessage::GetAuthorityFrom { chunk, current_authority },
        )
    } else {
        // the host pulling for itself: the pull request is handled inline,
        // on the state with the new owner already recorded
        exists|mid: WorldManager|
            {
                &&& #[trigger] only_am_inserted(pre, mid, chunk, (pre.my_peer_id, priority))
                &&& step_get_authority_from(mid, chunk, current_authority, post)
            }
    }
}

/// `AskForAuthority`: relay an immediate request to the host and wait.
pub open spec fn step_ask_for_authority(
    pre: WorldManager,
    chunk: ChunkCoord,
    priority: u8,
    post: WorldManager,
) -> bool {
    if !pre.is_host {
        &&& same_models(pre, post)
        &&& post.chunk_storage == pre.chunk_storage
        &&& post.authority_map == pre.authority_map
        &&& same_clu(pre, post)
        &&& post.last_request_priority == pre.last_request_priority
        &&& post.chunk_state@ == pre.chunk_state@.insert(chunk, ChunkState::WaitingForAuthority)
        &&& pushed_msg(
            pre.emitted_messages@,
            post.emitted_messages@,
            Destination::Host,
            WorldNetMessage::RequestAuthority { chunk, priority, can_wait: false },
        )
    } else {
        // The host asking itself: the request is handled inline first, then
        // whatever state the grant chain left is overwritten with the
        // waiting marker.
        exists|mid: WorldManager|
            {
                &&& #[trigger] step_request_authority(
                    pre,
                    pre.my_peer_id,
                    chunk,
                    priority,
                    false,
                    mid,
                )
                &&& post.chunk_state@ == mid.chunk_state@.insert(
                    chunk,
                    ChunkState::WaitingForAuthority,
                )
                &&& same_models(mid, post)
                &&& post.chunk_storage == mid.chunk_storage
                &&& post.authority_map == mid.authority_map
                &&& same_clu(mid, post)
                &&& post.last_request_priority == mid.last_request_priority
                &&& post.emitted_messages == mid.emitted_messages
            }
    }
}

/// `LoseAuthority`: an authority remembers its best-priority contender.
pub open spec fn step_lose_authority(
    pre: WorldManager,
    chunk: ChunkCoord,
    new_priority: u8,
    new_peer: PeerId,
    post: WorldManager,
) -> bool {
    if pre.chunk_state@.dom().contains(chunk) && pre.chunk_state@[chunk] matches
        ChunkState::Authority { .. } {
        &&& post.chunk_state@ == pre.chunk_state@.insert(
            chunk,
            after_lose_authority(pre.chunk_state@[chunk], pre.my_peer_id, new_priority, new_peer),
        )
        &&& same_models(pre, post)
        &&& post.chunk_storage == pre.chunk_storage
        &&& post.authority_map == pre.authority_map
        &&& same_clu(pre, post)
        &&& post.last_request_priority == pre.last_request_priority
        &&& post.emitted_messages == pre.emitted_messages
    } else {
        post == pre
    }
}

/// `ChangePriority` (host side): the recorded priority follows the owner's.
pub open spec fn step_change_priority(
    pre: WorldManager,
    source: PeerId,
    chunk: ChunkCoord,
    priority: u8,
    post: WorldManager,
) -> bool {
    if pre.is_host && pre.authority_map@.dom().contains(chunk) && pre.authority_map@[chunk].0
        == source {
        &&& post.authority_map@ == pre.authority_map@.insert(chunk, (source, priority))
        &&& same_models(pre, post)
        &&& post.chunk_storage == pre.chunk_storage
        &&& post.chunk_state == pre.chunk_state
        &&& same_clu(pre, post)
        &&& post.last_request_priority == pre.last_request_priority
        &&& post.emitted_messages == pre.emitted_messages
    } else {
        post == pre
    }
}

/// `GotAuthority`: become a fresh authority and absorb any carried data.
pub open spec fn step_got_authority(
    pre: WorldManager,
    chunk: ChunkCoord,
    data: Option<Seq<Pixel>>,
    priority: u8,
    post: WorldManager,
) -> bool {
    &&& post.chunk_state@.dom() == pre.chunk_state@.dom().insert(chunk)
    &&& post.chunk_state@[chunk].is_fresh_authority(priority)
    &&& forall|x: ChunkCoord|
        x != chunk && pre.chunk_state@.dom().contains(x) ==> post.chunk_state@[x]
            == pre.chunk_state@[x]
    &&& post.last_request_priority@ == pre.last_request_priority@.remove(chunk)
    &&& models_absorbed(pre, post, chunk, data)
    &&& post.chunk_storage == pre.chunk_storage
    &&& post.authority_map == pre.authority_map
    &&& same_clu(pre, post)
    &&& post.emitted_messages == pre.emitted_messages
}

/// `UpdateStorage` (host side): overwrite the canonical snapshot, unless the
/// world moved on.
pub open spec fn step_update_storage(
    pre: WorldManager,
    chunk: ChunkCoord,
    data: Option<ChunkData>,
    world_num: i32,
    post: WorldManager,
) -> bool {
    if !pre.is_host || world_num != pre.world_num {
        post == pre
    } else {
        &&& match data {
            Some(d) => post.chunk_storage@ == pre.chunk_storage@.insert(chunk, d),
            None => post.chunk_storage == pre.chunk_storage,
        }
        &&& same_models(pre, post)
        &&& post.authority_map == pre.authority_map
        &&& post.chunk_state == pre.chunk_state
        &&& same_clu(pre, post)
        &&& post.last_request_priority == pre.last_request_priority
        &&& post.emitted_messages == pre.emitted_messages
    }
}

/// `RelinquishAuthority` (host side): the owner steps down; its data is
/// promoted into storage and every peer is told to unload. A relinquish from
/// a peer the map does not name as owner is dropped.
pub open spec fn step_relinquish_authority(
    pre: WorldManager,
    source: PeerId,
    chunk: ChunkCoord,
    data: Option<ChunkData>,
    world_num: i32,
    post: WorldManager,
) -> bool {
    if !pre.is_host || world_num != pre.world_num {
        post == pre
    } else if pre.authority_map@.dom().contains(chunk) && pre.authority_map@[chunk].0 != source {
        post == pre
    } else {
        &&& post.authority_map@ == pre.authority_map@.remove(chunk)
        &&& match data {
            Some(d) => post.chunk_storage@ == pre.chunk_storage@.insert(chunk, d),
            None => post.chunk_storage == pre.chunk_storage,
        }
        &&& post.chunk_state@ == pre.chunk_state@.insert(chunk, ChunkState::UnloadPending)
        &&& same_models(pre, post)
        &&& same_clu(pre, post)
        &&& post.last_request_priority == pre.last_request_priority
        &&& pushed_msg(
            pre.emitted_messages@,
            post.emitted_messages@,
            Destination::Broadcast,
            WorldNetMessage::ListenAuthorityRelinquished { chunk },
        )
    }
}

/// `UnloadChunk` and `ListenAuthorityRelinquished`: tombstone the chunk.
pub open spec fn step_unload(pre: WorldManager, chunk: ChunkCoord, post: WorldManager) -> bool {
    &&& post.chunk_state@ == pre.chunk_state@.insert(chunk, ChunkState::UnloadPending)
    &&& same_models(pre, post)
    &&& post.chunk_storage == pre.chunk_storage
    &&& post.authority_map == pre.authority_map
    &&& same_clu(pre, post)
    &&& post.last_request_priority == pre.last_request_priority
    &&& post.emitted_messages == pre.emitted_messages
}

/// `AuthorityAlreadyTaken`: go subscribe with the named authority.
pub open spec fn step_authority_already_taken(
    pre: WorldManager,
    chunk: ChunkCoord,
    authority: PeerId,
    post: WorldManager,
) -> bool {
    if authority != pre.my_peer_id {
        &&& same_models(pre, post)
        &&& post.chunk_storage == pre.chunk_storage
        &&& post.authority_map == pre.authority_map
        &&& post.chunk_state == pre.chunk_state
        &&& same_clu(pre, post)
        &&& post.last_request_priority@ == pre.last_request_priority@.remove(chunk)
        &&& pushed_msg(
            pre.emitted_messages@,
            post.emitted_messages@,
            Destination::Peer(authority),
            WorldNetMessage::ListenRequest { chunk },
        )
    } else {
        // told to listen to oneself: the subscription is handled inline,
        // then the remembered request priority is dropped
        exists|mid: WorldManager|
            {
                &&& #[trigger] step_listen_request(pre, pre.my_peer_id, chunk, mid)
                &&& post.chunk_state == mid.chunk_state
                &&& same_models(mid, post)
                &&& post.chunk_storage == mid.chunk_storage
                &&& post.authority_map == mid.authority_map
                &&& same_clu(mid, post)
                &&& post.last_request_priority@ == mid.last_request_priority@.remove(chunk)
                &&& post.emitted_messages == mid.emitted_messages
            }
    }
}

/// `ListenRequest`: an authority records the subscriber and answers with its
/// current content; anyone else tells the subscriber to unload.
pub open spec fn step_listen_request(
    pre: WorldManager,
    source: PeerId,
    chunk: ChunkCoord,
    post: WorldManager,
) -> bool {
    if pre.chunk_state@.dom().contains(chunk) && pre.chunk_state@[chunk] matches
        ChunkState::Authority { .. } {
        if source != pre.my_peer_id {
            &&& post.chunk_state@.dom() == pre.chunk_state@.dom()
            &&& (pre.chunk_state@[chunk] matches ChunkState::Authority {
                listeners: l0,
                priority: p0,
                new_authority: na0,
                stop_sending: ss0,
            } ==> {
                &&& post.chunk_state@[chunk] matches ChunkState::Authority {
                    listeners: l1,
                    priority: p1,
                    new_authority: na1,
                    stop_sending: ss1,
                } && l1@ == (if l0@.contains(source) {
                    l0@
                } else {
                    l0@.push(source)
                }) && p1 == p0 && na1 == na0 && ss1 == ss0
                &&& pushed_one(pre.emitted_messages@, post.emitted_messages@)
                &&& is_listen_initial(
                    post.emitted_messages@.last(),
                    source,
                    chunk,
                    outbound_view(pre, chunk),
                    p0,
                )
            })
            &&& forall|x: ChunkCoord|
                x != chunk && pre.chunk_state@.dom().contains(x) ==> post.chunk_state@[x]
                    == pre.chunk_state@[x]
            &&& same_models(pre, post)
            &&& post.chunk_storage == pre.chunk_storage
            &&& post.authority_map == pre.authority_map
            &&& same_clu(pre, post)
            &&& post.last_request_priority == pre.last_request_priority
        } else {
            // subscribing to oneself: the inline response overwrites the
            // authority node with a listener bound to this very peer
            &&& post.chunk_state@ == pre.chunk_state@.insert(
                chunk,
                ChunkState::Listening {
                    authority: pre.my_peer_id,
                    priority: pre.chunk_state@[chunk]->Authority_priority,
                },
            )
            &&& post.outbound_model == pre.outbound_model
            &&& (match outbound_view(pre, chunk) {
                Some(d) => post.inbound_model.contents()
                    == pre.inbound_model.contents().insert(chunk, d),
                None => post.inbound_model == pre.inbound_model,
            })
            &&& post.chunk_storage == pre.chunk_storage
            &&& post.authority_map == pre.authority_map
            &&& same_clu(pre, post)
            &&& post.last_request_priority == pre.last_request_priority
            &&& post.emitted_messages == pre.emitted_messages
        }
    } else {
        if source != pre.my_peer_id {
            &&& same_core(pre, post)
            &&& pushed_msg(
                pre.emitted_messages@,
                post.emitted_messages@,
                Destination::Peer(source),
                WorldNetMessage::UnloadChunk { chunk },
            )
        } else {
            step_unload(pre, chunk, post)
        }
    }
}

/// `ListenStopRequest`: an authority forgets the subscriber.
pub open spec fn step_listen_stop(
    pre: WorldManager,
    source: PeerId,
    chunk: ChunkCoord,
    post: WorldManager,
) -> bool {
    if pre.chunk_state@.dom().contains(chunk) && pre.chunk_state@[chunk] matches
        ChunkState::Authority { .. } {
        &&& post.chunk_state@.dom() == pre.chunk_state@.dom()
        &&& (pre.chunk_state@[chunk] matches ChunkState::Authority {
            listeners: l0,
            priority: p0,
            new_authority: na0,
            stop_sending: ss0,
        } ==> post.chunk_state@[chunk] matches ChunkState::Authority {
            listeners: l1,
            priority: p1,
            new_authority: na1,
            stop_sending: ss1,
        } && !l1@.contains(source) && (forall|q: PeerId|
            q != source ==> l1@.contains(q) == l0@.contains(q)) && p1 == p0 && na1 == na0 && ss1
            == ss0)
        &&& forall|x: ChunkCoord|
            x != chunk && pre.chunk_state@.dom().contains(x) ==> post.chunk_state@[x]
                == pre.chunk_state@[x]
        &&& same_models(pre, post)
        &&& post.chunk_storage == pre.chunk_storage
        &&& post.authority_map == pre.authority_map
        &&& same_clu(pre, post)
        &&& post.last_request_priority == pre.last_request_priority
        &&& post.emitted_messages == pre.emitted_messages
    } else {
        post == pre
    }
}

/// `ListenInitialResponse`: become a listener and absorb the content.
pub open spec fn step_listen_initial(
    pre: WorldManager,
    source: PeerId,
    chunk: ChunkCoord,
    data: Option<Seq<Pixel>>,
    priority: u8,
    post: WorldManager,
) -> bool {
    &&& post.chunk_state@ == pre.chunk_state@.insert(
        chunk,
        ChunkState::Listening { authority: source, priority },
    )
    &&& inbound_absorbed(pre, post, chunk, data)
    &&& post.chunk_storage == pre.chunk_storage
    &&& post.authority_map == pre.authority_map
    &&& same_clu(pre, post)
    &&& post.last_request_priority == pre.last_request_priority
    &&& post.emitted_messages == pre.emitted_messages
}

/// `ListenUpdate`: a listener tracks the authority's priority and absorbs
/// the delta; with `take_auth`, a waiting contender requests authority, and
/// anyone else bounces the authority back.
/// The common frame of the `ListenUpdate` cases: everything but the chunk
/// states, the inbound model and the queue stays put.
pub open spec fn listen_update_frame(pre: WorldManager, post: WorldManager) -> bool {
    &&& post.chunk_storage == pre.chunk_storage
    &&& post.authority_map == pre.authority_map
    &&& same_clu(pre, post)
}

/// The fallthrough of `ListenUpdate`: not a listener, yet told to take
/// authority — decline by naming the sender itself, then absorb the delta.
/// When the sender is this very peer, the decline is handled inline against
/// the present state.
pub open spec fn step_listen_update_other(
    pre: WorldManager,
    source: PeerId,
    c: ChunkCoord,
    delta_w: Seq<(u16, Pixel)>,
    priority: u8,
    take_auth: bool,
    post: WorldManager,
) -> bool {
    if take_auth {
        &&& listen_update_frame(pre, post)
        &&& post.last_request_priority == pre.last_request_priority
        &&& if source != pre.my_peer_id {
            &&& post.chunk_state == pre.chunk_state
            &&& inbound_delta(pre, post, c, delta_w)
            &&& pushed_msg(
                pre.emitted_messages@,
                post.emitted_messages@,
                Destination::Peer(source),
                WorldNetMessage::LoseAuthority {
                    chunk: c,
                    new_priority: priority,
                    new_authority: source,
                },
            )
        } else {
            &&& post.chunk_state@ == (if pre.chunk_state@.dom().contains(c) {
                pre.chunk_state@.insert(
                    c,
                    after_lose_authority(pre.chunk_state@[c], pre.my_peer_id, priority, source),
                )
            } else {
                pre.chunk_state@
            })
            &&& inbound_delta(pre, post, c, delta_w)
            &&& post.emitted_messages == pre.emitted_messages
        }
    } else {
        post == pre
    }
}

pub open spec fn step_listen_update(
    pre: WorldManager,
    source: PeerId,
    delta_coord: ChunkCoord,
    delta_w: Seq<(u16, Pixel)>,
    priority: u8,
    take_auth: bool,
    post: WorldManager,
) -> bool {
    let c = delta_coord;
    if pre.chunk_state@.dom().contains(c) {
        match pre.chunk_state@[c] {
            ChunkState::Listening { authority, priority: _ } => {
                &&& post.chunk_state@ == pre.chunk_state@.insert(
                    c,
                    ChunkState::Listening { authority, priority },
                )
                &&& inbound_delta(pre, post, c, delta_w)
                &&& listen_update_frame(pre, post)
                &&& post.last_request_priority == pre.last_request_priority
                &&& if take_auth && source != pre.my_peer_id {
                    pushed_msg(
                        pre.emitted_messages@,
                        post.emitted_messages@,
                        Destination::Peer(source),
                        WorldNetMessage::LoseAuthority {
                            chunk: c,
                            new_priority: priority,
                            new_authority: source,
                        },
                    )
                } else {
                    post.emitted_messages == pre.emitted_messages
                }
            },
            ChunkState::WantToGetAuth { authority, auth_priority: _, my_priority } => {
                if priority > my_priority {
                    if take_auth {
                        if !pre.is_host {
                            &&& post.chunk_state@ == pre.chunk_state@.insert(
                                c,
                                ChunkState::WaitingForAuthority,
                            )
                            &&& inbound_delta(pre, post, c, delta_w)
                            &&& listen_update_frame(pre, post)
                            &&& post.last_request_priority@
                                == pre.last_request_priority@.insert(c, my_priority)
                            &&& pushed_msg(
                                pre.emitted_messages@,
                                post.emitted_messages@,
                                Destination::Host,
                                WorldNetMessage::RequestAuthority {
                                    chunk: c,
                                    priority: my_priority,
                                    can_wait: false,
                                },
                            )
                        } else {
                            // the host as contender: its own demand is
                            // handled inline on the state with the bid
                            // recorded, then it waits and absorbs the delta
                            exists|mid0: WorldManager, mid1: WorldManager|
                                {
                                    &&& only_lrp_inserted(pre, mid0, c, my_priority)
                                    &&& #[trigger] step_request_authority(
                                        mid0,
                                        pre.my_peer_id,
                                        c,
                                        my_priority,
                                        false,
                                        mid1,
                                    )
                                    &&& post.chunk_state@ == mid1.chunk_state@.insert(
                                        c,
                                        ChunkState::WaitingForAuthority,
                                    )
                                    &&& post.outbound_model == mid1.outbound_model
                                    &&& post.inbound_model.contents()
                                        == mid1.inbound_model.contents().insert(
                                        c,
                                        apply_writes(mid1.inbound_model.base_pixels(c), delta_w),
                                    )
                                    &&& post.chunk_storage == mid1.chunk_storage
                                    &&& post.authority_map == mid1.authority_map
                                    &&& same_clu(mid1, post)
                                    &&& post.last_request_priority == mid1.last_request_priority
                                    &&& post.emitted_messages == mid1.emitted_messages
                                }
                        }
                    } else {
                        &&& post.chunk_state == pre.chunk_state
                        &&& inbound_delta(pre, post, c, delta_w)
                        &&& listen_update_frame(pre, post)
                        &&& post.last_request_priority == pre.last_request_priority
                        &&& post.emitted_messages == pre.emitted_messages
                    }
                } else {
                    &&& post.chunk_state@ == pre.chunk_state@.insert(
                        c,
                        ChunkState::Listening { authority, priority },
                    )
                    &&& inbound_delta(pre, post, c, delta_w)
                    &&& listen_update_frame(pre, post)
                    &&& post.last_request_priority == pre.last_request_priority
                    &&& post.emitted_messages == pre.emitted_messages
                }
            },
            _ => step_listen_update_other(pre, source, c, delta_w, priority, take_auth, post),
        }
    } else {
        step_listen_update_other(pre, source, c, delta_w, priority, take_auth, post)
    }
}

/// `GetAuthorityFrom`: enter the transfer unless already unloading; an
/// unloading peer relinquishes with no data instead.
pub open spec fn step_get_authority_from(
    pre: WorldManager,
    chunk: ChunkCoord,
    current_authority: PeerId,
    post: WorldManager,
) -> bool {
    if !(pre.chunk_state@.dom().contains(chunk) && pre.chunk_state@[chunk] is UnloadPending) {
        &&& same_models(pre, post)
        &&& post.chunk_storage == pre.chunk_storage
        &&& post.authority_map == pre.authority_map
        &&& same_clu(pre, post)
        &&& if current_authority != pre.my_peer_id {
            &&& post.chunk_state@ == pre.chunk_state@.insert(chunk, ChunkState::Transfer)
            &&& post.last_request_priority == pre.last_request_priority
            &&& pushed_msg(
                pre.emitted_messages@,
                post.emitted_messages@,
                Destination::Peer(current_authority),
                WorldNetMessage::RequestAuthorityTransfer { chunk },
            )
        } else {
            // told to pull from oneself: the immediate transfer request
            // finds no standing authority here and fails straight back
            // into a plain request at the remembered priority
            &&& post.chunk_state@ == pre.chunk_state@.insert(
                chunk,
                ChunkState::RequestAuthority {
                    priority: if pre.last_request_priority@.dom().contains(chunk) {
                        pre.last_request_priority@[chunk]
                    } else {
                        255
                    },
                    can_wait: true,
                },
            )
            &&& post.last_request_priority == pre.last_request_priority
            &&& post.emitted_messages == pre.emitted_messages
        }
    } else {
        if !pre.is_host {
            &&& same_core(pre, post)
            &&& pushed_one(pre.emitted_messages@, post.emitted_messages@)
            &&& post.emitted_messages@.last().dst == Destination::Host
            &&& post.emitted_messages@.last().msg matches WorldNetMessage::RelinquishAuthority {
                chunk: c,
                chunk_data: d,
                world_num: w,
            } && c == chunk && d is None && w == pre.world_num
        } else {
            step_relinquish_authority(pre, pre.my_peer_id, chunk, None, pre.world_num, post)
        }
    }
}

/// `RequestAuthorityTransfer`: a standing authority hands over its state and
/// listener set, updates the host's storage, and unloads; anyone else
/// reports failure.
pub open spec fn step_request_transfer(
    pre: WorldManager,
    source: PeerId,
    chunk: ChunkCoord,
    post: WorldManager,
) -> bool {
    if pre.chunk_state@.dom().contains(chunk) && pre.chunk_state@[chunk] matches
        ChunkState::Authority { .. } {
        if source != pre.my_peer_id {
            &&& (pre.chunk_state@[chunk] matches ChunkState::Authority { listeners: l0, .. } ==> {
                &&& post.chunk_state@ == pre.chunk_state@.insert(chunk, ChunkState::UnloadPending)
                &&& same_models(pre, post)
                &&& post.authority_map == pre.authority_map
                &&& same_clu(pre, post)
                &&& post.last_request_priority == pre.last_request_priority
                &&& if pre.is_host {
                    // The storage update is handled inline.
                    &&& pushed_one(pre.emitted_messages@, post.emitted_messages@)
                    &&& is_transfer_ok(
                        post.emitted_messages@.last(),
                        source,
                        chunk,
                        outbound_view(pre, chunk),
                        l0@,
                    )
                    &&& match outbound_view(pre, chunk) {
                        Some(d) => exists|dd: ChunkData|
                            dd@ == d && post.chunk_storage@ == pre.chunk_storage@.insert(
                                chunk,
                                dd,
                            ),
                        None => post.chunk_storage == pre.chunk_storage,
                    }
                } else {
                    &&& post.chunk_storage == pre.chunk_storage
                    &&& pushed_two(pre.emitted_messages@, post.emitted_messages@)
                    &&& is_transfer_ok(
                        post.emitted_messages@[post.emitted_messages@.len() - 2],
                        source,
                        chunk,
                        outbound_view(pre, chunk),
                        l0@,
                    )
                    &&& is_update_storage(
                        post.emitted_messages@.last(),
                        chunk,
                        outbound_view(pre, chunk),
                        pre.world_num,
                    )
                }
            })
        } else {
            // pulling from oneself: the hand-off is handled inline — the
            // models absorb the outbound data and every listener is told —
            // and then the unload wins over the freshly stood-up authority
            &&& (pre.chunk_state@[chunk] matches ChunkState::Authority { listeners: l0, .. } ==> {
                &&& models_absorbed(pre, post, chunk, outbound_view(pre, chunk))
                &&& post.chunk_state@ == pre.chunk_state@.insert(chunk, ChunkState::UnloadPending)
                &&& post.authority_map == pre.authority_map
                &&& same_clu(pre, post)
                &&& post.last_request_priority@ == pre.last_request_priority@.remove(chunk)
                &&& (if pre.is_host {
                    &&& post.emitted_messages@ == pre.emitted_messages@ + notify_seq(
                        l0@,
                        pre.my_peer_id,
                        chunk,
                    )
                    &&& (match outbound_view(pre, chunk) {
                        Some(d) => exists|dd: ChunkData|
                            dd@ == d && post.chunk_storage@ == pre.chunk_storage@.insert(
                                chunk,
                                dd,
                            ),
                        None => post.chunk_storage == pre.chunk_storage,
                    })
                } else {
                    &&& post.chunk_storage == pre.chunk_storage
                    &&& post.emitted_messages@.len() == pre.emitted_messages@.len() + notify_seq(
                        l0@,
                        pre.my_peer_id,
                        chunk,
                    ).len() + 1
                    &&& (forall|i: int|
                        0 <= i < pre.emitted_messages@.len() + notify_seq(
                            l0@,
                            pre.my_peer_id,
                            chunk,
                        ).len() ==> #[trigger] post.emitted_messages@[i] == (
                        pre.emitted_messages@ + notify_seq(l0@, pre.my_peer_id, chunk))[i])
                    &&& is_update_storage(
                        post.emitted_messages@.last(),
                        chunk,
                        outbound_view(pre, chunk),
                        pre.world_num,
                    )
                })
            })
        }
    } else {
        &&& same_models(pre, post)
        &&& post.chunk_storage == pre.chunk_storage
        &&& post.authority_map == pre.authority_map
        &&& same_clu(pre, post)
        &&& if source != pre.my_peer_id {
            &&& post.chunk_state == pre.chunk_state
            &&& post.last_request_priority == pre.last_request_priority
            &&& pushed_msg(
                pre.emitted_messages@,
                post.emitted_messages@,
                Destination::Peer(source),
                WorldNetMessage::TransferFailed { chunk },
            )
        } else {
            step_transfer_failed(pre, chunk, post)
        }
    }
}

/// `TransferOk`: absorb the handed-over state, redirect every listener, and
/// stand up as authority over exactly that listener set.
pub open spec fn step_transfer_ok(
    pre: WorldManager,
    chunk: ChunkCoord,
    data: Option<Seq<Pixel>>,
    listeners: Seq<PeerId>,
    post: WorldManager,
) -> bool {
    &&& models_absorbed(pre, post, chunk, data)
    &&& post.chunk_state@.dom() == pre.chunk_state@.dom().insert(chunk)
    &&& (post.chunk_state@[chunk] matches ChunkState::Authority {
        listeners: l1,
        priority: p1,
        new_authority: na1,
        stop_sending: ss1,
    } && l1@ == listeners && p1 == (if pre.last_request_priority@.dom().contains(chunk) {
        pre.last_request_priority@[chunk]
    } else {
        0
    }) && na1 is None && ss1 == false)
    &&& forall|x: ChunkCoord|
        x != chunk && pre.chunk_state@.dom().contains(x) ==> post.chunk_state@[x]
            == pre.chunk_state@[x]
    &&& post.last_request_priority@ == pre.last_request_priority@.remove(chunk)
    &&& post.chunk_storage == pre.chunk_storage
    &&& post.authority_map == pre.authority_map
    &&& same_clu(pre, post)
    &&& post.emitted_messages@ == pre.emitted_messages@ + notify_seq(
        listeners,
        pre.my_peer_id,
        chunk,
    )
}

/// `TransferFailed`: fall back to a plain request at the remembered
/// priority.
pub open spec fn step_transfer_failed(pre: WorldManager, chunk: ChunkCoord, post: WorldManager) -> bool {
    &&& post.chunk_state@ == pre.chunk_state@.insert(
        chunk,
        ChunkState::RequestAuthority {
            priority: if pre.last_request_priority@.dom().contains(chunk) {
                pre.last_request_priority@[chunk]
            } else {
                255
            },
            can_wait: true,
        },
    )
    &&& same_models(pre, post)
    &&& post.chunk_storage == pre.chunk_storage
    &&& post.authority_map == pre.authority_map
    &&& same_clu(pre, post)
    &&& post.last_request_priority == pre.last_request_priority
    &&& post.emitted_messages == pre.emitted_messages
}

/// `NotifyNewAuthority`: a listener rebinds to the sender.
pub open spec fn step_notify_new_authority(
    pre: WorldManager,
    source: PeerId,
    chunk: ChunkCoord,
    post: WorldManager,
) -> bool {
    if pre.chunk_state@.dom().contains(chunk) {
        match pre.chunk_state@[chunk] {
            ChunkState::Listening { authority: _, priority } => {
                &&& post.chunk_state@ == pre.chunk_state@.insert(
                    chunk,
                    ChunkState::Listening { authority: source, priority },
                )
                &&& same_models(pre, post)
                &&& post.chunk_storage == pre.chunk_storage
                &&& post.authority_map == pre.authority_map
                &&& same_clu(pre, post)
                &&& post.last_request_priority == pre.last_request_priority
                &&& post.emitted_messages == pre.emitted_messages
            },
            _ => post == pre,
        }
    } else {
        post == pre
    }
}

/// One step of `ChunkPacket` absorption: listeners track the priority and
/// absorb; a contender whose bid no longer beats the incoming priority
/// settles back into listening; everyone else skips the delta.
pub open spec fn packet_apply_one(
    cs: Map<ChunkCoord, ChunkState>,
    inb: Map<ChunkCoord, Seq<Pixel>>,
    coord: ChunkCoord,
    w: Seq<(u16, Pixel)>,
    pri: u8,
) -> (Map<ChunkCoord, ChunkState>, Map<ChunkCoord, Seq<Pixel>>) {
    let base = if inb.dom().contains(coord) {
        inb[coord]
    } else {
        crate::model::unknown_chunk()
    };
    if cs.dom().contains(coord) {
        match cs[coord] {
            ChunkState::Listening { authority, priority: _ } => (
                cs.insert(coord, ChunkState::Listening { authority, priority: pri }),
                inb.insert(coord, apply_writes(base, w)),
            ),
            ChunkState::WantToGetAuth { authority, auth_priority: _, my_priority } => {
                // a contender still listens: the delta lands either way
                if pri <= my_priority {
                    (
                        cs.insert(coord, ChunkState::Listening { authority, priority: pri }),
                        inb.insert(coord, apply_writes(base, w)),
                    )
                } else {
                    (cs, inb.insert(coord, apply_writes(base, w)))
                }
            },
            _ => (cs, inb),
        }
    } else {
        (cs, inb)
    }
}

/// The effect of a whole packet, delta by delta in order.
pub open spec fn packet_fold(
    cs: Map<ChunkCoord, ChunkState>,
    inb: Map<ChunkCoord, Seq<Pixel>>,
    pkt: Seq<(ChunkDelta, u8)>,
) -> (Map<ChunkCoord, ChunkState>, Map<ChunkCoord, Seq<Pixel>>)
    decreases pkt.len(),
{
    if pkt.len() == 0 {
        (cs, inb)
    } else {
        let prev = packet_fold(cs, inb, pkt.drop_last());
        packet_apply_one(
            prev.0,
            prev.1,
            pkt.last().0.chunk_coord,
            pkt.last().0.writes@,
            pkt.last().1,
        )
    }
}

/// `ChunkPacket`: the batched deltas, absorbed in order, no emissions.
pub open spec fn step_chunk_packet(
    pre: WorldManager,
    pkt: Seq<(ChunkDelta, u8)>,
    post: WorldManager,
) -> bool {
    let folded = packet_fold(pre.chunk_state@, pre.inbound_model.contents(), pkt);
    &&& post.chunk_state@ == folded.0
    &&& post.inbound_model.contents() == folded.1
    &&& post.outbound_model == pre.outbound_model
    &&& post.chunk_storage == pre.chunk_storage
    &&& post.authority_map == pre.authority_map
    &&& same_clu(pre, post)
    &&& post.last_request_priority == pre.last_request_priority
    &&& post.emitted_messages == pre.emitted_messages
}

/// The transition relation of `handle_msg`: one case per wire message.
pub open spec fn step(
    pre: WorldManager,
    source: PeerId,
    msg: WorldNetMessage,
    post: WorldManager,
) -> bool {
    match msg {
        WorldNetMessage::RequestAuthority { chunk, priority, can_wait } => step_request_authority(
            pre,
            source,
            chunk,
            priority,
            can_wait,
            post,
        ),
        WorldNetMessage::AskForAuthority { chunk, priority } => step_ask_for_authority(
            pre,
            chunk,
            priority,
            post,
        ),
        WorldNetMessage::LoseAuthority { chunk, new_priority, new_authority } => step_lose_authority(
            pre,
            chunk,
            new_priority,
            new_authority,
            post,
        ),
        WorldNetMessage::ChangePriority { chunk, priority } => step_change_priority(
            pre,
            source,
            chunk,
            priority,
            post,
        ),
        WorldNetMessage::GotAuthority { chunk, chunk_data, priority } => step_got_authority(
            pre,
            chunk,
            opt_data_view(chunk_data),
            priority,
            post,
        ),
        WorldNetMessage::UpdateStorage { chunk, chunk_data, world_num } => step_update_storage(
            pre,
            chunk,
            chunk_data,
            world_num,
            post,
        ),
        WorldNetMessage::RelinquishAuthority { chunk, chunk_data, world_num } => step_relinquish_authority(
            pre,
            source,
            chunk,
            chunk_data,
            world_num,
            post,
        ),
        WorldNetMessage::UnloadChunk { chunk } => step_unload(pre, chunk, post),
        WorldNetMessage::AuthorityAlreadyTaken { chunk, authority } => step_authority_already_taken(
            pre,
            chunk,
            authority,
            post,
        ),
        WorldNetMessage::ListenRequest { chunk } => step_listen_request(pre, source, chunk, post),
        WorldNetMessage::ListenStopRequest { chunk } => step_listen_stop(pre, source, chunk, post),
        WorldNetMessage::ListenInitialResponse { chunk, chunk_data, priority } => step_listen_initial(
            pre,
            source,
            chunk,
            opt_data_view(chunk_data),
            priority,
            post,
        ),
        WorldNetMessage::ListenUpdate { delta, priority, take_auth } => step_listen_update(
            pre,
            source,
            delta.chunk_coord,
            delta.writes@,
            priority,
            take_auth,
            post,
        ),
        WorldNetMessage::ChunkPacket { chunkpacket } => step_chunk_packet(pre, chunkpacket@, post),
        WorldNetMessage::ListenAuthorityRelinquished { chunk } => step_unload(pre, chunk, post),
        WorldNetMessage::GetAuthorityFrom { chunk, current_authority } => step_get_authority_from(
            pre,
            chunk,
            current_authority,
            post,
        ),
        WorldNetMessage::RequestAuthorityTransfer { chunk } => step_request_transfer(
            pre,
            source,
            chunk,
            post,
        ),
        WorldNetMessage::TransferOk { chunk, chunk_data, listeners } => step_transfer_ok(
            pre,
            chunk,
            opt_data_view(chunk_data),
            listeners@,
            post,
        ),
        WorldNetMessage::TransferFailed { chunk } => step_transfer_failed(pre, chunk, post),
        WorldNetMessage::NotifyNewAuthority { chunk } => step_notify_new_authority(
            pre,
            source,
            chunk,
            post,
        ),
    }
}

/// What `emit_msg` does: deliver inline when self-addressed, else queue.
pub open spec fn step_emit(
    pre: WorldManager,
    dst: Destination,
    msg: WorldNetMessage,
    post: WorldManager,
) -> bool {
    if sent_to_self(pre, dst) {
        step(pre, pre.my_peer_id, msg, post)
    } else {
        &&& same_core(pre, post)
        &&& pushed_msg(pre.emitted_messages@, post.emitted_messages@, dst, msg)
    }
}

/// A broadcast reaches every peer, the sender included: the message is
/// handled on this peer inline, and one wire copy is queued for the rest.
pub open spec fn step_broadcast(
    pre: WorldManager,
    msg: WorldNetMessage,
    post: WorldManager,
) -> bool {
    exists|mid: WorldManager|
        {
            &&& #[trigger] step(pre, pre.my_peer_id, msg, mid)
            &&& same_core(mid, post)
            &&& pushed_msg(
                mid.emitted_messages@,
                post.emitted_messages@,
                Destination::Broadcast,
                msg,
            )
        }
}

/// Inserting one well-formed state keeps the state table well formed.
pub proof fn lemma_cs_insert_wf(m: Map<ChunkCoord, ChunkState>, c: ChunkCoord, v: ChunkState)
    requires
        forall|x: ChunkCoord| m.dom().contains(x) ==> (#[trigger] m[x]).wf(),
        v.wf(),
    ensures
        forall|x: ChunkCoord|
            m.insert(c, v).dom().contains(x) ==> (#[trigger] m.insert(c, v)[x]).wf(),
{
    assert forall|x: ChunkCoord|
        m.insert(c, v).dom().contains(x) implies (#[trigger] m.insert(c, v)[x]).wf() by {
        if x != c {
            assert(m[x].wf());
        }
    }
}

/// Inserting one well-formed snapshot keeps the storage well formed.
pub proof fn lemma_st_insert_wf(m: Map<ChunkCoord, ChunkData>, c: ChunkCoord, v: ChunkData)
    requires
        forall|x: ChunkCoord| m.dom().contains(x) ==> (#[trigger] m[x]).wf(),
        v.wf(),
    ensures
        forall|x: ChunkCoord|
            m.insert(c, v).dom().contains(x) ==> (#[trigger] m.insert(c, v)[x]).wf(),
{
    assert forall|x: ChunkCoord|
        m.insert(c, v).dom().contains(x) implies (#[trigger] m.insert(c, v)[x]).wf() by {
        if x != c {
            assert(m[x].wf());
        }
    }
}

impl WorldManager {
    /// Deliver one message: inline when it addresses this peer itself,
    /// queued otherwise. Every broadcast goes through `emit_broadcast`,
    /// whose contract also covers the local delivery.
    pub(crate) fn emit_msg(&mut self, dst: Destination, msg: WorldNetMessage)
        requires
            old(self).wf(),
            msg.wf(),
        ensures
            final(self).wf(),
            same_config(*old(self), *final(self)),
            emits_kept(old(self).emitted_messages@, final(self).emitted_messages@),
            step_emit(*old(self), dst, msg, *final(self)),
        decreases msg_rank(msg), 3nat,
    {
        if (self.is_host && dst == Destination::Host) || dst == Destination::Peer(
            self.my_peer_id,
        ) {
            let me = self.my_peer_id;
            self.handle_msg(me, msg);
            return;
        }
        self.emitted_messages.push(MessageRequest { dst, msg });
    }

    /// Broadcast one message: a broadcast addresses everyone, this peer
    /// included, so the message is handled here inline and one wire copy is
    /// queued for the others. The two parameters are two copies of the same
    /// value, one consumed by each half.
    pub(crate) fn emit_broadcast(&mut self, local: WorldNetMessage, wire: WorldNetMessage)
        requires
            old(self).wf(),
            local.wf(),
            wire == local,
        ensures
            final(self).wf(),
            same_config(*old(self), *final(self)),
            emits_kept(old(self).emitted_messages@, final(self).emitted_messages@),
            step_broadcast(*old(self), local, *final(self)),
        decreases msg_rank(local), 4nat,
    {
        let me = self.my_peer_id;
        self.handle_msg(me, local);
        let ghost mid = *self;
        self.emitted_messages.push(MessageRequest { dst: Destination::Broadcast, msg: wire });
        proof {
            assert(step(*old(self), old(self).my_peer_id, local, mid) && same_core(
                mid,
                *self,
            ) && pushed_msg(
                mid.emitted_messages@,
                self.emitted_messages@,
                Destination::Broadcast,
                local,
            ));
        }
    }

    /// Process one inbound message from `source`. Self-addressed emissions
    /// recurse into this handler, so the whole exchange a message sets off
    /// on this peer happens before the call returns.
    pub fn handle_msg(&mut self, source: PeerId, msg: WorldNetMessage)
        requires
            old(self).wf(),
            msg.wf(),
        ensures
            final(self).wf(),
            same_config(*old(self), *final(self)),
            emits_kept(old(self).emitted_messages@, final(self).emitted_messages@),
            step(*old(self), source, msg, *final(self)),
        decreases msg_rank(msg), 2nat,
    {
        match msg {
            WorldNetMessage::RequestAuthority { chunk, priority, can_wait } => {
                self.handle_request_authority(source, chunk, priority, can_wait);
            },
            WorldNetMessage::AskForAuthority { chunk, priority } => {
                self.emit_msg(
                    Destination::Host,
                    WorldNetMessage::RequestAuthority { chunk, priority, can_wait: false },
                );
                let ghost mid = *self;
                self.chunk_state.insert(chunk, ChunkState::WaitingForAuthority);
                proof {
                    if old(self).is_host {
                        assert(step_request_authority(
                            *old(self),
                            old(self).my_peer_id,
                            chunk,
                            priority,
                            false,
                            mid,
                        ));
                    }
                }
            },
            WorldNetMessage::LoseAuthority { chunk, new_priority, new_authority } => {
                self.handle_lose_authority(chunk, new_priority, new_authority);
            },
            WorldNetMessage::ChangePriority { chunk, priority } => {
                if !self.is_host {
                    return;
                }
                let keep = match self.authority_map.get(chunk) {
                    Some(a) => a.0 == source,
                    None => false,
                };
                if keep {
                    self.authority_map.insert(chunk, (source, priority));
                }
            },
            WorldNetMessage::GotAuthority { chunk, chunk_data, priority } => {
                self.chunk_state.insert(chunk, ChunkState::authority(priority));
                self.last_request_priority.remove(chunk);
                if let Some(d) = &chunk_data {
                    self.inbound_model.apply_chunk_data(chunk, d);
                    self.outbound_model.apply_chunk_data(chunk, d);
                }
                proof {
                    lemma_cs_insert_wf(
                        old(self).chunk_state@,
                        chunk,
                        final(self).chunk_state@[chunk],
                    );
                    assert(final(self).chunk_state@.dom() =~= old(
                        self,
                    ).chunk_state@.dom().insert(chunk));
                }
            },
            WorldNetMessage::UpdateStorage { chunk, chunk_data, world_num } => {
                if !self.is_host {
                    return;
                }
                if world_num != self.world_num {
                    return;
                }
                if let Some(d) = chunk_data {
                    proof {
                        lemma_st_insert_wf(old(self).chunk_storage@, chunk, d);
                    }
                    self.chunk_storage.insert(chunk, d);
                }
            },
            WorldNetMessage::RelinquishAuthority { chunk, chunk_data, world_num } => {
                if !self.is_host {
                    return;
                }
                if world_num != self.world_num {
                    return;
                }
                let mismatch = match self.authority_map.get(chunk) {
                    Some(a) => a.0 != source,
                    None => false,
                };
                if mismatch {
                    return;
                }
                self.authority_map.remove(chunk);
                if let Some(d) = chunk_data {
                    proof {
                        lemma_st_insert_wf(self.chunk_storage@, chunk, d);
                    }
                    self.chunk_storage.insert(chunk, d);
                }
                let ghost s1 = *self;
                self.emit_broadcast(
                    WorldNetMessage::ListenAuthorityRelinquished { chunk },
                    WorldNetMessage::ListenAuthorityRelinquished { chunk },
                );
                proof {
                    let lar = WorldNetMessage::ListenAuthorityRelinquished { chunk };
                    let mid = choose|mid: WorldManager|
                        {
                            &&& #[trigger] step(s1, s1.my_peer_id, lar, mid)
                            &&& same_core(mid, *final(self))
                            &&& pushed_msg(
                                mid.emitted_messages@,
                                final(self).emitted_messages@,
                                Destination::Broadcast,
                                lar,
                            )
                        };
                    assert(final(self).chunk_state@ =~= old(self).chunk_state@.insert(
                        chunk,
                        ChunkState::UnloadPending,
                    ));
                }
            },
            WorldNetMessage::UnloadChunk { chunk } => {
                self.chunk_state.insert(chunk, ChunkState::UnloadPending);
            },
            WorldNetMessage::AuthorityAlreadyTaken { chunk, authority } => {
                self.emit_msg(
                    Destination::Peer(authority),
                    WorldNetMessage::ListenRequest { chunk },
                );
                let ghost mid = *self;
                self.last_request_priority.remove(chunk);
                proof {
                    if authority == old(self).my_peer_id {
                        assert(step_listen_request(
                            *old(self),
                            old(self).my_peer_id,
                            chunk,
                            mid,
                        ));
                    }
                }
            },
            WorldNetMessage::ListenRequest { chunk } => {
                self.handle_listen_request(source, chunk);
            },
            WorldNetMessage::ListenStopRequest { chunk } => {
                let is_auth = match self.chunk_state.get(chunk) {
                    Some(ChunkState::Authority { .. }) => true,
                    _ => false,
                };
                if !is_auth {
                    return;
                }
                let st = match self.chunk_state.take(chunk) {
                    Some(s) => s,
                    None => vstd::pervasive::unreached(),
                };
                match st {
                    ChunkState::Authority { listeners, priority, new_authority, stop_sending } => {
                        let mut ls = listeners;
                        ls.remove(source);
                        let v = ChunkState::Authority {
                            listeners: ls,
                            priority,
                            new_authority,
                            stop_sending,
                        };
                        proof {
                            lemma_cs_insert_wf(old(self).chunk_state@, chunk, v);
                        }
                        self.chunk_state.insert(chunk, v);
                        proof {
                            assert(final(self).chunk_state@ =~= old(self).chunk_state@.insert(
                                chunk,
                                v,
                            ));
                            assert(final(self).chunk_state@.dom() =~= old(
                                self,
                            ).chunk_state@.dom());
                        }
                    },
                    _ => {
                        proof {
                            assert(false);
                        }
                    },
                }
            },
            WorldNetMessage::ListenInitialResponse { chunk, chunk_data, priority } => {
                self.chunk_state.insert(
                    chunk,
                    ChunkState::Listening { authority: source, priority },
                );
                if let Some(d) = &chunk_data {
                    self.inbound_model.apply_chunk_data(chunk, d);
                }
                proof {
                    lemma_cs_insert_wf(
                        old(self).chunk_state@,
                        chunk,
                        ChunkState::Listening { authority: source, priority },
                    );
                }
            },
            WorldNetMessage::ListenUpdate { delta, priority, take_auth } => {
                self.handle_listen_update(source, delta, priority, take_auth);
            },
            WorldNetMessage::ChunkPacket { chunkpacket } => {
                self.handle_chunk_packet(chunkpacket);
            },
            WorldNetMessage::ListenAuthorityRelinquished { chunk } => {
                self.chunk_state.insert(chunk, ChunkState::UnloadPending);
            },
            WorldNetMessage::GetAuthorityFrom { chunk, current_authority } => {
                let unloading = match self.chunk_state.get(chunk) {
                    Some(ChunkState::UnloadPending) => true,
                    _ => false,
                };
                if !unloading {
                    self.chunk_state.insert(chunk, ChunkState::Transfer);
                    let ghost mid = *self;
                    self.emit_msg(
                        Destination::Peer(current_authority),
                        WorldNetMessage::RequestAuthorityTransfer { chunk },
                    );
                    proof {
                        if current_authority == old(self).my_peer_id {
                            assert(step_request_transfer(
                                mid,
                                old(self).my_peer_id,
                                chunk,
                                *final(self),
                            ));
                            assert(final(self).chunk_state@ =~= old(self).chunk_state@.insert(
                                chunk,
                                ChunkState::RequestAuthority {
                                    priority: if old(self).last_request_priority@.dom().contains(
                                        chunk,
                                    ) {
                                        old(self).last_request_priority@[chunk]
                                    } else {
                                        255
                                    },
                                    can_wait: true,
                                },
                            ));
                        }
                    }
                } else {
                    let wn = self.world_num;
                    self.emit_msg(
                        Destination::Host,
                        WorldNetMessage::RelinquishAuthority {
                            chunk,
                            chunk_data: None,
                            world_num: wn,
                        },
                    );
                }
            },
            WorldNetMessage::RequestAuthorityTransfer { chunk } => {
                self.handle_request_transfer(source, chunk);
            },
            WorldNetMessage::TransferOk { chunk, chunk_data, listeners } => {
                self.handle_transfer_ok(chunk, chunk_data, listeners);
            },
            WorldNetMessage::TransferFailed { chunk } => {
                let priority = match self.last_request_priority.get_copy(chunk) {
                    Some(p) => p,
                    None => 255,
                };
                self.chunk_state.insert(
                    chunk,
                    ChunkState::RequestAuthority { priority, can_wait: true },
                );
            },
            WorldNetMessage::NotifyNewAuthority { chunk } => {
                let rebind = match self.chunk_state.get(chunk) {
                    Some(ChunkState::Listening { priority, .. }) => Some(*priority),
                    _ => None,
                };
                if let Some(p) = rebind {
                    self.chunk_state.insert(
                        chunk,
                        ChunkState::Listening { authority: source, priority: p },
                    );
                }
            },
        }
    }

    /// Host side of `RequestAuthority`; see `step_request_authority`.
    fn handle_request_authority(
        &mut self,
        source: PeerId,
        chunk: ChunkCoord,
        priority: u8,
        can_wait: bool,
    )
        requires
            old(self).wf(),
        ensures
            final(self).wf(),
            same_config(*old(self), *final(self)),
            emits_kept(old(self).emitted_messages@, final(self).emitted_messages@),
            step_request_authority(*old(self), source, chunk, priority, can_wait, *final(self)),
        decreases 4nat, 1nat,
    {
        if !self.is_host {
            return;
        }
        match self.authority_map.get_copy(chunk) {
            Some((authority, priority_state)) => {
                if source == authority {
                    self.emit_got_authority(chunk, source, priority);
                } else if priority_state > priority && !can_wait {
                    self.emit_transfer_authority(chunk, source, priority, authority);
                } else {
                    self.emit_msg(
                        Destination::Peer(source),
                        WorldNetMessage::AuthorityAlreadyTaken { chunk, authority },
                    );
                }
            },
            None => {
                self.emit_got_authority(chunk, source, priority);
            },
        }
    }

    /// Record the grant in the map and deliver it, with the stored data iff
    /// the owner changed; see `step_emit_got_authority`.
    fn emit_got_authority(&mut self, chunk: ChunkCoord, source: PeerId, priority: u8)
        requires
            old(self).wf(),
        ensures
            final(self).wf(),
            same_config(*old(self), *final(self)),
            emits_kept(old(self).emitted_messages@, final(self).emitted_messages@),
            step_emit_got_authority(*old(self), chunk, source, priority, *final(self)),
        decreases 1nat, 0nat,
    {
        let auth = self.authority_map.get_copy(chunk);
        self.authority_map.insert(chunk, (source, priority));
        let send_data = match auth {
            Some(a) => a.0 != source,
            None => true,
        };
        let chunk_data = if send_data {
            match self.chunk_storage.get(chunk) {
                Some(d) => Some(d.duplicate()),
                None => None,
            }
        } else {
            None
        };
        self.emit_msg(
            Destination::Peer(source),
            WorldNetMessage::GotAuthority { chunk, chunk_data, priority },
        );
    }

    /// Record the new owner and start the pull; see
    /// `step_emit_transfer_authority`.
    fn emit_transfer_authority(
        &mut self,
        chunk: ChunkCoord,
        source: PeerId,
        priority: u8,
        current_authority: PeerId,
    )
        requires
            old(self).wf(),
        ensures
            final(self).wf(),
            same_config(*old(self), *final(self)),
            emits_kept(old(self).emitted_messages@, final(self).emitted_messages@),
            step_emit_transfer_authority(
                *old(self),
                chunk,
                source,
                priority,
                current_authority,
                *final(self),
            ),
        decreases 3nat, 9nat,
    {
        self.authority_map.insert(chunk, (source, priority));
        let ghost mid = *self;
        self.emit_msg(
            Destination::Peer(source),
            WorldNetMessage::GetAuthorityFrom { chunk, current_authority },
        );
        proof {
            if source == old(self).my_peer_id {
                assert(only_am_inserted(
                    *old(self),
                    mid,
                    chunk,
                    (old(self).my_peer_id, priority),
                ));
                assert(step_get_authority_from(mid, chunk, current_authority, *final(self)));
            }
        }
    }

    /// See `step_lose_authority`.
    fn handle_lose_authority(&mut self, chunk: ChunkCoord, new_priority: u8, new_peer: PeerId)
        requires
            old(self).wf(),
        ensures
            final(self).wf(),
            same_config(*old(self), *final(self)),
            final(self).emitted_messages == old(self).emitted_messages,
            step_lose_authority(*old(self), chunk, new_priority, new_peer, *final(self)),
    {
        let is_auth = match self.chunk_state.get(chunk) {
            Some(ChunkState::Authority { .. }) => true,
            _ => false,
        };
        if !is_auth {
            return;
        }
        let me = self.my_peer_id;
        let st = match self.chunk_state.take(chunk) {
            Some(s) => s,
            None => vstd::pervasive::unreached(),
        };
        let v = match st {
            ChunkState::Authority { listeners, priority, new_authority, stop_sending } => {
                let na = if new_peer == me {
                    None
                } else {
                    match new_authority {
                        Some(n) => if n.1 > new_priority {
                            Some((new_peer, new_priority))
                        } else {
                            Some(n)
                        },
                        None => Some((new_peer, new_priority)),
                    }
                };
                ChunkState::Authority { listeners, priority, new_authority: na, stop_sending }
            },
            _ => vstd::pervasive::unreached(),
        };
        proof {
            lemma_cs_insert_wf(old(self).chunk_state@, chunk, v);
        }
        self.chunk_state.insert(chunk, v);
        proof {
            assert(final(self).chunk_state@ =~= old(self).chunk_state@.insert(chunk, v));
        }
    }

    /// See `step_listen_request`.
    fn handle_listen_request(&mut self, source: PeerId, chunk: ChunkCoord)
        requires
            old(self).wf(),
        ensures
            final(self).wf(),
            same_config(*old(self), *final(self)),
            emits_kept(old(self).emitted_messages@, final(self).emitted_messages@),
            step_listen_request(*old(self), source, chunk, *final(self)),
        decreases 1nat, 1nat,
    {
        let is_auth = match self.chunk_state.get(chunk) {
            Some(ChunkState::Authority { .. }) => true,
            _ => false,
        };
        if !is_auth {
            self.emit_msg(Destination::Peer(source), WorldNetMessage::UnloadChunk { chunk });
            return;
        }
        let st = match self.chunk_state.take(chunk) {
            Some(s) => s,
            None => vstd::pervasive::unreached(),
        };
        match st {
            ChunkState::Authority { listeners, priority, new_authority, stop_sending } => {
                let mut ls = listeners;
                ls.insert(source);
                let v = ChunkState::Authority {
                    listeners: ls,
                    priority,
                    new_authority,
                    stop_sending,
                };
                proof {
                    lemma_cs_insert_wf(old(self).chunk_state@, chunk, v);
                }
                self.chunk_state.insert(chunk, v);
                let chunk_data = self.outbound_model.get_chunk_data(chunk);
                self.emit_msg(
                    Destination::Peer(source),
                    WorldNetMessage::ListenInitialResponse { chunk, chunk_data, priority },
                );
                proof {
                    if source != old(self).my_peer_id {
                        assert(final(self).chunk_state@.dom() =~= old(self).chunk_state@.dom());
                    } else {
                        assert(final(self).chunk_state@ =~= old(self).chunk_state@.insert(
                            chunk,
                            ChunkState::Listening {
                                authority: old(self).my_peer_id,
                                priority: old(self).chunk_state@[chunk]->Authority_priority,
                            },
                        ));
                    }
                }
            },
            _ => {
                proof {
                    assert(false);
                }
            },
        }
    }

    /// See `step_listen_update`.
    fn handle_listen_update(
        &mut self,
        source: PeerId,
        delta: ChunkDelta,
        priority: u8,
        take_auth: bool,
    )
        requires
            old(self).wf(),
            delta.wf(),
        ensures
            final(self).wf(),
            same_config(*old(self), *final(self)),
            emits_kept(old(self).emitted_messages@, final(self).emitted_messages@),
            step_listen_update(
                *old(self),
                source,
                delta.chunk_coord,
                delta.writes@,
                priority,
                take_auth,
                *final(self),
            ),
        decreases 5nat, 1nat,
    {
        let c = delta.chunk_coord;
        let mut listening: Option<PeerId> = None;
        let mut contender: Option<(PeerId, u8)> = None;
        match self.chunk_state.get(c) {
            Some(ChunkState::Listening { authority, .. }) => {
                listening = Some(*authority);
            },
            Some(ChunkState::WantToGetAuth { authority, my_priority, .. }) => {
                contender = Some((*authority, *my_priority));
            },
            _ => {},
        }
        if let Some(authority) = listening {
            self.chunk_state.insert(c, ChunkState::Listening { authority, priority });
            if take_auth {
                self.emit_msg(
                    Destination::Peer(source),
                    WorldNetMessage::LoseAuthority {
                        chunk: c,
                        new_priority: priority,
                        new_authority: source,
                    },
                );
            }
            self.inbound_model.apply_chunk_delta(&delta);
        } else if let Some((authority, my_priority)) = contender {
            if priority > my_priority {
                if take_auth {
                    // remember the bid so the transfer stands up at it
                    self.last_request_priority.insert(c, my_priority);
                    let ghost mid0 = *self;
                    self.emit_msg(
                        Destination::Host,
                        WorldNetMessage::RequestAuthority {
                            chunk: c,
                            priority: my_priority,
                            can_wait: false,
                        },
                    );
                    let ghost mid1 = *self;
                    self.chunk_state.insert(c, ChunkState::WaitingForAuthority);
                    self.inbound_model.apply_chunk_delta(&delta);
                    proof {
                        if old(self).is_host {
                            assert(only_lrp_inserted(*old(self), mid0, c, my_priority));
                            assert(step_request_authority(
                                mid0,
                                old(self).my_peer_id,
                                c,
                                my_priority,
                                false,
                                mid1,
                            ));
                        }
                    }
                } else {
                    self.inbound_model.apply_chunk_delta(&delta);
                }
            } else {
                self.chunk_state.insert(c, ChunkState::Listening { authority, priority });
                self.inbound_model.apply_chunk_delta(&delta);
            }
        } else {
            if take_auth {
                self.emit_msg(
                    Destination::Peer(source),
                    WorldNetMessage::LoseAuthority {
                        chunk: c,
                        new_priority: priority,
                        new_authority: source,
                    },
                );
                self.inbound_model.apply_chunk_delta(&delta);
                proof {
                    if source == old(self).my_peer_id && old(self).chunk_state@.dom().contains(
                        c,
                    ) {
                        let st = old(self).chunk_state@[c];
                        if !(st is Authority) {
                            assert(old(self).chunk_state@.insert(
                                c,
                                after_lose_authority(st, old(self).my_peer_id, priority, source),
                            ) =~= old(self).chunk_state@);
                        }
                    }
                }
            }
        }
    }

    /// See `step_chunk_packet`; the batch is absorbed in order, without any
    /// emission.
    fn handle_chunk_packet(&mut self, chunkpacket: Vec<(ChunkDelta, u8)>)
        requires
            old(self).wf(),
            forall|i: int|
                0 <= i < chunkpacket@.len() ==> (#[trigger] chunkpacket@[i]).0.wf(),
        ensures
            final(self).wf(),
            same_config(*old(self), *final(self)),
            emits_kept(old(self).emitted_messages@, final(self).emitted_messages@),
            step_chunk_packet(*old(self), chunkpacket@, *final(self)),
    {
        let ghost pkt = chunkpacket@;
        let mut rest = chunkpacket;
        let n = rest.len();
        let mut i: usize = 0;
        proof {
            assert(rest@ =~= pkt.skip(0));
            assert(pkt.take(0) =~= Seq::<(ChunkDelta, u8)>::empty());
        }
        while i < n
            invariant
                self.wf(),
                same_config(*old(self), *self),
                rest@ == pkt.skip(i as int),
                n == pkt.len(),
                i <= n,
                forall|j: int| 0 <= j < pkt.len() ==> (#[trigger] pkt[j]).0.wf(),
                ({
                    let folded = packet_fold(
                        old(self).chunk_state@,
                        old(self).inbound_model.contents(),
                        pkt.take(i as int),
                    );
                    self.chunk_state@ == folded.0 && self.inbound_model.contents() == folded.1
                }),
                self.outbound_model == old(self).outbound_model,
                self.chunk_storage == old(self).chunk_storage,
                self.authority_map == old(self).authority_map,
                self.chunk_last_update == old(self).chunk_last_update,
                self.last_request_priority == old(self).last_request_priority,
                self.emitted_messages == old(self).emitted_messages,
            decreases n - i,
        {
            let (delta, pri) = rest.remove(0);
            proof {
                assert(pkt.skip(i as int)[0] == pkt[i as int]);
                assert(pkt.skip(i as int).remove(0) =~= pkt.skip(i + 1));
            }
            let c = delta.chunk_coord;
            let mut listening: Option<PeerId> = None;
            let mut contender: Option<(PeerId, u8)> = None;
            match self.chunk_state.get(c) {
                Some(ChunkState::Listening { authority, .. }) => {
                    listening = Some(*authority);
                },
                Some(ChunkState::WantToGetAuth { authority, my_priority, .. }) => {
                    contender = Some((*authority, *my_priority));
                },
                _ => {},
            }
            if let Some(authority) = listening {
                self.chunk_state.insert(c, ChunkState::Listening { authority, priority: pri });
                self.inbound_model.apply_chunk_delta(&delta);
            } else if let Some((authority, my_priority)) = contender {
                if pri <= my_priority {
                    self.chunk_state.insert(
                        c,
                        ChunkState::Listening { authority, priority: pri },
                    );
                }
                self.inbound_model.apply_chunk_delta(&delta);
            }
            proof {
                assert(pkt.take(i + 1).drop_last() =~= pkt.take(i as int));
                assert(pkt.take(i + 1).last() == pkt[i as int]);
            }
            i += 1;
        }
        proof {
            assert(pkt.take(n as int) =~= pkt);
        }
    }

    /// See `step_request_transfer`.
    fn handle_request_transfer(&mut self, source: PeerId, chunk: ChunkCoord)
        requires
            old(self).wf(),
        ensures
            final(self).wf(),
            same_config(*old(self), *final(self)),
            emits_kept(old(self).emitted_messages@, final(self).emitted_messages@),
            step_request_transfer(*old(self), source, chunk, *final(self)),
        decreases 2nat, 1nat,
    {
        let is_auth = match self.chunk_state.get(chunk) {
            Some(ChunkState::Authority { .. }) => true,
            _ => false,
        };
        if !is_auth {
            self.emit_msg(Destination::Peer(source), WorldNetMessage::TransferFailed { chunk });
            return;
        }
        let st = match self.chunk_state.take(chunk) {
            Some(s) => s,
            None => vstd::pervasive::unreached(),
        };
        match st {
            ChunkState::Authority { listeners, .. } => {
                let ghost l0v = listeners@;
                let ghost m1 = *self;
                let chunk_data = self.outbound_model.get_chunk_data(chunk);
                proof {
                    assert(opt_data_view(chunk_data) == outbound_view(*old(self), chunk));
                }
                self.emit_msg(
                    Destination::Peer(source),
                    WorldNetMessage::TransferOk { chunk, chunk_data, listeners },
                );
                let ghost m2 = *self;
                self.chunk_state.insert(chunk, ChunkState::UnloadPending);
                let ghost m3 = *self;
                let chunk_data = self.outbound_model.get_chunk_data(chunk);
                let wn = self.world_num;
                proof {
                    if source == old(self).my_peer_id {
                        assert(step_transfer_ok(
                            m1,
                            chunk,
                            outbound_view(*old(self), chunk),
                            l0v,
                            m2,
                        ));
                        assert(opt_data_view(chunk_data) == outbound_view(*old(self), chunk));
                    }
                }
                self.emit_msg(
                    Destination::Host,
                    WorldNetMessage::UpdateStorage { chunk, chunk_data, world_num: wn },
                );
                proof {
                    if source != old(self).my_peer_id {
                        assert(final(self).chunk_state@ =~= old(self).chunk_state@.insert(
                            chunk,
                            ChunkState::UnloadPending,
                        ));
                    } else {
                        assert(final(self).chunk_state@ =~= old(self).chunk_state@.insert(
                            chunk,
                            ChunkState::UnloadPending,
                        ));
                        if old(self).is_host {
                            assert(final(self).emitted_messages@ =~= old(
                                self,
                            ).emitted_messages@ + notify_seq(
                                l0v,
                                old(self).my_peer_id,
                                chunk,
                            ));
                        }
                    }
                }
            },
            _ => {
                proof {
                    assert(false);
                }
            },
        }
    }

    /// See `step_transfer_ok`.
    fn handle_transfer_ok(
        &mut self,
        chunk: ChunkCoord,
        chunk_data: Option<ChunkData>,
        listeners: PeerSet,
    )
        requires
            old(self).wf(),
            match chunk_data {
                Some(ref d) => d.wf(),
                None => true,
            },
            listeners.wf(),
        ensures
            final(self).wf(),
            same_config(*old(self), *final(self)),
            emits_kept(old(self).emitted_messages@, final(self).emitted_messages@),
            step_transfer_ok(
                *old(self),
                chunk,
                opt_data_view(chunk_data),
                listeners@,
                *final(self),
            ),
        decreases 1nat, 1nat,
    {
        if let Some(d) = &chunk_data {
            self.inbound_model.apply_chunk_data(chunk, d);
            self.outbound_model.apply_chunk_data(chunk, d);
        }
        let ghost mid = *self;
        let n = listeners.len();
        let mut i: usize = 0;
        proof {
            assert(notify_seq(listeners@.take(0), mid.my_peer_id, chunk)
                =~= Seq::<MessageRequest>::empty());
            assert(mid.emitted_messages@ + notify_seq(listeners@.take(0), mid.my_peer_id, chunk)
                =~= mid.emitted_messages@);
        }
        while i < n
            invariant
                self.wf(),
                same_config(mid, *self),
                n == listeners@.len(),
                i <= n,
                self.my_peer_id == mid.my_peer_id,
                self.chunk_state@.dom() == mid.chunk_state@.dom(),
                forall|x: ChunkCoord|
                    x != chunk && mid.chunk_state@.dom().contains(x) ==> self.chunk_state@[x]
                        == mid.chunk_state@[x],
                self.inbound_model == mid.inbound_model,
                self.outbound_model == mid.outbound_model,
                self.chunk_storage == mid.chunk_storage,
                self.authority_map == mid.authority_map,
                self.chunk_last_update == mid.chunk_last_update,
                self.last_request_priority == mid.last_request_priority,
                self.emitted_messages@ == mid.emitted_messages@ + notify_seq(
                    listeners@.take(i as int),
                    mid.my_peer_id,
                    chunk,
                ),
            decreases n - i,
        {
            let p = listeners.at(i);
            let ghost before = *self;
            self.emit_msg(Destination::Peer(p), WorldNetMessage::NotifyNewAuthority { chunk });
            proof {
                assert(listeners@.take(i + 1).drop_last() =~= listeners@.take(i as int));
                assert(listeners@.take(i + 1).last() == listeners@[i as int]);
                if p == mid.my_peer_id {
                    assert(self.emitted_messages@ =~= mid.emitted_messages@ + notify_seq(
                        listeners@.take(i + 1),
                        mid.my_peer_id,
                        chunk,
                    ));
                } else {
                    assert(self.emitted_messages@ =~= mid.emitted_messages@ + notify_seq(
                        listeners@.take(i + 1),
                        mid.my_peer_id,
                        chunk,
                    ));
                }
            }
            i += 1;
        }
        proof {
            assert(listeners@.take(n as int) =~= listeners@);
        }
        let priority = match self.last_request_priority.take(chunk) {
            Some(p) => p,
            None => 0,
        };
        let v = ChunkState::Authority {
            listeners,
            priority,
            new_authority: None,
            stop_sending: false,
        };
        proof {
            lemma_cs_insert_wf(self.chunk_state@, chunk, v);
        }
        self.chunk_state.insert(chunk, v);
        proof {
            assert(final(self).chunk_state@.dom() =~= old(self).chunk_state@.dom().insert(chunk));
        }
    }
}

} // verus!
