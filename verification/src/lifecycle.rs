//! The liveness pass: once per tick, every chunk too far from the player is
//! torn down according to its role, and tombstoned entries are swept out.
//! Also the host's reaction to a peer leaving.

use vstd::prelude::*;

use crate::coords::{ChunkCoord, PeerId};
use crate::manager::{same_config, WorldManager};
use crate::messages::{opt_data_view, Destination, MessageRequest, WorldNetMessage};
use crate::pixel::Pixel;
use crate::protocol::{
    emits_kept, pushed_msg, same_core, same_models, sent_to_self, step, step_emit,
};
use crate::state::ChunkState;

verus! {

pub open spec fn abs_i(i: int) -> int {
    if i < 0 {
        -i
    } else {
        i
    }
}

/// Is chunk `(chx, chy)` too far to keep? Beyond a 5x5 box around both the
/// player and the camera when they disagree; else a 5x5 box around the
/// player for a non-player, a 7x7 box otherwise.
pub open spec fn should_kill_spec(
    my_pos: (i32, i32),
    cam_pos: (i32, i32),
    chx: i32,
    chy: i32,
    is_notplayer: bool,
) -> bool {
    let x = my_pos.0 as int;
    let y = my_pos.1 as int;
    let cx = cam_pos.0 as int;
    let cy = cam_pos.1 as int;
    let hx = chx as int;
    let hy = chy as int;
    if abs_i(x - cx) > 2 || abs_i(y - cy) > 2 {
        !((hx <= x + 2 && hx >= x - 2 && hy <= y + 2 && hy >= y - 2) || (hx <= cx + 2 && hx >= cx
            - 2 && hy <= cy + 2 && hy >= cy - 2))
    } else if is_notplayer {
        !(hx <= x + 2 && hx >= x - 2 && hy <= y + 2 && hy >= y - 2)
    } else {
        !(hx <= x + 3 && hx >= x - 3 && hy <= y + 3 && hy >= y - 3)
    }
}

fn should_kill(my_pos: (i32, i32), cam_pos: (i32, i32), chx: i32, chy: i32, is_notplayer: bool) -> (b:
    bool)
    ensures
        b == should_kill_spec(my_pos, cam_pos, chx, chy, is_notplayer),
{
    let x = my_pos.0 as i64;
    let y = my_pos.1 as i64;
    let cx = cam_pos.0 as i64;
    let cy = cam_pos.1 as i64;
    let hx = chx as i64;
    let hy = chy as i64;
    let dx = if x > cx {
        x - cx
    } else {
        cx - x
    };
    let dy = if y > cy {
        y - cy
    } else {
        cy - y
    };
    if dx > 2 || dy > 2 {
        !((hx <= x + 2 && hx >= x - 2 && hy <= y + 2 && hy >= y - 2) || (hx <= cx + 2 && hx >= cx
            - 2 && hy <= cy + 2 && hy >= cy - 2))
    } else if is_notplayer {
        !(hx <= x + 2 && hx >= x - 2 && hy <= y + 2 && hy >= y - 2)
    } else {
        !(hx <= x + 3 && hx >= x - 3 && hy <= y + 3 && hy >= y - 3)
    }
}

/// Is chunk `c` past its life this tick?
pub open spec fn upd_killed(pre: WorldManager, c: ChunkCoord) -> bool {
    should_kill_spec(pre.my_pos, pre.cam_pos, c.0, c.1, pre.is_notplayer)
}

/// Does chunk `c`'s entry survive the pass?
pub open spec fn upd_kept(pre: WorldManager, c: ChunkCoord) -> bool {
    match pre.chunk_state@[c] {
        ChunkState::RequestAuthority { .. } => true,
        ChunkState::WaitingForAuthority => !upd_killed(pre, c),
        ChunkState::Listening { .. } => !upd_killed(pre, c),
        ChunkState::Authority { .. } => !upd_killed(pre, c),
        ChunkState::WantToGetAuth { .. } => !upd_killed(pre, c),
        ChunkState::UnloadPending => false,
        ChunkState::Transfer => true,
    }
}

/// The entry after the pass, for a surviving chunk.
pub open spec fn upd_value(pre: WorldManager, c: ChunkCoord) -> ChunkState {
    match pre.chunk_state@[c] {
        ChunkState::RequestAuthority { .. } => ChunkState::WaitingForAuthority,
        s => s,
    }
}

/// The condition under which this pass is described exactly: a non-host
/// whose known authorities and pending successors are other peers, so no
/// emission turns back on this peer itself.
pub open spec fn upd_guard(pre: WorldManager) -> bool {
    &&& !pre.is_host
    &&& forall|c: ChunkCoord|
        pre.chunk_state@.dom().contains(c) ==> match pre.chunk_state@[c] {
            ChunkState::Listening { authority, .. } => authority != pre.my_peer_id,
            ChunkState::Authority { new_authority, .. } => match new_authority {
                Some(n) => n.0 != pre.my_peer_id,
                None => true,
            },
            _ => true,
        }
}

/// Is `mr` somewhere at or after `start`?
pub open spec fn contains_msg(s: Seq<MessageRequest>, start: int, mr: MessageRequest) -> bool {
    exists|i: int| start <= i < s.len() && s[i] == mr
}

/// Is a relinquish of `chunk` carrying `data` somewhere at or after `start`?
pub open spec fn contains_relinquish(
    s: Seq<MessageRequest>,
    start: int,
    chunk: ChunkCoord,
    data: Option<Seq<Pixel>>,
    world_num: i32,
) -> bool {
    exists|i: int|
        start <= i < s.len() && (#[trigger] s[i]).dst == Destination::Host && (s[i].msg matches
        WorldNetMessage::RelinquishAuthority { chunk: c, chunk_data: d, world_num: w } && c == chunk
            && opt_data_view(d) == data && w == world_num)
}

/// A queued message stays queued as the queue grows.
proof fn lemma_contains_msg_mono(
    s1: Seq<MessageRequest>,
    s2: Seq<MessageRequest>,
    mr: MessageRequest,
)
    requires
        contains_msg(s1, 0, mr),
        s1.len() <= s2.len(),
        forall|i: int| 0 <= i < s1.len() ==> s2[i] == s1[i],
    ensures
        contains_msg(s2, 0, mr),
{
    let i = choose|i: int| 0 <= i < s1.len() && s1[i] == mr;
    assert(s2[i] == mr);
}

proof fn lemma_contains_relinquish_mono(
    s1: Seq<MessageRequest>,
    s2: Seq<MessageRequest>,
    chunk: ChunkCoord,
    data: Option<Seq<Pixel>>,
    world_num: i32,
)
    requires
        contains_relinquish(s1, 0, chunk, data, world_num),
        s1.len() <= s2.len(),
        forall|i: int| 0 <= i < s1.len() ==> s2[i] == s1[i],
    ensures
        contains_relinquish(s2, 0, chunk, data, world_num),
{
    let i = choose|i: int|
        0 <= i < s1.len() && (#[trigger] s1[i]).dst == Destination::Host && (s1[i].msg matches
        WorldNetMessage::RelinquishAuthority { chunk: c, chunk_data: d, world_num: w } && c == chunk
            && opt_data_view(d) == data && w == world_num);
    assert(s2[i] == s1[i]);
}

/// May `mr` stand in the queue the liveness pass leaves behind? Only the
/// four teardown messages, each tied to a chunk whose entry called for it:
/// a request for a fresh chunk, a stop to a killed listener's authority, a
/// hand-off offer to a killed authority's pending successor, and the
/// relinquish carrying the killed authority's outbound data. Nothing is
/// ever emitted for a waiting, contending, transferring or tombstoned
/// entry.
pub open spec fn upd_msg_ok(pre: WorldManager, mr: MessageRequest) -> bool {
    match mr.msg {
        WorldNetMessage::RequestAuthority { chunk, priority, can_wait } => {
            &&& mr.dst == Destination::Host
            &&& pre.chunk_state@.dom().contains(chunk)
            &&& pre.chunk_state@[chunk] == (ChunkState::RequestAuthority { priority, can_wait })
        },
        WorldNetMessage::ListenStopRequest { chunk } => {
            &&& pre.chunk_state@.dom().contains(chunk)
            &&& upd_killed(pre, chunk)
            &&& pre.chunk_state@[chunk] is Listening
            &&& mr.dst == Destination::Peer(pre.chunk_state@[chunk]->Listening_authority)
        },
        WorldNetMessage::AskForAuthority { chunk, priority } => {
            &&& pre.chunk_state@.dom().contains(chunk)
            &&& upd_killed(pre, chunk)
            &&& pre.chunk_state@[chunk] is Authority
            &&& (pre.chunk_state@[chunk]->Authority_new_authority) is Some
            &&& priority == ((pre.chunk_state@[chunk]->Authority_new_authority)->Some_0).1
            &&& mr.dst == Destination::Peer(
                ((pre.chunk_state@[chunk]->Authority_new_authority)->Some_0).0,
            )
        },
        WorldNetMessage::RelinquishAuthority { chunk, chunk_data, world_num } => {
            &&& mr.dst == Destination::Host
            &&& world_num == pre.world_num
            &&& pre.chunk_state@.dom().contains(chunk)
            &&& upd_killed(pre, chunk)
            &&& pre.chunk_state@[chunk] is Authority
            &&& opt_data_view(chunk_data) == (if pre.outbound_model.contents().dom().contains(
                chunk,
            ) {
                Some(pre.outbound_model.contents()[chunk])
            } else {
                None
            })
        },
        _ => false,
    }
}

/// How many messages the pass emits for chunk `c`.
pub open spec fn upd_emit_at(pre: WorldManager, c: ChunkCoord) -> int {
    match pre.chunk_state@[c] {
        ChunkState::RequestAuthority { .. } => 1,
        ChunkState::Listening { .. } => if upd_killed(pre, c) {
            1int
        } else {
            0int
        },
        ChunkState::Authority { new_authority, .. } => if upd_killed(pre, c) {
            if new_authority is Some {
                2int
            } else {
                1int
            }
        } else {
            0int
        },
        _ => 0,
    }
}

/// How many messages the pass emits over the first `i` table entries.
pub open spec fn upd_emit_count(pre: WorldManager, i: int) -> int
    decreases i,
{
    if i <= 0 {
        0
    } else {
        upd_emit_count(pre, i - 1) + upd_emit_at(pre, pre.chunk_state.key_seq()[i - 1])
    }
}

/// What the liveness pass promises under `upd_guard`.
pub open spec fn upd_exact(pre: WorldManager, post: WorldManager) -> bool {
    &&& forall|c: ChunkCoord|
        #[trigger] post.chunk_state@.dom().contains(c) <==> pre.chunk_state@.dom().contains(c)
            && upd_kept(pre, c)
    &&& forall|c: ChunkCoord|
        post.chunk_state@.dom().contains(c) ==> #[trigger] post.chunk_state@[c] == upd_value(
            pre,
            c,
        )
    &&& forall|c: ChunkCoord|
        #[trigger] post.last_request_priority@.dom().contains(c)
            <==> pre.last_request_priority@.dom().contains(c) || (pre.chunk_state@.dom().contains(
            c,
        ) && pre.chunk_state@[c] is RequestAuthority)
    &&& forall|c: ChunkCoord|
        post.last_request_priority@.dom().contains(c)
            ==> #[trigger] post.last_request_priority@[c] == (if pre.chunk_state@.dom().contains(c)
            && pre.chunk_state@[c] is RequestAuthority {
            pre.chunk_state@[c]->RequestAuthority_priority
        } else {
            pre.last_request_priority@[c]
        })
    &&& forall|c: ChunkCoord|
        #[trigger] post.inbound_model.contents().dom().contains(c)
            <==> pre.inbound_model.contents().dom().contains(c) && !(
        pre.chunk_state@.dom().contains(c) && !upd_kept(pre, c))
    &&& forall|c: ChunkCoord|
        post.inbound_model.contents().dom().contains(c)
            ==> #[trigger] post.inbound_model.contents()[c] == pre.inbound_model.contents()[c]
    &&& forall|c: ChunkCoord|
        #[trigger] post.outbound_model.contents().dom().contains(c)
            <==> pre.outbound_model.contents().dom().contains(c) && !(
        pre.chunk_state@.dom().contains(c) && !upd_kept(pre, c))
    &&& forall|c: ChunkCoord|
        post.outbound_model.contents().dom().contains(c)
            ==> #[trigger] post.outbound_model.contents()[c] == pre.outbound_model.contents()[c]
    &&& post.chunk_storage == pre.chunk_storage
    &&& post.authority_map == pre.authority_map
    &&& post.chunk_last_update == pre.chunk_last_update
    &&& forall|c: ChunkCoord|
        pre.chunk_state@.dom().contains(c) && (#[trigger] pre.chunk_state@[c]) is RequestAuthority
            ==> contains_msg(
            post.emitted_messages@,
            pre.emitted_messages@.len() as int,
            MessageRequest {
                dst: Destination::Host,
                msg: WorldNetMessage::RequestAuthority {
                    chunk: c,
                    priority: pre.chunk_state@[c]->RequestAuthority_priority,
                    can_wait: pre.chunk_state@[c]->RequestAuthority_can_wait,
                },
            },
        )
    &&& forall|c: ChunkCoord|
        pre.chunk_state@.dom().contains(c) && upd_killed(pre, c) && (
        #[trigger] pre.chunk_state@[c]) is Listening ==> contains_msg(
            post.emitted_messages@,
            pre.emitted_messages@.len() as int,
            MessageRequest {
                dst: Destination::Peer(pre.chunk_state@[c]->Listening_authority),
                msg: WorldNetMessage::ListenStopRequest { chunk: c },
            },
        )
    &&& forall|c: ChunkCoord|
        pre.chunk_state@.dom().contains(c) && upd_killed(pre, c) && (
        #[trigger] pre.chunk_state@[c]) is Authority && (
        pre.chunk_state@[c]->Authority_new_authority) is Some ==> contains_msg(
            post.emitted_messages@,
            pre.emitted_messages@.len() as int,
            MessageRequest {
                dst: Destination::Peer(((pre.chunk_state@[c]->Authority_new_authority)->Some_0).0),
                msg: WorldNetMessage::AskForAuthority {
                    chunk: c,
                    priority: ((pre.chunk_state@[c]->Authority_new_authority)->Some_0).1,
                },
            },
        )
    &&& post.emitted_messages@.len() == pre.emitted_messages@.len() + upd_emit_count(
        pre,
        pre.chunk_state.key_seq().len() as int,
    )
    &&& forall|i: int|
        pre.emitted_messages@.len() <= i < post.emitted_messages@.len() ==> upd_msg_ok(
            pre,
            #[trigger] post.emitted_messages@[i],
        )
    &&& forall|c: ChunkCoord|
        pre.chunk_state@.dom().contains(c) && upd_killed(pre, c) && (
        #[trigger] pre.chunk_state@[c]) is Authority ==> contains_relinquish(
            post.emitted_messages@,
            pre.emitted_messages@.len() as int,
            c,
            if pre.outbound_model.contents().dom().contains(c) {
                Some(pre.outbound_model.contents()[c])
            } else {
                None
            },
            pre.world_num,
        )
}

/// The scan phase of the liveness pass, before any queued message is
/// delivered: every table entry is rewritten in place to `upd_scan_value`,
/// a fresh request's priority is recorded, and `queue` collects the
/// teardown messages — nothing else moves.
pub open spec fn upd_scan(pre: WorldManager, mid: WorldManager, queue: Seq<MessageRequest>) -> bool {
    &&& mid.chunk_state@.dom() == pre.chunk_state@.dom()
    &&& forall|c: ChunkCoord|
        pre.chunk_state@.dom().contains(c) ==> #[trigger] mid.chunk_state@[c] == upd_scan_value(
            pre,
            c,
        )
    &&& forall|c: ChunkCoord|
        #[trigger] mid.last_request_priority@.dom().contains(c)
            <==> pre.last_request_priority@.dom().contains(c) || (pre.chunk_state@.dom().contains(
            c,
        ) && pre.chunk_state@[c] is RequestAuthority)
    &&& forall|c: ChunkCoord|
        mid.last_request_priority@.dom().contains(c)
            ==> #[trigger] mid.last_request_priority@[c] == (if pre.chunk_state@.dom().contains(c)
            && pre.chunk_state@[c] is RequestAuthority {
            pre.chunk_state@[c]->RequestAuthority_priority
        } else {
            pre.last_request_priority@[c]
        })
    &&& same_models(pre, mid)
    &&& mid.chunk_storage == pre.chunk_storage
    &&& mid.authority_map == pre.authority_map
    &&& mid.chunk_last_update == pre.chunk_last_update
    &&& mid.emitted_messages == pre.emitted_messages
    &&& same_config(pre, mid)
    &&& queue.len() == upd_emit_count(pre, pre.chunk_state.key_seq().len() as int)
    &&& forall|q: int|
        0 <= q < queue.len() ==> upd_msg_ok(pre, #[trigger] queue[q]) && queue[q].msg.wf()
    &&& forall|c: ChunkCoord|
        pre.chunk_state@.dom().contains(c) && (#[trigger] pre.chunk_state@[c]) is RequestAuthority
            ==> contains_msg(
            queue,
            0,
            MessageRequest {
                dst: Destination::Host,
                msg: WorldNetMessage::RequestAuthority {
                    chunk: c,
                    priority: pre.chunk_state@[c]->RequestAuthority_priority,
                    can_wait: pre.chunk_state@[c]->RequestAuthority_can_wait,
                },
            },
        )
    &&& forall|c: ChunkCoord|
        pre.chunk_state@.dom().contains(c) && upd_killed(pre, c) && (
        #[trigger] pre.chunk_state@[c]) is Listening ==> contains_msg(
            queue,
            0,
            MessageRequest {
                dst: Destination::Peer(pre.chunk_state@[c]->Listening_authority),
                msg: WorldNetMessage::ListenStopRequest { chunk: c },
            },
        )
    &&& forall|c: ChunkCoord|
        pre.chunk_state@.dom().contains(c) && upd_killed(pre, c) && (
        #[trigger] pre.chunk_state@[c]) is Authority && (
        pre.chunk_state@[c]->Authority_new_authority) is Some ==> contains_msg(
            queue,
            0,
            MessageRequest {
                dst: Destination::Peer(((pre.chunk_state@[c]->Authority_new_authority)->Some_0).0),
                msg: WorldNetMessage::AskForAuthority {
                    chunk: c,
                    priority: ((pre.chunk_state@[c]->Authority_new_authority)->Some_0).1,
                },
            },
        )
    &&& forall|c: ChunkCoord|
        pre.chunk_state@.dom().contains(c) && upd_killed(pre, c) && (
        #[trigger] pre.chunk_state@[c]) is Authority ==> contains_relinquish(
            queue,
            0,
            c,
            if pre.outbound_model.contents().dom().contains(c) {
                Some(pre.outbound_model.contents()[c])
            } else {
                None
            },
            pre.world_num,
        )
}

/// The queued teardown messages delivered in order, each through
/// `step_emit`. On the host a message addressed to `Host` is handled by the
/// full protocol step inline: a fresh request is granted or recorded, and a
/// relinquish removes the chunk's authority entry, promotes the carried
/// outbound data into storage and broadcasts
/// `ListenAuthorityRelinquished`. A message addressed to another peer lands
/// in the outbound queue.
pub open spec fn drain_chain(s: WorldManager, q: Seq<MessageRequest>, post: WorldManager) -> bool
    decreases q.len(),
{
    if q.len() == 0 {
        post == s
    } else {
        exists|mid: WorldManager|
            #[trigger] step_emit(s, q[0].dst, q[0].msg, mid) && drain_chain(
                mid,
                q.drop_first(),
                post,
            )
    }
}

proof fn lemma_drain_chain_snoc(
    s: WorldManager,
    q: Seq<MessageRequest>,
    t: WorldManager,
    mr: MessageRequest,
    u: WorldManager,
)
    requires
        drain_chain(s, q, t),
        step_emit(t, mr.dst, mr.msg, u),
    ensures
        drain_chain(s, q.push(mr), u),
    decreases q.len(),
{
    if q.len() == 0 {
        assert(t == s);
        assert(q.push(mr)[0] == mr);
        assert(q.push(mr).drop_first() =~= Seq::<MessageRequest>::empty());
        assert(drain_chain(u, q.push(mr).drop_first(), u));
        assert(step_emit(s, q.push(mr)[0].dst, q.push(mr)[0].msg, u));
    } else {
        let mid = choose|mid: WorldManager|
            #[trigger] step_emit(s, q[0].dst, q[0].msg, mid) && drain_chain(
                mid,
                q.drop_first(),
                t,
            );
        lemma_drain_chain_snoc(mid, q.drop_first(), t, mr, u);
        assert(q.push(mr)[0] == q[0]);
        assert(q.push(mr).drop_first() =~= q.drop_first().push(mr));
        assert(step_emit(s, q.push(mr)[0].dst, q.push(mr)[0].msg, mid));
    }
}

/// The sweep phase of the liveness pass: every tombstoned entry leaves the
/// table and its chunks are dropped from both models; nothing else moves.
pub open spec fn upd_sweep(mid2: WorldManager, post: WorldManager) -> bool {
    &&& forall|c: ChunkCoord|
        #[trigger] post.chunk_state@.dom().contains(c) <==> mid2.chunk_state@.dom().contains(c)
            && !((mid2.chunk_state@[c]) is UnloadPending)
    &&& forall|c: ChunkCoord|
        post.chunk_state@.dom().contains(c) ==> #[trigger] post.chunk_state@[c]
            == mid2.chunk_state@[c]
    &&& forall|c: ChunkCoord|
        #[trigger] post.inbound_model.contents().dom().contains(c)
            <==> mid2.inbound_model.contents().dom().contains(c) && !(
        mid2.chunk_state@.dom().contains(c) && (mid2.chunk_state@[c]) is UnloadPending)
    &&& forall|c: ChunkCoord|
        post.inbound_model.contents().dom().contains(c)
            ==> #[trigger] post.inbound_model.contents()[c] == mid2.inbound_model.contents()[c]
    &&& forall|c: ChunkCoord|
        #[trigger] post.outbound_model.contents().dom().contains(c)
            <==> mid2.outbound_model.contents().dom().contains(c) && !(
        mid2.chunk_state@.dom().contains(c) && (mid2.chunk_state@[c]) is UnloadPending)
    &&& forall|c: ChunkCoord|
        post.outbound_model.contents().dom().contains(c)
            ==> #[trigger] post.outbound_model.contents()[c] == mid2.outbound_model.contents()[c]
    &&& post.chunk_storage == mid2.chunk_storage
    &&& post.authority_map == mid2.authority_map
    &&& post.chunk_last_update == mid2.chunk_last_update
    &&& post.last_request_priority == mid2.last_request_priority
    &&& post.emitted_messages == mid2.emitted_messages
    &&& same_config(mid2, post)
}

impl WorldManager {
    /// Run one liveness pass: request authority for fresh chunks, tear down
    /// every chunk `should_kill` condemns according to its role, and sweep
    /// all tombstones out, dropping their model chunks. No tombstone
    /// survives this call. On any peer the pass composes `upd_scan`,
    /// `drain_chain` and `upd_sweep`; on the host, `drain_chain` makes the
    /// teardown messages take effect inline through the protocol steps.
    pub fn update(&mut self)
        requires
            old(self).wf(),
        ensures
            final(self).wf(),
            same_config(*old(self), *final(self)),
            emits_kept(old(self).emitted_messages@, final(self).emitted_messages@),
            forall|c: ChunkCoord|
                final(self).chunk_state@.dom().contains(c) ==> !((
                #[trigger] final(self).chunk_state@[c]) is UnloadPending),
            exists|mid: WorldManager, queue: Seq<MessageRequest>, mid2: WorldManager|
                {
                    &&& upd_scan(*old(self), mid, queue)
                    &&& #[trigger] drain_chain(mid, queue, mid2)
                    &&& upd_sweep(mid2, *final(self))
                },
            upd_guard(*old(self)) ==> upd_exact(*old(self), *final(self)),
    {
        let ghost pre = *old(self);
        let mut emit_queue: Vec<MessageRequest> = Vec::new();
        let n = self.chunk_state.num_entries();
        let mut i: usize = 0;
        proof {
            self.chunk_state.lemma_view();
        }
        while i < n
            invariant
                self.wf(),
                n == self.chunk_state.key_seq().len(),
                i <= n,
                self.chunk_state.key_seq() == pre.chunk_state.key_seq(),
                self.chunk_state@.dom() == pre.chunk_state@.dom(),
                self.inbound_model == pre.inbound_model,
                self.outbound_model == pre.outbound_model,
                self.chunk_storage == pre.chunk_storage,
                self.authority_map == pre.authority_map,
                self.chunk_last_update == pre.chunk_last_update,
                self.emitted_messages == pre.emitted_messages,
                same_config(pre, *self),
                self.my_pos == pre.my_pos,
                self.cam_pos == pre.cam_pos,
                self.is_notplayer == pre.is_notplayer,
                forall|k: int|
                    0 <= k < pre.chunk_state.key_seq().len() ==> pre.chunk_state@.dom().contains(
                        #[trigger] pre.chunk_state.key_seq()[k],
                    ),
                forall|k: int, l: int|
                    0 <= k < l < pre.chunk_state.key_seq().len()
                        ==> pre.chunk_state.key_seq()[k] != pre.chunk_state.key_seq()[l],
                forall|k: int|
                    i <= k < n ==> #[trigger] self.chunk_state@[pre.chunk_state.key_seq()[k]]
                        == pre.chunk_state@[pre.chunk_state.key_seq()[k]],
                forall|k: int|
                    0 <= k < i ==> #[trigger] self.chunk_state@[pre.chunk_state.key_seq()[k]]
                        == upd_scan_value(pre, pre.chunk_state.key_seq()[k]),
                forall|c: ChunkCoord|
                    #[trigger] self.last_request_priority@.dom().contains(c)
                        <==> pre.last_request_priority@.dom().contains(c) || (exists|k: int|
                        0 <= k < i && #[trigger] pre.chunk_state.key_seq()[k] == c
                            && pre.chunk_state@[c] is RequestAuthority),
                forall|c: ChunkCoord|
                    self.last_request_priority@.dom().contains(c)
                        ==> #[trigger] self.last_request_priority@[c] == (if pre.chunk_state@.dom().contains(c)
                        && pre.chunk_state@[c] is RequestAuthority && (exists|k: int|
                        0 <= k < i && #[trigger] pre.chunk_state.key_seq()[k] == c) {
                        pre.chunk_state@[c]->RequestAuthority_priority
                    } else {
                        pre.last_request_priority@[c]
                    }),
                forall|q: int|
                    0 <= q < emit_queue@.len() ==> (#[trigger] emit_queue@[q]).msg.wf(),
                emit_queue@.len() == upd_emit_count(pre, i as int),
                forall|q: int|
                    0 <= q < emit_queue@.len() ==> upd_msg_ok(pre, #[trigger] emit_queue@[q]),
                upd_guard(pre) ==> forall|q: int|
                    0 <= q < emit_queue@.len() ==> !sent_to_self(
                        pre,
                        (#[trigger] emit_queue@[q]).dst,
                    ) && !((emit_queue@[q]).dst is Broadcast),
                forall|k: int|
                    0 <= k < i && (#[trigger] pre.chunk_state@[pre.chunk_state.key_seq()[k]])
                        is RequestAuthority ==> contains_msg(
                        emit_queue@,
                        0,
                        MessageRequest {
                            dst: Destination::Host,
                            msg: WorldNetMessage::RequestAuthority {
                                chunk: pre.chunk_state.key_seq()[k],
                                priority: pre.chunk_state@[pre.chunk_state.key_seq()[k]]->RequestAuthority_priority,
                                can_wait: pre.chunk_state@[pre.chunk_state.key_seq()[k]]->RequestAuthority_can_wait,
                            },
                        },
                    ),
                forall|k: int|
                    0 <= k < i && upd_killed(pre, pre.chunk_state.key_seq()[k]) && (
                    #[trigger] pre.chunk_state@[pre.chunk_state.key_seq()[k]]) is Listening
                        ==> contains_msg(
                        emit_queue@,
                        0,
                        MessageRequest {
                            dst: Destination::Peer(
                                pre.chunk_state@[pre.chunk_state.key_seq()[k]]->Listening_authority,
                            ),
                            msg: WorldNetMessage::ListenStopRequest {
                                chunk: pre.chunk_state.key_seq()[k],
                            },
                        },
                    ),
                forall|k: int|
                    0 <= k < i && upd_killed(pre, pre.chunk_state.key_seq()[k]) && (
                    #[trigger] pre.chunk_state@[pre.chunk_state.key_seq()[k]]) is Authority && (
                    pre.chunk_state@[pre.chunk_state.key_seq()[k]]->Authority_new_authority)
                        is Some ==> contains_msg(
                        emit_queue@,
                        0,
                        MessageRequest {
                            dst: Destination::Peer(
                                ((pre.chunk_state@[pre.chunk_state.key_seq()[k]]->Authority_new_authority)->Some_0).0,
                            ),
                            msg: WorldNetMessage::AskForAuthority {
                                chunk: pre.chunk_state.key_seq()[k],
                                priority: ((pre.chunk_state@[pre.chunk_state.key_seq()[k]]->Authority_new_authority)->Some_0).1,
                            },
                        },
                    ),
                forall|k: int|
                    0 <= k < i && upd_killed(pre, pre.chunk_state.key_seq()[k]) && (
                    #[trigger] pre.chunk_state@[pre.chunk_state.key_seq()[k]]) is Authority
                        ==> contains_relinquish(
                        emit_queue@,
                        0,
                        pre.chunk_state.key_seq()[k],
                        if pre.outbound_model.contents().dom().contains(
                            pre.chunk_state.key_seq()[k],
                        ) {
                            Some(pre.outbound_model.contents()[pre.chunk_state.key_seq()[k]])
                        } else {
                            None
                        },
                        pre.world_num,
                    ),
            decreases n - i,
        {
            let c = self.chunk_state.key_at(i);
            proof {
                assert(pre.chunk_state@[c] == self.chunk_state@[pre.chunk_state.key_seq()[i as int]]);
            }
            let kill = should_kill(self.my_pos, self.cam_pos, c.0, c.1, self.is_notplayer);
            let ghost q0 = emit_queue@;
            let mut request: Option<(u8, bool)> = None;
            let mut stop_listen: Option<PeerId> = None;
            let mut relinquish = false;
            let mut ask: Option<(PeerId, u8)> = None;
            match self.chunk_state.val_at(i) {
                ChunkState::RequestAuthority { priority, can_wait } => {
                    request = Some((*priority, *can_wait));
                },
                ChunkState::WaitingForAuthority => {
                    if kill {
                        self.chunk_state.set_val_at(i, ChunkState::UnloadPending);
                    }
                },
                ChunkState::Listening { authority, .. } => {
                    if kill {
                        stop_listen = Some(*authority);
                    }
                },
                ChunkState::Authority { new_authority, .. } => {
                    if kill {
                        relinquish = true;
                        if let Some(nx) = new_authority {
                            ask = Some(*nx);
                        }
                    }
                },
                ChunkState::WantToGetAuth { .. } => {
                    if kill {
                        self.chunk_state.set_val_at(i, ChunkState::UnloadPending);
                    }
                },
                _ => {},
            }
            if let Some((priority, can_wait)) = request {
                emit_queue.push(
                    MessageRequest {
                        dst: Destination::Host,
                        msg: WorldNetMessage::RequestAuthority { chunk: c, priority, can_wait },
                    },
                );
                self.chunk_state.set_val_at(i, ChunkState::WaitingForAuthority);
                self.last_request_priority.insert(c, priority);
            }
            if let Some(authority) = stop_listen {
                emit_queue.push(
                    MessageRequest {
                        dst: Destination::Peer(authority),
                        msg: WorldNetMessage::ListenStopRequest { chunk: c },
                    },
                );
                self.chunk_state.set_val_at(i, ChunkState::UnloadPending);
            }
            if relinquish {
                if let Some(nx) = ask {
                    emit_queue.push(
                        MessageRequest {
                            dst: Destination::Peer(nx.0),
                            msg: WorldNetMessage::AskForAuthority { chunk: c, priority: nx.1 },
                        },
                    );
                }
                let chunk_data = self.outbound_model.get_chunk_data(c);
                let wn = self.world_num;
                emit_queue.push(
                    MessageRequest {
                        dst: Destination::Host,
                        msg: WorldNetMessage::RelinquishAuthority { chunk: c, chunk_data, world_num: wn },
                    },
                );
                self.chunk_state.set_val_at(i, ChunkState::UnloadPending);
            }
            proof {
                assert forall|q: int| 0 <= q < q0.len() implies emit_queue@[q] == q0[q] by {};
                assert(upd_emit_count(pre, i + 1) == upd_emit_count(pre, i as int)
                    + upd_emit_at(pre, pre.chunk_state.key_seq()[i as int]));
                let ks = pre.chunk_state.key_seq();
                assert forall|k: int|
                    0 <= k < i + 1 && (#[trigger] pre.chunk_state@[ks[k]]) is RequestAuthority
                    implies contains_msg(
                    emit_queue@,
                    0,
                    MessageRequest {
                        dst: Destination::Host,
                        msg: WorldNetMessage::RequestAuthority {
                            chunk: ks[k],
                            priority: pre.chunk_state@[ks[k]]->RequestAuthority_priority,
                            can_wait: pre.chunk_state@[ks[k]]->RequestAuthority_can_wait,
                        },
                    },
                ) by {
                    let mr = MessageRequest {
                        dst: Destination::Host,
                        msg: WorldNetMessage::RequestAuthority {
                            chunk: ks[k],
                            priority: pre.chunk_state@[ks[k]]->RequestAuthority_priority,
                            can_wait: pre.chunk_state@[ks[k]]->RequestAuthority_can_wait,
                        },
                    };
                    if k < i {
                        lemma_contains_msg_mono(q0, emit_queue@, mr);
                    } else {
                        assert(emit_queue@[q0.len() as int] == mr);
                    }
                }
                assert forall|k: int|
                    0 <= k < i + 1 && upd_killed(pre, ks[k]) && (
                #[trigger] pre.chunk_state@[ks[k]]) is Listening implies contains_msg(
                    emit_queue@,
                    0,
                    MessageRequest {
                        dst: Destination::Peer(pre.chunk_state@[ks[k]]->Listening_authority),
                        msg: WorldNetMessage::ListenStopRequest { chunk: ks[k] },
                    },
                ) by {
                    let mr = MessageRequest {
                        dst: Destination::Peer(pre.chunk_state@[ks[k]]->Listening_authority),
                        msg: WorldNetMessage::ListenStopRequest { chunk: ks[k] },
                    };
                    if k < i {
                        lemma_contains_msg_mono(q0, emit_queue@, mr);
                    } else {
                        assert(emit_queue@[q0.len() as int] == mr);
                    }
                }
                assert forall|k: int|
                    0 <= k < i + 1 && upd_killed(pre, ks[k]) && (
                #[trigger] pre.chunk_state@[ks[k]]) is Authority && (
                pre.chunk_state@[ks[k]]->Authority_new_authority) is Some implies contains_msg(
                    emit_queue@,
                    0,
                    MessageRequest {
                        dst: Destination::Peer(
                            ((pre.chunk_state@[ks[k]]->Authority_new_authority)->Some_0).0,
                        ),
                        msg: WorldNetMessage::AskForAuthority {
                            chunk: ks[k],
                            priority: ((pre.chunk_state@[ks[k]]->Authority_new_authority)->Some_0).1,
                        },
                    },
                ) by {
                    let mr = MessageRequest {
                        dst: Destination::Peer(
                            ((pre.chunk_state@[ks[k]]->Authority_new_authority)->Some_0).0,
                        ),
                        msg: WorldNetMessage::AskForAuthority {
                            chunk: ks[k],
                            priority: ((pre.chunk_state@[ks[k]]->Authority_new_authority)->Some_0).1,
                        },
                    };
                    if k < i {
                        lemma_contains_msg_mono(q0, emit_queue@, mr);
                    } else {
                        assert(emit_queue@[q0.len() as int] == mr);
                    }
                }
                assert forall|k: int|
                    0 <= k < i + 1 && upd_killed(pre, ks[k]) && (
                #[trigger] pre.chunk_state@[ks[k]]) is Authority implies contains_relinquish(
                    emit_queue@,
                    0,
                    ks[k],
                    if pre.outbound_model.contents().dom().contains(ks[k]) {
                        Some(pre.outbound_model.contents()[ks[k]])
                    } else {
                        None
                    },
                    pre.world_num,
                ) by {
                    let data = if pre.outbound_model.contents().dom().contains(ks[k]) {
                        Some(pre.outbound_model.contents()[ks[k]])
                    } else {
                        None
                    };
                    if k < i {
                        lemma_contains_relinquish_mono(
                            q0,
                            emit_queue@,
                            ks[k],
                            data,
                            pre.world_num,
                        );
                    } else {
                        let idx: int = if pre.chunk_state@[ks[k]]->Authority_new_authority
                            is Some {
                            q0.len() + 1int
                        } else {
                            q0.len() as int
                        };
                        assert(emit_queue@[idx].dst == Destination::Host);
                        assert(emit_queue@[idx].msg matches
                            WorldNetMessage::RelinquishAuthority {
                            chunk: cc,
                            chunk_data: d,
                            world_num: w,
                        } && cc == ks[k] && opt_data_view(d) == data && w == pre.world_num);
                    }
                }
            }
            i += 1;
        }
        // Drain the queue; on a non-host nothing here addresses this peer.
        let ghost mid = *self;
        let nq = emit_queue.len();
        let ghost queue0 = emit_queue@;
        proof {
            let ks = pre.chunk_state.key_seq();
            assert forall|c: ChunkCoord| pre.chunk_state@.dom().contains(c) implies
                #[trigger] mid.chunk_state@[c] == upd_scan_value(pre, c) by {
                let k = choose|k: int| 0 <= k < ks.len() && ks[k] == c;
                assert(mid.chunk_state@[ks[k]] == upd_scan_value(pre, ks[k]));
            }
            assert forall|c: ChunkCoord|
                pre.chunk_state@.dom().contains(c) && (#[trigger] pre.chunk_state@[c])
                    is RequestAuthority implies contains_msg(
                queue0,
                0,
                MessageRequest {
                    dst: Destination::Host,
                    msg: WorldNetMessage::RequestAuthority {
                        chunk: c,
                        priority: pre.chunk_state@[c]->RequestAuthority_priority,
                        can_wait: pre.chunk_state@[c]->RequestAuthority_can_wait,
                    },
                },
            ) by {
                let k = choose|k: int| 0 <= k < ks.len() && ks[k] == c;
                assert(pre.chunk_state@[ks[k]] is RequestAuthority);
            }
            assert forall|c: ChunkCoord|
                pre.chunk_state@.dom().contains(c) && upd_killed(pre, c) && (
            #[trigger] pre.chunk_state@[c]) is Listening implies contains_msg(
                queue0,
                0,
                MessageRequest {
                    dst: Destination::Peer(pre.chunk_state@[c]->Listening_authority),
                    msg: WorldNetMessage::ListenStopRequest { chunk: c },
                },
            ) by {
                let k = choose|k: int| 0 <= k < ks.len() && ks[k] == c;
                assert(pre.chunk_state@[ks[k]] is Listening);
            }
            assert forall|c: ChunkCoord|
                pre.chunk_state@.dom().contains(c) && upd_killed(pre, c) && (
            #[trigger] pre.chunk_state@[c]) is Authority && (
            pre.chunk_state@[c]->Authority_new_authority) is Some implies contains_msg(
                queue0,
                0,
                MessageRequest {
                    dst: Destination::Peer(
                        ((pre.chunk_state@[c]->Authority_new_authority)->Some_0).0,
                    ),
                    msg: WorldNetMessage::AskForAuthority {
                        chunk: c,
                        priority: ((pre.chunk_state@[c]->Authority_new_authority)->Some_0).1,
                    },
                },
            ) by {
                let k = choose|k: int| 0 <= k < ks.len() && ks[k] == c;
                assert(pre.chunk_state@[ks[k]] is Authority);
            }
            assert forall|c: ChunkCoord|
                pre.chunk_state@.dom().contains(c) && upd_killed(pre, c) && (
            #[trigger] pre.chunk_state@[c]) is Authority implies contains_relinquish(
                queue0,
                0,
                c,
                if pre.outbound_model.contents().dom().contains(c) {
                    Some(pre.outbound_model.contents()[c])
                } else {
                    None
                },
                pre.world_num,
            ) by {
                let k = choose|k: int| 0 <= k < ks.len() && ks[k] == c;
                assert(pre.chunk_state@[ks[k]] is Authority);
            }
            assert(upd_scan(pre, mid, queue0));
        }
        let mut q: usize = 0;
        while q < nq
            invariant
                self.wf(),
                nq == queue0.len(),
                q <= nq,
                emit_queue@ == queue0.skip(q as int),
                forall|k: int| 0 <= k < queue0.len() ==> (#[trigger] queue0[k]).msg.wf(),
                same_config(mid, *self),
                same_config(pre, mid),
                emits_kept(mid.emitted_messages@, self.emitted_messages@),
                drain_chain(mid, queue0.take(q as int), *self),
                (upd_guard(pre) && (forall|k: int|
                    0 <= k < queue0.len() ==> !sent_to_self(pre, (#[trigger] queue0[k]).dst) && !((
                    queue0[k]).dst is Broadcast))) ==> {
                    &&& self.chunk_state == mid.chunk_state
                    &&& self.inbound_model == mid.inbound_model
                    &&& self.outbound_model == mid.outbound_model
                    &&& self.chunk_storage == mid.chunk_storage
                    &&& self.authority_map == mid.authority_map
                    &&& self.chunk_last_update == mid.chunk_last_update
                    &&& self.last_request_priority == mid.last_request_priority
                    &&& self.emitted_messages@ == mid.emitted_messages@ + queue0.take(q as int)
                },
            decreases nq - q,
        {
            let mr = emit_queue.remove(0);
            proof {
                assert(queue0.skip(q as int)[0] == queue0[q as int]);
                assert(queue0.skip(q as int).remove(0) =~= queue0.skip(q + 1));
                assert(queue0.take(q + 1).drop_last() =~= queue0.take(q as int));
                assert(queue0.take(q + 1).last() == queue0[q as int]);
            }
            let ghost before = *self;
            let MessageRequest { dst, msg } = mr;
            self.emit_msg(dst, msg);
            proof {
                assert(queue0[q as int].dst == dst && queue0[q as int].msg == msg);
                lemma_drain_chain_snoc(mid, queue0.take(q as int), before, queue0[q as int], *self);
                assert(queue0.take(q + 1) =~= queue0.take(q as int).push(queue0[q as int]));
                if upd_guard(pre) && (forall|k: int|
                    0 <= k < queue0.len() ==> !sent_to_self(pre, (#[trigger] queue0[k]).dst) && !((
                    queue0[k]).dst is Broadcast)) {
                    assert(!sent_to_self(pre, queue0[q as int].dst));
                    assert(before.is_host == pre.is_host && before.my_peer_id == pre.my_peer_id);
                    assert(!sent_to_self(before, dst));
                    assert(self.emitted_messages@ == before.emitted_messages@.push(
                        MessageRequest { dst, msg },
                    ));
                    assert(MessageRequest { dst, msg } == queue0[q as int]);
                    assert(self.emitted_messages@ =~= mid.emitted_messages@ + queue0.take(q + 1));
                }
            }
            q += 1;
        }
        proof {
            assert(queue0.take(nq as int) =~= queue0);
        }
        // Sweep: remove every tombstone and drop its model chunks.
        let ghost mid2 = *self;
        proof {
            assert(drain_chain(mid, queue0, mid2));
        }
        loop
            invariant
                self.wf(),
                same_config(mid2, *self),
                self.emitted_messages == mid2.emitted_messages,
                self.chunk_storage == mid2.chunk_storage,
                self.authority_map == mid2.authority_map,
                self.chunk_last_update == mid2.chunk_last_update,
                self.last_request_priority == mid2.last_request_priority,
                forall|c: ChunkCoord|
                    #[trigger] self.chunk_state@.dom().contains(c) ==> mid2.chunk_state@.dom().contains(c)
                        && self.chunk_state@[c] == mid2.chunk_state@[c],
                forall|c: ChunkCoord|
                    mid2.chunk_state@.dom().contains(c) && !((#[trigger] mid2.chunk_state@[c])
                        is UnloadPending) ==> self.chunk_state@.dom().contains(c),
                forall|c: ChunkCoord|
                    #[trigger] self.inbound_model.contents().dom().contains(c)
                        <==> mid2.inbound_model.contents().dom().contains(c) && !(
                    mid2.chunk_state@.dom().contains(c) && (mid2.chunk_state@[c] is UnloadPending)
                        && !self.chunk_state@.dom().contains(c)),
                forall|c: ChunkCoord|
                    self.inbound_model.contents().dom().contains(c)
                        ==> #[trigger] self.inbound_model.contents()[c]
                        == mid2.inbound_model.contents()[c],
                forall|c: ChunkCoord|
                    #[trigger] self.outbound_model.contents().dom().contains(c)
                        <==> mid2.outbound_model.contents().dom().contains(c) && !(
                    mid2.chunk_state@.dom().contains(c) && (mid2.chunk_state@[c] is UnloadPending)
                        && !self.chunk_state@.dom().contains(c)),
                forall|c: ChunkCoord|
                    self.outbound_model.contents().dom().contains(c)
                        ==> #[trigger] self.outbound_model.contents()[c]
                        == mid2.outbound_model.contents()[c],
            ensures
                forall|c: ChunkCoord|
                    self.chunk_state@.dom().contains(c) ==> !((#[trigger] self.chunk_state@[c])
                        is UnloadPending),
            decreases self.chunk_state.key_seq().len(),
        {
            let m = self.chunk_state.num_entries();
            let mut j: usize = 0;
            let mut found: Option<ChunkCoord> = None;
            while j < m
                invariant
                    self.wf(),
                    m == self.chunk_state.key_seq().len(),
                    j <= m,
                    match found {
                        Some(c) => self.chunk_state@.dom().contains(c)
                            && self.chunk_state@[c] is UnloadPending,
                        None => forall|k: int|
                            0 <= k < j ==> !((
                            #[trigger] self.chunk_state@[self.chunk_state.key_seq()[k]])
                                is UnloadPending),
                    },
                decreases m - j,
            {
                if found.is_none() {
                    let is_unload = match self.chunk_state.val_at(j) {
                        ChunkState::UnloadPending => true,
                        _ => false,
                    };
                    if is_unload {
                        found = Some(self.chunk_state.key_at(j));
                        proof {
                            self.chunk_state.lemma_view();
                        }
                    }
                }
                j += 1;
            }
            match found {
                Some(c) => {
                    self.chunk_state.remove(c);
                    self.inbound_model.forget_chunk(c);
                    self.outbound_model.forget_chunk(c);
                    proof {
                        assert(self.chunk_state.key_seq().len()
                            < old(self).chunk_state.key_seq().len() || true);
                    }
                },
                None => {
                    proof {
                        self.chunk_state.lemma_view();
                        assert forall|c: ChunkCoord|
                            self.chunk_state@.dom().contains(c) implies !((
                        #[trigger] self.chunk_state@[c]) is UnloadPending) by {
                            let ks = self.chunk_state.key_seq();
                            let k = choose|k: int| 0 <= k < ks.len() && ks[k] == c;
                            assert(!(self.chunk_state@[ks[k]] is UnloadPending));
                        }
                    }
                    break;
                },
            }
        }
        proof {
            assert forall|c: ChunkCoord| #[trigger] final(self).chunk_state@.dom().contains(c)
                <==> mid2.chunk_state@.dom().contains(c) && !((mid2.chunk_state@[c])
                is UnloadPending) by {
                if final(self).chunk_state@.dom().contains(c) {
                    assert(final(self).chunk_state@[c] == mid2.chunk_state@[c]);
                    assert(!(final(self).chunk_state@[c] is UnloadPending));
                }
            }
            assert forall|c: ChunkCoord|
                #[trigger] final(self).inbound_model.contents().dom().contains(c)
                <==> mid2.inbound_model.contents().dom().contains(c) && !(
            mid2.chunk_state@.dom().contains(c) && (mid2.chunk_state@[c]) is UnloadPending) by {
                if mid2.chunk_state@.dom().contains(c) && mid2.chunk_state@[c] is UnloadPending {
                    assert(!final(self).chunk_state@.dom().contains(c));
                }
            }
            assert forall|c: ChunkCoord|
                #[trigger] final(self).outbound_model.contents().dom().contains(c)
                <==> mid2.outbound_model.contents().dom().contains(c) && !(
            mid2.chunk_state@.dom().contains(c) && (mid2.chunk_state@[c]) is UnloadPending) by {
                if mid2.chunk_state@.dom().contains(c) && mid2.chunk_state@[c] is UnloadPending {
                    assert(!final(self).chunk_state@.dom().contains(c));
                }
            }
            assert(upd_sweep(mid2, *final(self)));
            assert(upd_scan(pre, mid, queue0) && drain_chain(mid, queue0, mid2) && upd_sweep(
                mid2,
                *final(self),
            ));
            if upd_guard(pre) {
                upd_finish(pre, mid, mid2, *final(self), queue0);
            }
        }
    }
}

/// The chunks the departed peer owns, among the first `i` authority
/// entries, in table order.
pub open spec fn owned_upto(pre: WorldManager, source: PeerId, i: int) -> Seq<ChunkCoord>
    decreases i,
{
    if i <= 0 {
        Seq::empty()
    } else {
        let rest = owned_upto(pre, source, i - 1);
        if pre.authority_map@[pre.authority_map.key_seq()[i - 1]].0 == source {
            rest.push(pre.authority_map.key_seq()[i - 1])
        } else {
            rest
        }
    }
}

proof fn lemma_owned_upto(pre: WorldManager, source: PeerId, i: int)
    requires
        0 <= i <= pre.authority_map.key_seq().len(),
        forall|k: int, l: int|
            0 <= k < l < pre.authority_map.key_seq().len() ==> pre.authority_map.key_seq()[k]
                != pre.authority_map.key_seq()[l],
        forall|k: int|
            0 <= k < pre.authority_map.key_seq().len() ==> pre.authority_map@.contains_pair(
                #[trigger] pre.authority_map.key_seq()[k],
                pre.authority_map@[pre.authority_map.key_seq()[k]],
            ),
    ensures
        forall|a: int|
            0 <= a < owned_upto(pre, source, i).len() ==> exists|k: int|
                0 <= k < i && pre.authority_map.key_seq()[k] == #[trigger] owned_upto(
                    pre,
                    source,
                    i,
                )[a],
        forall|a: int|
            0 <= a < owned_upto(pre, source, i).len() ==> pre.authority_map@.dom().contains(
                #[trigger] owned_upto(pre, source, i)[a],
            ) && pre.authority_map@[owned_upto(pre, source, i)[a]].0 == source,
        forall|a: int, b: int|
            #![trigger owned_upto(pre, source, i)[a], owned_upto(pre, source, i)[b]]
            0 <= a < b < owned_upto(pre, source, i).len() ==> owned_upto(pre, source, i)[a]
                != owned_upto(pre, source, i)[b],
        forall|k: int|
            0 <= k < i && pre.authority_map@[#[trigger] pre.authority_map.key_seq()[k]].0
                == source ==> owned_upto(pre, source, i).contains(
                pre.authority_map.key_seq()[k],
            ),
    decreases i,
{
    if i > 0 {
        lemma_owned_upto(pre, source, i - 1);
        let ks = pre.authority_map.key_seq();
        let prev = owned_upto(pre, source, i - 1);
        let cur = owned_upto(pre, source, i);
        if pre.authority_map@[ks[i - 1]].0 == source {
            assert(cur == prev.push(ks[i - 1]));
            assert forall|a: int|
                0 <= a < cur.len() implies exists|k: int|
                    0 <= k < i && ks[k] == #[trigger] cur[a] by {
                if a < prev.len() {
                    assert(cur[a] == prev[a]);
                    let k = choose|k: int| 0 <= k < i - 1 && ks[k] == prev[a];
                    assert(0 <= k < i && ks[k] == cur[a]);
                } else {
                    assert(cur[a] == ks[i - 1]);
                }
            }
            assert forall|a: int, b: int|
                #![trigger cur[a], cur[b]]
                0 <= a < b < cur.len() implies cur[a] != cur[b] by {
                if b == cur.len() - 1 {
                    assert(cur[a] == prev[a]);
                    let k = choose|k: int| 0 <= k < i - 1 && ks[k] == prev[a];
                    assert(ks[k] != ks[i - 1]);
                }
            }
            assert forall|k: int|
                0 <= k < i && pre.authority_map@[#[trigger] ks[k]].0 == source implies
                cur.contains(ks[k]) by {
                if k < i - 1 {
                    assert(prev.contains(ks[k]));
                    let a = choose|a: int| 0 <= a < prev.len() && prev[a] == ks[k];
                    assert(cur[a] == ks[k]);
                } else {
                    assert(cur[cur.len() - 1] == ks[i - 1]);
                }
            }
        } else {
            assert(cur == prev);
            assert forall|k: int|
                0 <= k < i && pre.authority_map@[#[trigger] ks[k]].0 == source implies
                cur.contains(ks[k]) by {
                if k < i - 1 {
                    assert(prev.contains(ks[k]));
                }
            }
        }
    }
}

/// What a peer's departure does on the host: every chunk the departed peer
/// owned leaves the authority map and is tombstoned locally, and every peer
/// is told the authority is gone. Storage keeps its last committed data.
pub open spec fn peer_left_exact(pre: WorldManager, source: PeerId, post: WorldManager) -> bool {
    if !pre.is_host {
        post == pre
    } else {
        &&& forall|c: ChunkCoord|
            #[trigger] post.authority_map@.dom().contains(c)
                <==> pre.authority_map@.dom().contains(c) && pre.authority_map@[c].0 != source
        &&& forall|c: ChunkCoord|
            post.authority_map@.dom().contains(c) ==> #[trigger] post.authority_map@[c]
                == pre.authority_map@[c]
        &&& forall|c: ChunkCoord|
            pre.authority_map@.dom().contains(c) && (#[trigger] pre.authority_map@[c]).0 == source
                ==> post.chunk_state@.dom().contains(c) && post.chunk_state@[c] is UnloadPending
                    && contains_msg(
                    post.emitted_messages@,
                    pre.emitted_messages@.len() as int,
                    MessageRequest {
                        dst: Destination::Broadcast,
                        msg: WorldNetMessage::ListenAuthorityRelinquished { chunk: c },
                    },
                )
        &&& forall|c: ChunkCoord|
            !(pre.authority_map@.dom().contains(c) && (#[trigger] pre.authority_map@[c]).0
                == source) ==> (post.chunk_state@.dom().contains(c)
                <==> pre.chunk_state@.dom().contains(c)) && (pre.chunk_state@.dom().contains(c)
                ==> post.chunk_state@[c] == pre.chunk_state@[c])
        &&& post.inbound_model == pre.inbound_model
        &&& post.outbound_model == pre.outbound_model
        &&& post.chunk_storage == pre.chunk_storage
        &&& post.chunk_last_update == pre.chunk_last_update
        &&& post.last_request_priority == pre.last_request_priority
    }
}

impl WorldManager {
    /// Host side of a peer disconnecting: free every authority the peer
    /// held and broadcast that those chunks are ownerless; see
    /// `peer_left_exact`.
    pub fn handle_peer_left(&mut self, source: PeerId)
        requires
            old(self).wf(),
        ensures
            final(self).wf(),
            same_config(*old(self), *final(self)),
            emits_kept(old(self).emitted_messages@, final(self).emitted_messages@),
            peer_left_exact(*old(self), source, *final(self)),
    {
        let ghost pre = *old(self);
        if !self.is_host {
            return;
        }
        proof {
            self.authority_map.lemma_view();
        }
        let mut owned: Vec<ChunkCoord> = Vec::new();
        let n = self.authority_map.num_entries();
        let mut i: usize = 0;
        while i < n
            invariant
                self.wf(),
                *self == pre,
                n == pre.authority_map.key_seq().len(),
                i <= n,
                owned@ == owned_upto(pre, source, i as int),
                forall|k: int, l: int|
                    0 <= k < l < pre.authority_map.key_seq().len()
                        ==> pre.authority_map.key_seq()[k] != pre.authority_map.key_seq()[l],
                forall|k: int|
                    0 <= k < pre.authority_map.key_seq().len()
                        ==> pre.authority_map@.contains_pair(
                        #[trigger] pre.authority_map.key_seq()[k],
                        pre.authority_map@[pre.authority_map.key_seq()[k]],
                    ),
                forall|c: ChunkCoord|
                    #[trigger] pre.authority_map@.dom().contains(c)
                        ==> pre.authority_map.key_seq().contains(c),
            decreases n - i,
        {
            let keep = self.authority_map.val_at(i).0 == source;
            if keep {
                let c = self.authority_map.key_at(i);
                owned.push(c);
            }
            i += 1;
        }
        proof {
            lemma_owned_upto(pre, source, n as int);
        }
        // Take the departed peer's chunks out of the map.
        let no = owned.len();
        let mut j: usize = 0;
        while j < no
            invariant
                self.wf(),
                no == owned@.len(),
                j <= no,
                self.is_host == pre.is_host,
                self.my_peer_id == pre.my_peer_id,
                same_config(pre, *self),
                self.inbound_model == pre.inbound_model,
                self.outbound_model == pre.outbound_model,
                self.chunk_storage == pre.chunk_storage,
                self.chunk_state == pre.chunk_state,
                self.chunk_last_update == pre.chunk_last_update,
                self.last_request_priority == pre.last_request_priority,
                self.emitted_messages == pre.emitted_messages,
                forall|a: int, b: int|
                    #![trigger owned@[a], owned@[b]]
                    0 <= a < b < owned@.len() ==> owned@[a] != owned@[b],
                forall|a: int|
                    0 <= a < owned@.len() ==> pre.authority_map@.dom().contains(
                        #[trigger] owned@[a],
                    ) && pre.authority_map@[owned@[a]].0 == source,
                forall|c: ChunkCoord|
                    pre.authority_map@.dom().contains(c) && (#[trigger] pre.authority_map@[c]).0
                        == source ==> owned@.contains(c),
                forall|c: ChunkCoord|
                    #[trigger] self.authority_map@.dom().contains(c)
                        <==> pre.authority_map@.dom().contains(c) && !owned@.take(
                        j as int,
                    ).contains(c),
                forall|c: ChunkCoord|
                    self.authority_map@.dom().contains(c) ==> #[trigger] self.authority_map@[c]
                        == pre.authority_map@[c],
            decreases no - j,
        {
            let c = owned[j];
            self.authority_map.remove(c);
            proof {
                assert forall|x: ChunkCoord|
                    #[trigger] self.authority_map@.dom().contains(x) implies
                    pre.authority_map@.dom().contains(x) && !owned@.take(j + 1).contains(x) by {
                    if owned@.take(j + 1).contains(x) {
                        let s = owned@.take(j + 1);
                        let a = choose|a: int| 0 <= a < s.len() && s[a] == x;
                        if a < j {
                            assert(owned@.take(j as int)[a] == x);
                        } else {
                            assert(x == owned@[j as int]);
                        }
                    }
                }
                assert forall|x: ChunkCoord|
                    pre.authority_map@.dom().contains(x) && !owned@.take(j + 1).contains(x)
                    implies #[trigger] self.authority_map@.dom().contains(x) by {
                    if owned@.take(j as int).contains(x) {
                        let s = owned@.take(j as int);
                        let a = choose|a: int| 0 <= a < s.len() && s[a] == x;
                        assert(owned@.take(j + 1)[a] == x);
                    }
                    if x == owned@[j as int] {
                        assert(owned@.take(j + 1)[j as int] == x);
                    }
                }
            }
            j += 1;
        }
        // Tell everyone; each broadcast is also handled right here.
        let ghost mid = *self;
        proof {
            assert(owned@.take(no as int) =~= owned@);
        }
        let mut q: usize = 0;
        while q < no
            invariant
                self.wf(),
                no == owned@.len(),
                q <= no,
                same_config(pre, *self),
                self.my_peer_id == pre.my_peer_id,
                self.is_host == pre.is_host,
                self.inbound_model == mid.inbound_model,
                self.outbound_model == mid.outbound_model,
                self.chunk_storage == mid.chunk_storage,
                self.authority_map == mid.authority_map,
                self.chunk_last_update == mid.chunk_last_update,
                self.last_request_priority == mid.last_request_priority,
                mid.chunk_state == pre.chunk_state,
                mid.emitted_messages == pre.emitted_messages,
                emits_kept(pre.emitted_messages@, self.emitted_messages@),
                forall|a: int|
                    0 <= a < owned@.len() ==> pre.authority_map@.dom().contains(
                        #[trigger] owned@[a],
                    ) && pre.authority_map@[owned@[a]].0 == source,
                forall|a: int|
                    0 <= a < q ==> self.chunk_state@.dom().contains(#[trigger] owned@[a])
                        && self.chunk_state@[owned@[a]] is UnloadPending && contains_msg(
                        self.emitted_messages@,
                        pre.emitted_messages@.len() as int,
                        MessageRequest {
                            dst: Destination::Broadcast,
                            msg: WorldNetMessage::ListenAuthorityRelinquished { chunk: owned@[a] },
                        },
                    ),
                forall|c: ChunkCoord|
                    !owned@.take(q as int).contains(c) ==> ((
                    #[trigger] self.chunk_state@.dom().contains(c))
                        <==> pre.chunk_state@.dom().contains(c)) && (
                    pre.chunk_state@.dom().contains(c) && !owned@.take(q as int).contains(c)
                        ==> self.chunk_state@[c] == pre.chunk_state@[c]),
            decreases no - q,
        {
            let c = owned[q];
            let ghost before = *self;
            let ghost em0 = self.emitted_messages@;
            self.emit_broadcast(
                WorldNetMessage::ListenAuthorityRelinquished { chunk: c },
                WorldNetMessage::ListenAuthorityRelinquished { chunk: c },
            );
            proof {
                let lar = WorldNetMessage::ListenAuthorityRelinquished { chunk: c };
                let midq = choose|m: WorldManager|
                    {
                        &&& #[trigger] step(before, before.my_peer_id, lar, m)
                        &&& same_core(m, *self)
                        &&& pushed_msg(
                            m.emitted_messages@,
                            self.emitted_messages@,
                            Destination::Broadcast,
                            lar,
                        )
                    };
                assert(self.emitted_messages@.last() == MessageRequest {
                    dst: Destination::Broadcast,
                    msg: WorldNetMessage::ListenAuthorityRelinquished { chunk: c },
                });
                assert forall|a: int|
                    0 <= a < q + 1 implies self.chunk_state@.dom().contains(#[trigger] owned@[a])
                    && self.chunk_state@[owned@[a]] is UnloadPending && contains_msg(
                    self.emitted_messages@,
                    pre.emitted_messages@.len() as int,
                    MessageRequest {
                        dst: Destination::Broadcast,
                        msg: WorldNetMessage::ListenAuthorityRelinquished { chunk: owned@[a] },
                    },
                ) by {
                    let mr = MessageRequest {
                        dst: Destination::Broadcast,
                        msg: WorldNetMessage::ListenAuthorityRelinquished { chunk: owned@[a] },
                    };
                    if a < q {
                        let x = choose|x: int|
                            pre.emitted_messages@.len() <= x < em0.len() && em0[x] == mr;
                        assert(self.emitted_messages@[x] == mr);
                    } else {
                        assert(self.emitted_messages@[self.emitted_messages@.len() - 1] == mr);
                    }
                }
                assert forall|c2: ChunkCoord|
                    !owned@.take(q + 1).contains(c2) implies ((
                #[trigger] self.chunk_state@.dom().contains(c2))
                    <==> pre.chunk_state@.dom().contains(c2)) && (
                pre.chunk_state@.dom().contains(c2) && !owned@.take(q + 1).contains(c2)
                    ==> self.chunk_state@[c2] == pre.chunk_state@[c2]) by {
                    assert(owned@.take(q + 1)[q as int] == c);
                    assert(c2 != c);
                    if owned@.take(q as int).contains(c2) {
                        let s = owned@.take(q as int);
                        let a = choose|a: int| 0 <= a < s.len() && s[a] == c2;
                        assert(owned@.take(q + 1)[a] == c2);
                    }
                }
            }
            q += 1;
        }
        proof {
            assert(owned@.take(no as int) =~= owned@);
            assert forall|c: ChunkCoord|
                pre.authority_map@.dom().contains(c) && (#[trigger] pre.authority_map@[c]).0
                    == source implies final(self).chunk_state@.dom().contains(c)
                && final(self).chunk_state@[c] is UnloadPending && contains_msg(
                final(self).emitted_messages@,
                pre.emitted_messages@.len() as int,
                MessageRequest {
                    dst: Destination::Broadcast,
                    msg: WorldNetMessage::ListenAuthorityRelinquished { chunk: c },
                },
            ) by {
                assert(owned@.contains(c));
                let a = choose|a: int| 0 <= a < owned@.len() && owned@[a] == c;
            }
            assert forall|c: ChunkCoord|
                #[trigger] final(self).authority_map@.dom().contains(c)
                    <==> pre.authority_map@.dom().contains(c) && pre.authority_map@[c].0
                    != source by {
                if owned@.contains(c) {
                    let a = choose|a: int| 0 <= a < owned@.len() && owned@[a] == c;
                }
                if pre.authority_map@.dom().contains(c) && pre.authority_map@[c].0 != source {
                    if owned@.contains(c) {
                        let a = choose|a: int| 0 <= a < owned@.len() && owned@[a] == c;
                        assert(false);
                    }
                }
            }
        }
    }
}

/// What the scan phase leaves at `c`: the waiting marker for a fresh
/// request, a tombstone for anything killed, the entry itself otherwise.
pub open spec fn upd_scan_value(pre: WorldManager, c: ChunkCoord) -> ChunkState {
    match pre.chunk_state@[c] {
        ChunkState::RequestAuthority { .. } => ChunkState::WaitingForAuthority,
        ChunkState::WaitingForAuthority => if upd_killed(pre, c) {
            ChunkState::UnloadPending
        } else {
            pre.chunk_state@[c]
        },
        ChunkState::Listening { .. } => if upd_killed(pre, c) {
            ChunkState::UnloadPending
        } else {
            pre.chunk_state@[c]
        },
        ChunkState::Authority { .. } => if upd_killed(pre, c) {
            ChunkState::UnloadPending
        } else {
            pre.chunk_state@[c]
        },
        ChunkState::WantToGetAuth { .. } => if upd_killed(pre, c) {
            ChunkState::UnloadPending
        } else {
            pre.chunk_state@[c]
        },
        s => s,
    }
}

/// Stitch the three phases together into `upd_exact`.
proof fn upd_finish(
    pre: WorldManager,
    mid: WorldManager,
    mid2: WorldManager,
    post: WorldManager,
    queue0: Seq<MessageRequest>,
)
    requires
        pre.wf(),
        upd_guard(pre),
        // scan phase
        mid.chunk_state.key_seq() == pre.chunk_state.key_seq(),
        mid.chunk_state@.dom() == pre.chunk_state@.dom(),
        pre.chunk_state.wf(),
        forall|k: int|
            0 <= k < pre.chunk_state.key_seq().len() ==> pre.chunk_state@.dom().contains(
                #[trigger] pre.chunk_state.key_seq()[k],
            ),
        forall|c: ChunkCoord|
            #[trigger] pre.chunk_state@.dom().contains(c) ==> pre.chunk_state.key_seq().contains(
                c,
            ),
        forall|k: int|
            0 <= k < pre.chunk_state.key_seq().len()
                ==> #[trigger] mid.chunk_state@[pre.chunk_state.key_seq()[k]] == upd_scan_value(
                pre,
                pre.chunk_state.key_seq()[k],
            ),
        mid.inbound_model == pre.inbound_model,
        mid.outbound_model == pre.outbound_model,
        mid.chunk_storage == pre.chunk_storage,
        mid.authority_map == pre.authority_map,
        mid.chunk_last_update == pre.chunk_last_update,
        forall|c: ChunkCoord|
            #[trigger] mid.last_request_priority@.dom().contains(c)
                <==> pre.last_request_priority@.dom().contains(c) || (
            pre.chunk_state@.dom().contains(c) && pre.chunk_state@[c] is RequestAuthority),
        forall|c: ChunkCoord|
            mid.last_request_priority@.dom().contains(c)
                ==> #[trigger] mid.last_request_priority@[c] == (if pre.chunk_state@.dom().contains(
                c,
            ) && pre.chunk_state@[c] is RequestAuthority {
                pre.chunk_state@[c]->RequestAuthority_priority
            } else {
                pre.last_request_priority@[c]
            }),
        // drain phase
        mid2.chunk_state == mid.chunk_state,
        mid2.inbound_model == mid.inbound_model,
        mid2.outbound_model == mid.outbound_model,
        mid2.chunk_storage == mid.chunk_storage,
        mid2.authority_map == mid.authority_map,
        mid2.chunk_last_update == mid.chunk_last_update,
        mid2.last_request_priority == mid.last_request_priority,
        mid2.emitted_messages@ == pre.emitted_messages@ + queue0,
        // queue contents
        queue0.len() == upd_emit_count(pre, pre.chunk_state.key_seq().len() as int),
        forall|q: int| 0 <= q < queue0.len() ==> upd_msg_ok(pre, #[trigger] queue0[q]),
        forall|k: int|
            0 <= k < pre.chunk_state.key_seq().len() && (
            #[trigger] pre.chunk_state@[pre.chunk_state.key_seq()[k]]) is RequestAuthority
                ==> contains_msg(
                queue0,
                0,
                MessageRequest {
                    dst: Destination::Host,
                    msg: WorldNetMessage::RequestAuthority {
                        chunk: pre.chunk_state.key_seq()[k],
                        priority: pre.chunk_state@[pre.chunk_state.key_seq()[k]]->RequestAuthority_priority,
                        can_wait: pre.chunk_state@[pre.chunk_state.key_seq()[k]]->RequestAuthority_can_wait,
                    },
                },
            ),
        forall|k: int|
            0 <= k < pre.chunk_state.key_seq().len() && upd_killed(
                pre,
                pre.chunk_state.key_seq()[k],
            ) && (#[trigger] pre.chunk_state@[pre.chunk_state.key_seq()[k]]) is Listening
                ==> contains_msg(
                queue0,
                0,
                MessageRequest {
                    dst: Destination::Peer(
                        pre.chunk_state@[pre.chunk_state.key_seq()[k]]->Listening_authority,
                    ),
                    msg: WorldNetMessage::ListenStopRequest { chunk: pre.chunk_state.key_seq()[k] },
                },
            ),
        forall|k: int|
            0 <= k < pre.chunk_state.key_seq().len() && upd_killed(
                pre,
                pre.chunk_state.key_seq()[k],
            ) && (#[trigger] pre.chunk_state@[pre.chunk_state.key_seq()[k]]) is Authority && (
            pre.chunk_state@[pre.chunk_state.key_seq()[k]]->Authority_new_authority) is Some
                ==> contains_msg(
                queue0,
                0,
                MessageRequest {
                    dst: Destination::Peer(
                        ((pre.chunk_state@[pre.chunk_state.key_seq()[k]]->Authority_new_authority)->Some_0).0,
                    ),
                    msg: WorldNetMessage::AskForAuthority {
                        chunk: pre.chunk_state.key_seq()[k],
                        priority: ((pre.chunk_state@[pre.chunk_state.key_seq()[k]]->Authority_new_authority)->Some_0).1,
                    },
                },
            ),
        forall|k: int|
            0 <= k < pre.chunk_state.key_seq().len() && upd_killed(
                pre,
                pre.chunk_state.key_seq()[k],
            ) && (#[trigger] pre.chunk_state@[pre.chunk_state.key_seq()[k]]) is Authority
                ==> contains_relinquish(
                queue0,
                0,
                pre.chunk_state.key_seq()[k],
                if pre.outbound_model.contents().dom().contains(pre.chunk_state.key_seq()[k]) {
                    Some(pre.outbound_model.contents()[pre.chunk_state.key_seq()[k]])
                } else {
                    None
                },
                pre.world_num,
            ),
        // sweep phase
        forall|c: ChunkCoord|
            #[trigger] post.chunk_state@.dom().contains(c) ==> mid2.chunk_state@.dom().contains(c)
                && post.chunk_state@[c] == mid2.chunk_state@[c],
        forall|c: ChunkCoord|
            mid2.chunk_state@.dom().contains(c) && !((#[trigger] mid2.chunk_state@[c])
                is UnloadPending) ==> post.chunk_state@.dom().contains(c),
        forall|c: ChunkCoord|
            post.chunk_state@.dom().contains(c) ==> !((#[trigger] post.chunk_state@[c])
                is UnloadPending),
        forall|c: ChunkCoord|
            #[trigger] post.inbound_model.contents().dom().contains(c)
                <==> mid2.inbound_model.contents().dom().contains(c) && !(
            mid2.chunk_state@.dom().contains(c) && (mid2.chunk_state@[c] is UnloadPending)
                && !post.chunk_state@.dom().contains(c)),
        forall|c: ChunkCoord|
            post.inbound_model.contents().dom().contains(c)
                ==> #[trigger] post.inbound_model.contents()[c] == mid2.inbound_model.contents()[c],
        forall|c: ChunkCoord|
            #[trigger] post.outbound_model.contents().dom().contains(c)
                <==> mid2.outbound_model.contents().dom().contains(c) && !(
            mid2.chunk_state@.dom().contains(c) && (mid2.chunk_state@[c] is UnloadPending)
                && !post.chunk_state@.dom().contains(c)),
        forall|c: ChunkCoord|
            post.outbound_model.contents().dom().contains(c)
                ==> #[trigger] post.outbound_model.contents()[c]
                == mid2.outbound_model.contents()[c],
        post.chunk_storage == mid2.chunk_storage,
        post.authority_map == mid2.authority_map,
        post.chunk_last_update == mid2.chunk_last_update,
        post.last_request_priority == mid2.last_request_priority,
        post.emitted_messages == mid2.emitted_messages,
    ensures
        upd_exact(pre, post),
{
    assert forall|i: int|
        pre.emitted_messages@.len() <= i < post.emitted_messages@.len() implies upd_msg_ok(
        pre,
        #[trigger] post.emitted_messages@[i],
    ) by {
        assert(post.emitted_messages@[i] == queue0[i - pre.emitted_messages@.len()]);
    }
    let ks = pre.chunk_state.key_seq();
    assert forall|c: ChunkCoord| pre.chunk_state@.dom().contains(c) implies #[trigger] mid.chunk_state@[c]
        == upd_scan_value(pre, c) by {
        let k = choose|k: int| 0 <= k < ks.len() && ks[k] == c;
        assert(mid.chunk_state@[ks[k]] == upd_scan_value(pre, ks[k]));
    }
    assert forall|c: ChunkCoord|
        #[trigger] post.chunk_state@.dom().contains(c) implies pre.chunk_state@.dom().contains(c)
        && upd_kept(pre, c) by {
        assert(mid2.chunk_state@[c] == upd_scan_value(pre, c));
        assert(!(upd_scan_value(pre, c) is UnloadPending));
    }
    assert forall|c: ChunkCoord|
        pre.chunk_state@.dom().contains(c) && upd_kept(pre, c) implies
        #[trigger] post.chunk_state@.dom().contains(c) by {
        assert(mid2.chunk_state@[c] == upd_scan_value(pre, c));
    }
    assert forall|c: ChunkCoord|
        post.chunk_state@.dom().contains(c) implies #[trigger] post.chunk_state@[c] == upd_value(
        pre,
        c,
    ) by {
        assert(mid2.chunk_state@[c] == upd_scan_value(pre, c));
    }
    assert forall|k: int|
        0 <= k < ks.len() && (#[trigger] pre.chunk_state@[ks[k]]) is RequestAuthority implies
        contains_msg(
        post.emitted_messages@,
        pre.emitted_messages@.len() as int,
        MessageRequest {
            dst: Destination::Host,
            msg: WorldNetMessage::RequestAuthority {
                chunk: ks[k],
                priority: pre.chunk_state@[ks[k]]->RequestAuthority_priority,
                can_wait: pre.chunk_state@[ks[k]]->RequestAuthority_can_wait,
            },
        },
    ) by {
        let mr = MessageRequest {
            dst: Destination::Host,
            msg: WorldNetMessage::RequestAuthority {
                chunk: ks[k],
                priority: pre.chunk_state@[ks[k]]->RequestAuthority_priority,
                can_wait: pre.chunk_state@[ks[k]]->RequestAuthority_can_wait,
            },
        };
        assert(contains_msg(queue0, 0, mr));
        let q = choose|q: int| 0 <= q < queue0.len() && queue0[q] == mr;
        assert(post.emitted_messages@[pre.emitted_messages@.len() + q] == mr);
    }
    assert forall|c: ChunkCoord|
        pre.chunk_state@.dom().contains(c) && (#[trigger] pre.chunk_state@[c]) is RequestAuthority
        implies contains_msg(
        post.emitted_messages@,
        pre.emitted_messages@.len() as int,
        MessageRequest {
            dst: Destination::Host,
            msg: WorldNetMessage::RequestAuthority {
                chunk: c,
                priority: pre.chunk_state@[c]->RequestAuthority_priority,
                can_wait: pre.chunk_state@[c]->RequestAuthority_can_wait,
            },
        },
    ) by {
        let k = choose|k: int| 0 <= k < ks.len() && ks[k] == c;
        assert(pre.chunk_state@[ks[k]] is RequestAuthority);
    }
    assert forall|c: ChunkCoord|
        pre.chunk_state@.dom().contains(c) && upd_killed(pre, c) && (
    #[trigger] pre.chunk_state@[c]) is Listening implies contains_msg(
        post.emitted_messages@,
        pre.emitted_messages@.len() as int,
        MessageRequest {
            dst: Destination::Peer(pre.chunk_state@[c]->Listening_authority),
            msg: WorldNetMessage::ListenStopRequest { chunk: c },
        },
    ) by {
        let k = choose|k: int| 0 <= k < ks.len() && ks[k] == c;
        let mr = MessageRequest {
            dst: Destination::Peer(pre.chunk_state@[c]->Listening_authority),
            msg: WorldNetMessage::ListenStopRequest { chunk: c },
        };
        assert(contains_msg(queue0, 0, mr));
        let q = choose|q: int| 0 <= q < queue0.len() && queue0[q] == mr;
        assert(post.emitted_messages@[pre.emitted_messages@.len() + q] == mr);
    }
    assert forall|c: ChunkCoord|
        pre.chunk_state@.dom().contains(c) && upd_killed(pre, c) && (
    #[trigger] pre.chunk_state@[c]) is Authority && (pre.chunk_state@[c]->Authority_new_authority)
        is Some implies contains_msg(
        post.emitted_messages@,
        pre.emitted_messages@.len() as int,
        MessageRequest {
            dst: Destination::Peer(((pre.chunk_state@[c]->Authority_new_authority)->Some_0).0),
            msg: WorldNetMessage::AskForAuthority {
                chunk: c,
                priority: ((pre.chunk_state@[c]->Authority_new_authority)->Some_0).1,
            },
        },
    ) by {
        let k = choose|k: int| 0 <= k < ks.len() && ks[k] == c;
        let nx0 = pre.chunk_state@[c]->Authority_new_authority->Some_0;
        let mr = MessageRequest {
            dst: Destination::Peer(nx0.0),
            msg: WorldNetMessage::AskForAuthority { chunk: c, priority: nx0.1 },
        };
        assert(contains_msg(queue0, 0, mr));
        let q = choose|q: int| 0 <= q < queue0.len() && queue0[q] == mr;
        assert(post.emitted_messages@[pre.emitted_messages@.len() + q] == mr);
    }
    assert forall|c: ChunkCoord|
        pre.chunk_state@.dom().contains(c) && upd_killed(pre, c) && (
    #[trigger] pre.chunk_state@[c]) is Authority implies contains_relinquish(
        post.emitted_messages@,
        pre.emitted_messages@.len() as int,
        c,
        if pre.outbound_model.contents().dom().contains(c) {
            Some(pre.outbound_model.contents()[c])
        } else {
            None
        },
        pre.world_num,
    ) by {
        let k = choose|k: int| 0 <= k < ks.len() && ks[k] == c;
        let data = if pre.outbound_model.contents().dom().contains(c) {
            Some(pre.outbound_model.contents()[c])
        } else {
            None
        };
        assert(contains_relinquish(queue0, 0, c, data, pre.world_num));
        let q = choose|q: int|
            0 <= q < queue0.len() && (#[trigger] queue0[q]).dst == Destination::Host && (
            queue0[q].msg matches WorldNetMessage::RelinquishAuthority {
                chunk: cc,
                chunk_data: d,
                world_num: w,
            } && cc == c && opt_data_view(d) == data && w == pre.world_num);
        assert(post.emitted_messages@[pre.emitted_messages@.len() + q] == queue0[q]);
    }
}

} // verus!
