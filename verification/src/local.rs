//! The local-edit path: what one simulator frame does to this peer's chunk
//! states, and the listener fan-out of the frame's deltas.

use vstd::prelude::*;

use crate::coords::{ChunkCoord, PeerId, CHUNK_LEN};
use crate::manager::WorldManager;
use crate::messages::{Destination, MessageRequest, WorldNetMessage};
use crate::model::delta_writes;
use crate::pixel::{ChunkData, ChunkDelta, Pixel};
use crate::protocol::emits_kept;
use crate::state::ChunkState;

verus! {

/// Did this frame's position data carry a new world number?
pub open spec fn cu_reset_happens(pre: WorldManager, pos: Seq<i32>) -> bool {
    if pos.len() == 6 {
        pre.world_num != pos[5]
    } else {
        pre.world_num != pos[0]
    }
}

/// The world number after the frame's position data.
pub open spec fn cu_world_num(pre: WorldManager, pos: Seq<i32>) -> i32 {
    if pos.len() == 6 {
        pos[5]
    } else {
        pos[0]
    }
}

/// The position fields after the frame's position data.
pub open spec fn cu_pos_fields(pre: WorldManager, pos: Seq<i32>, post: WorldManager) -> bool {
    if pos.len() == 6 {
        &&& post.my_pos == (pos[0], pos[1])
        &&& post.cam_pos == (pos[2], pos[3])
        &&& post.is_notplayer == (pos[4] == 1)
    } else {
        &&& post.my_pos == pre.my_pos
        &&& post.cam_pos == pre.cam_pos
        &&& post.is_notplayer == pre.is_notplayer
    }
}

/// The chunk-state table the per-chunk logic starts from: empty after a
/// world change, the standing table otherwise.
pub open spec fn cu_base_cs(pre: WorldManager, pos: Seq<i32>) -> Map<ChunkCoord, ChunkState> {
    if cu_reset_happens(pre, pos) {
        Map::empty()
    } else {
        pre.chunk_state@
    }
}

/// The state node the per-chunk logic acts on: the standing one, or the
/// fresh request a first edit creates.
pub open spec fn cu_entry(pre: WorldManager, pos: Seq<i32>, chunk: ChunkCoord, priority: u8) -> ChunkState {
    if cu_base_cs(pre, pos).dom().contains(chunk) {
        cu_base_cs(pre, pos)[chunk]
    } else {
        ChunkState::RequestAuthority { priority, can_wait: true }
    }
}

/// What every arm of the per-chunk logic leaves alone: the request-priority
/// memory, and — beyond the activity mark and a possible world reset — the
/// models, the storage and the activity table.
pub open spec fn cu_frame(pre: WorldManager, pos: Seq<i32>, chunk: ChunkCoord, post: WorldManager) -> bool {
    let reset = cu_reset_happens(pre, pos);
    &&& post.last_request_priority == pre.last_request_priority
    &&& post.chunk_last_update@ == (if reset {
        Map::<ChunkCoord, u64>::empty()
    } else {
        pre.chunk_last_update@
    }).insert(chunk, pre.current_update)
    &&& post.chunk_storage@ == (if reset {
        Map::<ChunkCoord, ChunkData>::empty()
    } else {
        pre.chunk_storage@
    })
    &&& post.outbound_model.contents() == (if reset {
        Map::<ChunkCoord, Seq<Pixel>>::empty()
    } else {
        pre.outbound_model.contents()
    })
    &&& post.inbound_model.contents() == (if reset {
        Map::<ChunkCoord, Seq<Pixel>>::empty()
    } else {
        pre.inbound_model.contents()
    })
}

/// The listener fan-out an authority computes for this frame: every
/// listener after the pending successor, paired with the local priority.
/// Reaching the successor clears what came before it.
pub open spec fn cus_result(ls: Seq<PeerId>, target: Option<PeerId>, priority: u8) -> Seq<
    (PeerId, u8),
>
    decreases ls.len(),
{
    if ls.len() == 0 {
        Seq::empty()
    } else if target == Some(ls.last()) {
        Seq::empty()
    } else {
        cus_result(ls.drop_last(), target, priority).push((ls.last(), priority))
    }
}

/// The authority-arm outcome, given the node `Authority { ls, p0, na0, ss0 }`
/// and the frame's local `priority`:
/// the pending successor survives only while it still outranks us; sending
/// stops once the successor got its take-authority update.
pub open spec fn cu_auth_na1(na0: Option<(PeerId, u8)>, priority: u8) -> Option<(PeerId, u8)> {
    match na0 {
        Some(n) => if n.1 >= priority {
            None
        } else {
            Some(n)
        },
        None => None,
    }
}

/// Whether the fan-out loop is suppressed this frame.
pub open spec fn cu_auth_ss_mid(na0: Option<(PeerId, u8)>, ss0: bool, priority: u8) -> bool {
    match cu_auth_na1(na0, priority) {
        Some(_) => ss0,
        None => false,
    }
}

/// The successor to hand authority to, if any.
pub open spec fn cu_auth_target(na0: Option<(PeerId, u8)>, priority: u8) -> Option<PeerId> {
    match cu_auth_na1(na0, priority) {
        Some(n) => Some(n.0),
        None => None,
    }
}

/// The `stop_sending` flag after the frame.
pub open spec fn cu_auth_ss1(
    na0: Option<(PeerId, u8)>,
    ss0: bool,
    priority: u8,
    ls: Seq<PeerId>,
) -> bool {
    match cu_auth_target(na0, priority) {
        Some(t) => if cu_auth_ss_mid(na0, ss0, priority) {
            ss0
        } else {
            ls.contains(t)
        },
        None => false,
    }
}

/// What one local edit of `chunk` at `priority` does; `r` is the listener
/// fan-out handed back to the frame loop. Exact except where an emission
/// addresses this peer itself as an ordinary listener.
pub open spec fn cu_step(
    pre: WorldManager,
    chunk: ChunkCoord,
    priority: u8,
    pos: Seq<i32>,
    post: WorldManager,
    r: Seq<(PeerId, u8)>,
) -> bool {
    let base_cs = cu_base_cs(pre, pos);
    let entry = cu_entry(pre, pos, chunk, priority);
    let reset = cu_reset_happens(pre, pos);
    &&& cu_pos_fields(pre, pos, post)
    &&& post.world_num == cu_world_num(pre, pos)
    &&& post.nice_terraforming == pre.nice_terraforming
    &&& post.is_host == pre.is_host
    &&& post.my_peer_id == pre.my_peer_id
    &&& post.current_update == pre.current_update
    &&& post.durabilities == pre.durabilities
    &&& match entry {
        ChunkState::Listening { authority, priority: pri } => {
            &&& cu_frame(pre, pos, chunk, post)
            &&& if pri > priority {
                &&& post.chunk_state@ == base_cs.insert(
                    chunk,
                    ChunkState::WantToGetAuth {
                        authority,
                        auth_priority: pri,
                        my_priority: priority,
                    },
                )
                &&& r == Seq::<(PeerId, u8)>::empty()
                &&& post.authority_map@ == (if reset {
                    Map::<ChunkCoord, (PeerId, u8)>::empty()
                } else {
                    pre.authority_map@
                })
                &&& if authority != pre.my_peer_id {
                    pushed_lose_authority(
                        pre.emitted_messages@,
                        post.emitted_messages@,
                        authority,
                        chunk,
                        priority,
                        pre.my_peer_id,
                    )
                } else {
                    post.emitted_messages == pre.emitted_messages
                }
            } else {
                &&& post.chunk_state@ == base_cs.insert(chunk, entry)
                &&& r == Seq::<(PeerId, u8)>::empty()
                &&& post.authority_map@ == (if reset {
                    Map::<ChunkCoord, (PeerId, u8)>::empty()
                } else {
                    pre.authority_map@
                })
                &&& post.emitted_messages == pre.emitted_messages
            }
        },
        ChunkState::WantToGetAuth { authority, auth_priority, my_priority } => {
            &&& cu_frame(pre, pos, chunk, post)
            &&& r == Seq::<(PeerId, u8)>::empty()
            &&& post.authority_map@ == (if reset {
                Map::<ChunkCoord, (PeerId, u8)>::empty()
            } else {
                pre.authority_map@
            })
            &&& if my_priority != priority {
                if auth_priority <= priority {
                    &&& post.chunk_state@ == base_cs.insert(
                        chunk,
                        ChunkState::Listening { authority, priority: auth_priority },
                    )
                    &&& post.emitted_messages == pre.emitted_messages
                } else {
                    &&& post.chunk_state@ == base_cs.insert(
                        chunk,
                        ChunkState::WantToGetAuth {
                            authority,
                            auth_priority,
                            my_priority: priority,
                        },
                    )
                    &&& if authority != pre.my_peer_id {
                        pushed_lose_authority(
                            pre.emitted_messages@,
                            post.emitted_messages@,
                            authority,
                            chunk,
                            priority,
                            pre.my_peer_id,
                        )
                    } else {
                        post.emitted_messages == pre.emitted_messages
                    }
                }
            } else {
                &&& post.chunk_state@ == base_cs.insert(chunk, entry)
                &&& post.emitted_messages == pre.emitted_messages
            }
        },
        ChunkState::Authority { listeners, priority: p0, new_authority, stop_sending } => {
            cu_step_authority(
                pre,
                chunk,
                priority,
                pos,
                post,
                r,
                listeners@,
                p0,
                new_authority,
                stop_sending,
            )
        },
        _ => {
            &&& cu_frame(pre, pos, chunk, post)
            &&& post.chunk_state@ == base_cs.insert(chunk, entry)
            &&& r == Seq::<(PeerId, u8)>::empty()
            &&& post.authority_map@ == (if reset {
                Map::<ChunkCoord, (PeerId, u8)>::empty()
            } else {
                pre.authority_map@
            })
            &&& post.emitted_messages == pre.emitted_messages
        },
    }
}

/// One queued `LoseAuthority` naming this peer as successor.
pub open spec fn pushed_lose_authority(
    pre: Seq<MessageRequest>,
    post: Seq<MessageRequest>,
    to: PeerId,
    chunk: ChunkCoord,
    new_priority: u8,
    me: PeerId,
) -> bool {
    post == pre.push(
        MessageRequest {
            dst: Destination::Peer(to),
            msg: WorldNetMessage::LoseAuthority { chunk, new_priority, new_authority: me },
        },
    )
}

/// The authority arm of `cu_step`. The node keeps its listeners; its
/// priority follows the frame; the pending hand-off and `stop_sending`
/// evolve as the helper functions above say. One `ChangePriority` goes to
/// the host on a priority change, and the pending successor gets its
/// dedicated take-authority update.
pub open spec fn cu_step_authority(
    pre: WorldManager,
    chunk: ChunkCoord,
    priority: u8,
    pos: Seq<i32>,
    post: WorldManager,
    r: Seq<(PeerId, u8)>,
    ls: Seq<PeerId>,
    p0: u8,
    na0: Option<(PeerId, u8)>,
    ss0: bool,
    ) -> bool {
    let base_cs = cu_base_cs(pre, pos);
    let entry = cu_entry(pre, pos, chunk, priority);
    let reset = cu_reset_happens(pre, pos);
    let base_am = if reset {
        Map::<ChunkCoord, (PeerId, u8)>::empty()
    } else {
        pre.authority_map@
    };
    let base_out = if reset {
        Map::<ChunkCoord, Seq<Pixel>>::empty()
    } else {
        pre.outbound_model.contents()
    };
    let base_out_changed = if reset {
        crate::model::no_flags()
    } else {
        pre.outbound_model.chunk_changed(chunk)
    };
    let has_delta = base_out.dom().contains(chunk) && crate::model::any_changed(base_out_changed);
    let dw = delta_writes(base_out[chunk], base_out_changed, CHUNK_LEN as int);
    let na1 = cu_auth_na1(na0, priority);
    let ss_mid = cu_auth_ss_mid(na0, ss0, priority);
    let target = cu_auth_target(na0, priority);
    let ss1 = cu_auth_ss1(na0, ss0, priority, ls);
    let p_changes = p0 != priority;
    let target_is_me = match target {
        Some(t) => t == pre.my_peer_id,
        None => false,
    };
    if !has_delta {
        &&& cu_frame(pre, pos, chunk, post)
        &&& post.chunk_state@ == base_cs.insert(chunk, entry)
        &&& r == Seq::<(PeerId, u8)>::empty()
        &&& post.authority_map@ == base_am
        &&& post.emitted_messages == pre.emitted_messages
    } else if !ss_mid && target_is_me && ls.contains(pre.my_peer_id) {
        // A take-authority update addressed to this peer itself, handled
        // inline. The protocol never builds such a node — `LoseAuthority`
        // refuses to record this peer as its own successor — so nothing
        // more is claimed here.
        true
    } else {
        &&& cu_frame(pre, pos, chunk, post)
        &&& post.chunk_state@.dom() == base_cs.dom().insert(chunk)
        &&& (post.chunk_state@[chunk] matches ChunkState::Authority {
            listeners: l1,
            priority: p1,
            new_authority: na_post,
            stop_sending: ss_post,
        } && l1@ == ls && p1 == priority && na_post == na1 && ss_post == ss1)
        &&& forall|x: ChunkCoord|
            x != chunk && base_cs.dom().contains(x) ==> post.chunk_state@[x] == base_cs[x]
        &&& r == (if ss_mid {
            Seq::<(PeerId, u8)>::empty()
        } else {
            cus_result(ls, target, priority)
        })
        &&& (!pre.is_host) ==> post.authority_map@ == base_am
        &&& (p_changes && pre.is_host && base_am.dom().contains(chunk) && base_am[chunk].0
            == pre.my_peer_id) ==> post.authority_map@ == base_am.insert(
            chunk,
            (pre.my_peer_id, priority),
        )
        &&& (p_changes && pre.is_host && !(base_am.dom().contains(chunk) && base_am[chunk].0
            == pre.my_peer_id)) ==> post.authority_map@ == base_am
        &&& (!p_changes && pre.is_host) ==> post.authority_map@ == base_am
        &&& cu_auth_emits(pre, post, chunk, priority, p_changes, ss_mid, target, ls, dw)
    }
}

/// The emissions of the authority arm: `ChangePriority` on a change (queued
/// for a remote host, handled inline on the host itself), then the
/// dedicated take-authority update to the pending successor if one is due.
pub open spec fn cu_auth_emits(
    pre: WorldManager,
    post: WorldManager,
    chunk: ChunkCoord,
    priority: u8,
    p_changes: bool,
    ss_mid: bool,
    target: Option<PeerId>,
    ls: Seq<PeerId>,
    dw: Seq<(u16, Pixel)>,
) -> bool {
    let send_update = !ss_mid && (match target {
        Some(t) => ls.contains(t) && t != pre.my_peer_id,
        None => false,
    });
    let n_cp: int = if p_changes && !pre.is_host {
        1
    } else {
        0
    };
    let n_lu: int = if send_update {
        1
    } else {
        0
    };
    {
        &&& post.emitted_messages@.len() == pre.emitted_messages@.len() + n_cp + n_lu
        &&& forall|i: int|
            0 <= i < pre.emitted_messages@.len() ==> post.emitted_messages@[i]
                == pre.emitted_messages@[i]
        &&& (p_changes && !pre.is_host) ==> post.emitted_messages@[pre.emitted_messages@.len() as int]
            == MessageRequest {
            dst: Destination::Host,
            msg: WorldNetMessage::ChangePriority { chunk, priority },
        }
        &&& send_update ==> {
            let mr = post.emitted_messages@.last();
            &&& mr.dst == Destination::Peer(target->Some_0)
            &&& mr.msg matches WorldNetMessage::ListenUpdate { delta, priority: p, take_auth }
                && delta.chunk_coord == chunk && delta.writes@ == dw && p == priority && take_auth
                == true
        }
    }
}

/// `post` is `pre` one frame later: only the frame counter moved.
pub open spec fn inc_only(pre: WorldManager, post: WorldManager) -> bool {
    &&& post.current_update == pre.current_update + 1
    &&& post.nice_terraforming == pre.nice_terraforming
    &&& post.is_host == pre.is_host
    &&& post.my_pos == pre.my_pos
    &&& post.cam_pos == pre.cam_pos
    &&& post.is_notplayer == pre.is_notplayer
    &&& post.my_peer_id == pre.my_peer_id
    &&& post.inbound_model == pre.inbound_model
    &&& post.outbound_model == pre.outbound_model
    &&& post.chunk_storage == pre.chunk_storage
    &&& post.authority_map == pre.authority_map
    &&& post.chunk_state == pre.chunk_state
    &&& post.emitted_messages == pre.emitted_messages
    &&& post.chunk_last_update == pre.chunk_last_update
    &&& post.last_request_priority == pre.last_request_priority
    &&& post.world_num == pre.world_num
    &&& post.durabilities == pre.durabilities
}

/// The listener sequence of an authority node; empty for anything else.
pub open spec fn listeners_seq_of(st: ChunkState) -> Seq<PeerId> {
    match st {
        ChunkState::Authority { listeners, .. } => listeners@,
        _ => Seq::empty(),
    }
}

/// The views of a sequence of fan-out vectors.
pub open spec fn views_of(s: Seq<Vec<(PeerId, u8)>>) -> Seq<Seq<(PeerId, u8)>> {
    s.map_values(|v: Vec<(PeerId, u8)>| v@)
}

/// The per-chunk phase of a frame: every updated chunk handled in order,
/// with `sends` collecting each chunk's listener fan-out.
pub open spec fn cu_chain(
    s1: WorldManager,
    chunks: Seq<ChunkCoord>,
    priority: u8,
    pos: Seq<i32>,
    mid: WorldManager,
    sends: Seq<Seq<(PeerId, u8)>>,
) -> bool
    decreases chunks.len(),
{
    if chunks.len() == 0 {
        mid == s1 && sends.len() == 0
    } else {
        &&& sends.len() == chunks.len()
        &&& exists|m2: WorldManager|
            cu_chain(s1, chunks.drop_last(), priority, pos, m2, sends.drop_last()) && cu_step(
                m2,
                chunks.last(),
                priority,
                pos,
                mid,
                sends.last(),
            )
    }
}

/// The fan-out phase of a single-chunk frame: one packet per fan-out entry,
/// in order, each carrying that chunk's delta.
/// The fan-out entries name distinct peers, none of them this one.
pub open spec fn sends_ok(mid: WorldManager, r: Seq<(PeerId, u8)>) -> bool {
    forall|i: int|
        0 <= i < r.len() ==> {
            &&& (#[trigger] r[i]).0 != mid.my_peer_id
            &&& forall|b: int| 0 <= b < i ==> r[b].0 != r[i].0
        }
}

pub open spec fn packet_phase_one(
    mid: WorldManager,
    c: ChunkCoord,
    r: Seq<(PeerId, u8)>,
    post: WorldManager,
) -> bool {
    let has = mid.outbound_model.contents().dom().contains(c) && crate::model::any_changed(
        mid.outbound_model.chunk_changed(c),
    );
    let dw = delta_writes(
        mid.outbound_model.contents()[c],
        mid.outbound_model.chunk_changed(c),
        CHUNK_LEN as int,
    );
    // Fan-outs the protocol produces always satisfy `sends_ok`: listeners
    // are distinct and an authority is not its own listener.
    if sends_ok(mid, r) {
        &&& post.chunk_state == mid.chunk_state
        &&& post.inbound_model == mid.inbound_model
        &&& post.chunk_storage == mid.chunk_storage
        &&& post.authority_map == mid.authority_map
        &&& post.chunk_last_update == mid.chunk_last_update
        &&& post.last_request_priority == mid.last_request_priority
        &&& if has {
            &&& post.emitted_messages@.len() == mid.emitted_messages@.len() + r.len()
            &&& forall|i: int|
                0 <= i < mid.emitted_messages@.len() ==> post.emitted_messages@[i]
                    == mid.emitted_messages@[i]
            &&& forall|i: int|
                0 <= i < r.len() ==> {
                    let mr = post.emitted_messages@[mid.emitted_messages@.len() + i];
                    &&& mr.dst == Destination::Peer((#[trigger] r[i]).0)
                    &&& mr.msg matches WorldNetMessage::ChunkPacket { chunkpacket }
                        && chunkpacket@.len() == 1 && chunkpacket@[0].0.chunk_coord == c
                        && chunkpacket@[0].0.writes@ == dw && chunkpacket@[0].1 == r[i].1
                }
        } else {
            post.emitted_messages == mid.emitted_messages
        }
    } else {
        true
    }
}

/// The outbound model after a frame: contents kept, tracking reset.
pub open spec fn outbound_reset(mid: WorldManager, post: WorldManager) -> bool {
    &&& post.outbound_model.contents() == mid.outbound_model.contents()
    &&& post.outbound_model.dirty@ == Seq::<ChunkCoord>::empty()
    &&& forall|c: ChunkCoord| !crate::model::any_changed(post.outbound_model.chunk_changed(c))
}

impl WorldManager {
    /// One locally edited chunk: track activity, create or advance its
    /// state node, and hand back whom to send this frame's delta to; see
    /// `cu_step`.
    fn chunk_updated_locally(&mut self, chunk: ChunkCoord, priority: u8, pos: &Vec<i32>) -> (r:
        Vec<(PeerId, u8)>)
        requires
            old(self).wf(),
            pos@.len() == 6 || pos@.len() == 1,
        ensures
            final(self).wf(),
            emits_kept(old(self).emitted_messages@, final(self).emitted_messages@),
            cu_step(*old(self), chunk, priority, pos@, *final(self), r@),
    {
        let ghost pre = *old(self);
        if pos.len() == 6 {
            self.my_pos = (pos[0], pos[1]);
            self.cam_pos = (pos[2], pos[3]);
            self.is_notplayer = pos[4] == 1;
            if self.world_num != pos[5] {
                self.world_num = pos[5];
                self.reset();
            }
        } else {
            if self.world_num != pos[0] {
                self.world_num = pos[0];
                self.reset();
            }
        }
        let ghost base = *self;
        if !self.chunk_state.contains_key(chunk) {
            self.chunk_state.insert(
                chunk,
                ChunkState::RequestAuthority { priority, can_wait: true },
            );
        }
        let cur = self.current_update;
        self.chunk_last_update.insert(chunk, cur);
        proof {
            assert(self.chunk_state@ =~= base.chunk_state@.insert(
                chunk,
                cu_entry(pre, pos@, chunk, priority),
            ));
        }
        let me = self.my_peer_id;
        let mut listening: Option<(PeerId, u8)> = None;
        let mut contender: Option<(PeerId, u8, u8)> = None;
        let mut is_auth = false;
        match self.chunk_state.get(chunk) {
            Some(ChunkState::Listening { authority, priority: pri }) => {
                listening = Some((*authority, *pri));
            },
            Some(ChunkState::WantToGetAuth { authority, auth_priority, my_priority }) => {
                contender = Some((*authority, *auth_priority, *my_priority));
            },
            Some(ChunkState::Authority { .. }) => {
                is_auth = true;
            },
            _ => {},
        }
        if let Some((authority, pri)) = listening {
            if pri > priority {
                let v = ChunkState::WantToGetAuth {
                    authority,
                    auth_priority: pri,
                    my_priority: priority,
                };
                self.chunk_state.insert(chunk, v);
                proof {
                    assert(self.chunk_state@ =~= base.chunk_state@.insert(chunk, v));
                }
                self.emit_msg(
                    Destination::Peer(authority),
                    WorldNetMessage::LoseAuthority {
                        chunk,
                        new_priority: priority,
                        new_authority: me,
                    },
                );
            }
            return Vec::new();
        }
        if let Some((authority, auth_priority, my_priority)) = contender {
            if my_priority != priority {
                if auth_priority <= priority {
                    let v = ChunkState::Listening { authority, priority: auth_priority };
                    self.chunk_state.insert(chunk, v);
                    proof {
                        assert(self.chunk_state@ =~= base.chunk_state@.insert(chunk, v));
                    }
                } else {
                    let v = ChunkState::WantToGetAuth {
                        authority,
                        auth_priority,
                        my_priority: priority,
                    };
                    self.chunk_state.insert(chunk, v);
                    proof {
                        assert(self.chunk_state@ =~= base.chunk_state@.insert(chunk, v));
                    }
                    self.emit_msg(
                        Destination::Peer(authority),
                        WorldNetMessage::LoseAuthority {
                            chunk,
                            new_priority: priority,
                            new_authority: me,
                        },
                    );
                }
            }
            return Vec::new();
        }
        if !is_auth {
            return Vec::new();
        }
        let st = match self.chunk_state.take(chunk) {
            Some(s) => s,
            None => vstd::pervasive::unreached(),
        };
        match st {
            ChunkState::Authority { listeners, priority: p0, new_authority, stop_sending } => {
                let delta = match self.outbound_model.get_chunk_delta(chunk) {
                    Some(d) => d,
                    None => {
                        let v = ChunkState::Authority {
                            listeners,
                            priority: p0,
                            new_authority,
                            stop_sending,
                        };
                        proof {
                            crate::protocol::lemma_cs_insert_wf(self.chunk_state@, chunk, v);
                        }
                        self.chunk_state.insert(chunk, v);
                        proof {
                            assert(self.chunk_state@ =~= base.chunk_state@.insert(chunk, v));
                        }
                        return Vec::new();
                    },
                };
                proof {
                    assert(self.outbound_model.chunk_changed(chunk).len() == CHUNK_LEN);
                    crate::model::lemma_delta_writes_any(
                        self.outbound_model.contents()[chunk],
                        self.outbound_model.chunk_changed(chunk),
                        CHUNK_LEN as int,
                    );
                    assert(crate::model::any_changed(self.outbound_model.chunk_changed(chunk)));
                }
                let p_changes = p0 != priority;
                let mut na1: Option<(PeerId, u8)> = None;
                let mut ss_mid = false;
                let mut target: Option<PeerId> = None;
                match new_authority {
                    Some(n) => {
                        if n.1 >= priority {
                            na1 = None;
                            ss_mid = false;
                            target = None;
                        } else {
                            na1 = Some(n);
                            ss_mid = stop_sending;
                            target = Some(n.0);
                        }
                    },
                    None => {},
                }
                let mut r: Vec<(PeerId, u8)> = Vec::new();
                let mut new_auth_got = false;
                if !ss_mid {
                    let n = listeners.len();
                    let mut i: usize = 0;
                    proof {
                        assert(r@ =~= cus_result(listeners@.take(0), target, priority));
                    }
                    while i < n
                        invariant
                            n == listeners@.len(),
                            i <= n,
                            r@ == cus_result(listeners@.take(i as int), target, priority),
                            new_auth_got == (match target {
                                Some(t) => listeners@.take(i as int).contains(t),
                                None => false,
                            }),
                        decreases n - i,
                    {
                        let l = listeners.at(i);
                        let is_target = match target {
                            Some(t) => t == l,
                            None => false,
                        };
                        proof {
                            assert(listeners@.take(i + 1).drop_last() =~= listeners@.take(
                                i as int,
                            ));
                            assert(listeners@.take(i + 1).last() == listeners@[i as int]);
                        }
                        if is_target {
                            new_auth_got = true;
                            r = Vec::new();
                            proof {
                                assert(r@ =~= cus_result(
                                    listeners@.take(i + 1),
                                    target,
                                    priority,
                                ));
                            }
                        } else {
                            r.push((l, priority));
                            proof {
                                if match target {
                                    Some(t) => listeners@.take(i + 1).contains(t),
                                    None => false,
                                } {
                                    let t = target->Some_0;
                                    let s = listeners@.take(i + 1);
                                    let a = choose|a: int| 0 <= a < s.len() && s[a] == t;
                                    assert(listeners@.take(i as int)[a] == t);
                                }
                            }
                        }
                        i += 1;
                    }
                    proof {
                        assert(listeners@.take(n as int) =~= listeners@);
                    }
                }
                let ss1 = match target {
                    Some(_) => if ss_mid {
                        stop_sending
                    } else {
                        new_auth_got
                    },
                    None => false,
                };
                let v = ChunkState::Authority {
                    listeners,
                    priority,
                    new_authority: na1,
                    stop_sending: ss1,
                };
                proof {
                    crate::protocol::lemma_cs_insert_wf(self.chunk_state@, chunk, v);
                }
                self.chunk_state.insert(chunk, v);
                proof {
                    assert(self.chunk_state@ =~= base.chunk_state@.insert(chunk, v));
                    assert(self.chunk_state@.dom() =~= base.chunk_state@.dom().insert(chunk));
                }
                if p_changes {
                    self.emit_msg(
                        Destination::Host,
                        WorldNetMessage::ChangePriority { chunk, priority },
                    );
                }
                if !ss_mid && new_auth_got {
                    let t = match target {
                        Some(t) => t,
                        None => vstd::pervasive::unreached(),
                    };
                    self.emit_msg(
                        Destination::Peer(t),
                        WorldNetMessage::ListenUpdate { delta, priority, take_auth: true },
                    );
                }
                proof {
                    let entry = cu_entry(pre, pos@, chunk, priority);
                    assert(entry matches ChunkState::Authority { .. });
                    let ls = listeners_seq_of(entry);
                    let tgt = cu_auth_target(new_authority, priority);
                    if !(!ss_mid && (match tgt {
                        Some(t) => t == pre.my_peer_id,
                        None => false,
                    }) && ls.contains(pre.my_peer_id)) {
                        assert(cu_frame(pre, pos@, chunk, *self));
                        assert(self.chunk_state@.dom() == cu_base_cs(pre, pos@).dom().insert(
                            chunk,
                        ));
                        assert(r@ == (if ss_mid {
                            Seq::<(PeerId, u8)>::empty()
                        } else {
                            cus_result(ls, target, priority)
                        }));
                        assert(cu_auth_emits(
                            pre,
                            *self,
                            chunk,
                            priority,
                            p_changes,
                            ss_mid,
                            tgt,
                            ls,
                            delta_writes(
                                (if cu_reset_happens(pre, pos@) {
                                    Map::<ChunkCoord, Seq<Pixel>>::empty()
                                } else {
                                    pre.outbound_model.contents()
                                })[chunk],
                                (if cu_reset_happens(pre, pos@) {
                                    crate::model::no_flags()
                                } else {
                                    pre.outbound_model.chunk_changed(chunk)
                                }),
                                CHUNK_LEN as int,
                            ),
                        ));
                        assert(self.chunk_state@[chunk] matches ChunkState::Authority {
                            listeners: l1,
                            priority: p1,
                            new_authority: na_post,
                            stop_sending: ss_post,
                        } && l1@ == ls && p1 == priority && na_post == cu_auth_na1(
                            new_authority,
                            priority,
                        ) && ss_post == cu_auth_ss1(new_authority, stop_sending, priority, ls));
                        assert(forall|x: ChunkCoord|
                            x != chunk && cu_base_cs(pre, pos@).dom().contains(x)
                                ==> self.chunk_state@[x] == cu_base_cs(pre, pos@)[x]);
                    }
                }
                r
            },
            _ => vstd::pervasive::unreached(),
        }
    }

    /// Close one simulator frame: advance the frame counter, run the
    /// per-chunk logic over every chunk this frame touched, coalesce the
    /// resulting deltas into one packet per listener, and reset the
    /// outbound change tracking.
    pub fn add_end(&mut self, priority: u8, pos: &Vec<i32>)
        requires
            old(self).wf(),
            old(self).current_update < u64::MAX,
            pos@.len() == 6 || pos@.len() == 1,
        ensures
            final(self).wf(),
            final(self).current_update == old(self).current_update + 1,
            emits_kept(old(self).emitted_messages@, final(self).emitted_messages@),
            final(self).is_host == old(self).is_host,
            final(self).my_peer_id == old(self).my_peer_id,
            final(self).nice_terraforming == old(self).nice_terraforming,
            final(self).durabilities == old(self).durabilities,
            final(self).outbound_model.dirty@ == Seq::<ChunkCoord>::empty(),
            old(self).outbound_model.dirty@.len() == 0 ==> {
                &&& final(self).chunk_state == old(self).chunk_state
                &&& final(self).inbound_model == old(self).inbound_model
                &&& final(self).chunk_storage == old(self).chunk_storage
                &&& final(self).authority_map == old(self).authority_map
                &&& final(self).chunk_last_update == old(self).chunk_last_update
                &&& final(self).last_request_priority == old(self).last_request_priority
                &&& final(self).emitted_messages == old(self).emitted_messages
                &&& final(self).my_pos == old(self).my_pos
                &&& final(self).cam_pos == old(self).cam_pos
                &&& final(self).is_notplayer == old(self).is_notplayer
                &&& final(self).world_num == old(self).world_num
                &&& outbound_reset(*old(self), *final(self))
            },
            // the per-chunk phase, whatever the frame touched, then packets
            exists|s1: WorldManager, mid: WorldManager, sends: Seq<Seq<(PeerId, u8)>>|
                {
                    &&& inc_only(*old(self), s1)
                    &&& cu_chain(
                        s1,
                        old(self).outbound_model.dirty@,
                        priority,
                        pos@,
                        mid,
                        sends,
                    )
                    &&& outbound_reset(mid, *final(self))
                    &&& final(self).chunk_storage == mid.chunk_storage
                    &&& final(self).authority_map == mid.authority_map
                    &&& final(self).chunk_last_update == mid.chunk_last_update
                    &&& final(self).last_request_priority == mid.last_request_priority
                    &&& final(self).my_pos == mid.my_pos
                    &&& final(self).cam_pos == mid.cam_pos
                    &&& final(self).is_notplayer == mid.is_notplayer
                    &&& final(self).world_num == mid.world_num
                    &&& emits_kept(mid.emitted_messages@, final(self).emitted_messages@)
                    &&& (forall|i: int|
                        mid.emitted_messages@.len() <= i < final(self).emitted_messages@.len()
                            ==> (#[trigger] final(self).emitted_messages@[i]).msg is ChunkPacket
                                && final(self).emitted_messages@[i].dst is Peer)
                    &&& (old(self).outbound_model.dirty@.len() == 1 ==> packet_phase_one(
                        mid,
                        old(self).outbound_model.dirty@[0],
                        sends[0],
                        *final(self),
                    ))
                    // the coalesced packets of any frame: one per routed
                    // listener, carrying that frame's delta of each chunk
                    // routed to it, when every fan-out is self-free
                    &&& ((forall|jj: int| 0 <= jj < sends.len() ==> sends_ok(
                        mid,
                        #[trigger] sends[jj],
                    )) ==> exists|built: Seq<(PeerId, Vec<(ChunkDelta, u8)>)>|
                        {
                            &&& #[trigger] packets_grouped(
                                mid,
                                route_upto(
                                    mid,
                                    old(self).outbound_model.dirty@,
                                    sends,
                                    old(self).outbound_model.dirty@.len() as int,
                                ),
                                built,
                            )
                            &&& final(self).emitted_messages@.len() == mid.emitted_messages@.len()
                                + built.len()
                            &&& forall|x: int|
                                0 <= x < built.len() ==> {
                                    let mr = final(self).emitted_messages@[mid.emitted_messages@.len()
                                        + x];
                                    &&& mr.dst == Destination::Peer((#[trigger] built[x]).0)
                                    &&& mr.msg matches WorldNetMessage::ChunkPacket { chunkpacket }
                                        && chunkpacket@ =~= built[x].1@
                                }
                        })
                },
    {
        let updated_chunks = self.outbound_model.updated_chunks();
        self.current_update = self.current_update + 1;
        let ghost s1 = *self;
        let n = updated_chunks.len();
        let mut chunks_to_send: Vec<Vec<(PeerId, u8)>> = Vec::new();
        let mut i: usize = 0;
        proof {
            assert(inc_only(*old(self), s1));
            assert(updated_chunks@.take(0) =~= Seq::<ChunkCoord>::empty());
            assert(views_of(chunks_to_send@) =~= Seq::<Seq<(PeerId, u8)>>::empty());
        }
        while i < n
            invariant
                self.wf(),
                n == updated_chunks@.len(),
                i <= n,
                chunks_to_send@.len() == i,
                pos@.len() == 6 || pos@.len() == 1,
                inc_only(*old(self), s1),
                self.is_host == s1.is_host,
                self.my_peer_id == s1.my_peer_id,
                self.nice_terraforming == s1.nice_terraforming,
                self.current_update == s1.current_update,
                self.durabilities == s1.durabilities,
                emits_kept(s1.emitted_messages@, self.emitted_messages@),
                cu_chain(
                    s1,
                    updated_chunks@.take(i as int),
                    priority,
                    pos@,
                    *self,
                    views_of(chunks_to_send@),
                ),
            decreases n - i,
        {
            let ghost m2 = *self;
            let ghost cts0 = chunks_to_send@;
            let c = updated_chunks[i];
            let send = self.chunk_updated_locally(c, priority, pos);
            chunks_to_send.push(send);
            proof {
                let sends = views_of(chunks_to_send@);
                assert(updated_chunks@.take(i + 1).drop_last() =~= updated_chunks@.take(i as int));
                assert(updated_chunks@.take(i + 1).last() == updated_chunks@[i as int]);
                assert(sends.drop_last() =~= views_of(cts0));
                assert(sends.last() == send@);
                assert(cu_chain(s1, updated_chunks@.take(i as int), priority, pos@, m2, views_of(cts0))
                    && cu_step(m2, updated_chunks@[i as int], priority, pos@, *self, send@));
            }
            i += 1;
        }
        proof {
            assert(updated_chunks@.take(n as int) =~= updated_chunks@);
        }
        let ghost mid = *self;
        let ghost sends0 = views_of(chunks_to_send@);
        // Coalesce: one packet per listener.
        let mut packets: Vec<(PeerId, Vec<(ChunkDelta, u8)>)> = Vec::new();
        let ghost exact1 = n == 1 && sends_ok(mid, chunks_to_send@[0]@);
        proof {
            assert(packets@.map_values(|pr: (PeerId, Vec<(ChunkDelta, u8)>)| pr.0) =~= first_seen(
                route_upto(mid, updated_chunks@, sends0, 0),
            ));
            assert(packets_grouped(mid, route_upto(mid, updated_chunks@, sends0, 0), packets@));
        }
        let mut j: usize = 0;
        while j < n
            invariant
                self.wf(),
                n == updated_chunks@.len(),
                chunks_to_send@.len() == n,
                j <= n,
                *self == mid,
                n == 0 ==> packets@.len() == 0,
                sends0 == views_of(chunks_to_send@),
                exact1 == (n == 1 && sends_ok(mid, chunks_to_send@[0]@)),
                forall|a: int, b: int|
                    0 <= a < b < packets@.len() ==> (#[trigger] packets@[a]).0 != (
                    #[trigger] packets@[b]).0,
                forall|a: int, b: int|
                    0 <= a < packets@.len() && 0 <= b < (#[trigger] packets@[a]).1@.len()
                        ==> (#[trigger] packets@[a].1@[b]).0.wf(),
                packets_grouped(mid, route_upto(mid, updated_chunks@, sends0, j as int), packets@),
                exact1 ==> packets_exact(mid, updated_chunks@[0], chunks_to_send@[0]@, packets@, j as int),
            decreases n - j,
        {
            let c = updated_chunks[j];
            let ghost routej = route_upto(mid, updated_chunks@, sends0, j as int);
            let ghost legc = route_leg(mid, c, sends0[j as int]);
            let delta_opt = self.outbound_model.get_chunk_delta(c);
            if let Some(delta) = delta_opt {
                proof {
                    assert(mid.outbound_model.chunk_changed(c).len() == CHUNK_LEN);
                    crate::model::lemma_delta_writes_any(
                        mid.outbound_model.contents()[c],
                        mid.outbound_model.chunk_changed(c),
                        CHUNK_LEN as int,
                    );
                    assert(has_delta(mid, c));
                    assert(legc.take(0) =~= Seq::<(PeerId, ChunkCoord, u8)>::empty());
                    assert(routej + legc.take(0) =~= routej);
                }
                let m = chunks_to_send[j].len();
                let mut k: usize = 0;
                while k < m
                    invariant
                        self.wf(),
                        *self == mid,
                        exact1 == (n == 1 && sends_ok(mid, chunks_to_send@[0]@)),
                        m == chunks_to_send@[j as int]@.len(),
                        k <= m,
                        n == updated_chunks@.len(),
                        chunks_to_send@.len() == n,
                        j < n,
                        delta.chunk_coord == c,
                        c == updated_chunks@[j as int],
                        delta.wf(),
                        delta.writes@.len() > 0,
                        mid.outbound_model.contents().dom().contains(c),
                        crate::model::any_changed(mid.outbound_model.chunk_changed(c)),
                        delta.writes@ == delta_writes(
                            mid.outbound_model.contents()[c],
                            mid.outbound_model.chunk_changed(c),
                            CHUNK_LEN as int,
                        ),
                        forall|a: int, b: int|
                            0 <= a < b < packets@.len() ==> (#[trigger] packets@[a]).0 != (
                            #[trigger] packets@[b]).0,
                        forall|a: int, b: int|
                            0 <= a < packets@.len() && 0 <= b < (#[trigger] packets@[a]).1@.len()
                                ==> (#[trigger] packets@[a].1@[b]).0.wf(),
                        sends0 == views_of(chunks_to_send@),
                        has_delta(mid, c),
                        routej == route_upto(mid, updated_chunks@, sends0, j as int),
                        legc == route_leg(mid, c, sends0[j as int]),
                        packets_grouped(mid, routej + legc.take(k as int), packets@),
                        exact1 ==> (j == 0 && packets_prefix(
                            mid,
                            updated_chunks@[0],
                            chunks_to_send@[0]@,
                            packets@,
                            k as int,
                        )),
                    decreases m - k,
                {
                    let (peer, pri) = chunks_to_send[j][k];
                    let dup = delta.duplicate();
                    let ghost pk0 = packets@;
                    proof {
                        assert(sends0[j as int] == chunks_to_send@[j as int]@);
                        assert(legc[k as int] == (
                            sends0[j as int][k as int].0,
                            c,
                            sends0[j as int][k as int].1,
                        ));
                        assert(legc[k as int] == (peer, c, pri));
                    }
                    let mut found: Option<usize> = None;
                    let np = packets.len();
                    let mut a: usize = 0;
                    while a < np
                        invariant
                            np == packets@.len(),
                            a <= np,
                            match found {
                                Some(f) => f < np && packets@[f as int].0 == peer,
                                None => forall|b: int| 0 <= b < a ==> (#[trigger] packets@[b]).0 != peer,
                            },
                        decreases np - a,
                    {
                        if found.is_none() && packets[a].0 == peer {
                            found = Some(a);
                        }
                        a += 1;
                    }
                    match found {
                        Some(f) => {
                            let entry = &mut packets[f];
                            entry.1.push((dup, pri));
                            proof {
                                assert forall|x: int, b: int|
                                    0 <= x < packets@.len() && 0 <= b < (
                                    #[trigger] packets@[x]).1@.len() implies (
                                    #[trigger] packets@[x].1@[b]).0.wf() by {};
                                let e = legc[k as int];
                                lemma_grouped_snoc_found(
                                    mid,
                                    routej + legc.take(k as int),
                                    pk0,
                                    e,
                                    f as int,
                                    packets@,
                                    dup,
                                );
                            }
                        },
                        None => {
                            let mut v: Vec<(ChunkDelta, u8)> = Vec::new();
                            v.push((dup, pri));
                            packets.push((peer, v));
                            proof {
                                let e = legc[k as int];
                                let v2 = packets@[pk0.len() as int].1;
                                assert(v2@.len() == 1 && v2@[0].0 == dup && v2@[0].1 == pri);
                                lemma_grouped_snoc_new(
                                    mid,
                                    routej + legc.take(k as int),
                                    pk0,
                                    e,
                                    v2,
                                    dup,
                                );
                                assert(packets@ =~= pk0.push((e.0, v2)));
                            }
                        },
                    }
                    proof {
                        let e = legc[k as int];
                        assert(legc.take(k + 1) =~= legc.take(k as int).push(e));
                        assert(routej + legc.take(k + 1) =~= (routej + legc.take(
                            k as int,
                        )).push(e));
                        assert(packets_grouped(mid, routej + legc.take(k + 1), packets@));
                    }
                    k += 1;
                }
                proof {
                    assert(legc.take(m as int) =~= legc);
                    assert(route_upto(mid, updated_chunks@, sends0, j + 1) == routej + route_leg(
                        mid,
                        updated_chunks@[j as int],
                        sends0[j as int],
                    ));
                    assert(packets_grouped(
                        mid,
                        route_upto(mid, updated_chunks@, sends0, j + 1),
                        packets@,
                    ));
                }
            } else {
                proof {
                    assert(!has_delta(mid, c));
                    assert(route_leg(mid, c, sends0[j as int])
                        == Seq::<(PeerId, ChunkCoord, u8)>::empty());
                    assert(route_upto(mid, updated_chunks@, sends0, j + 1) =~= routej);
                    assert(packets_grouped(
                        mid,
                        route_upto(mid, updated_chunks@, sends0, j + 1),
                        packets@,
                    ));
                }
            }
            j += 1;
        }
        // Send the packets out.
        let ghost built = packets@;
        proof {
            assert(packets_grouped(mid, route_upto(mid, updated_chunks@, sends0, n as int), built));
        }
        let np = packets.len();
        let mut q: usize = 0;
        let mut rest = packets;
        proof {
            assert(rest@ =~= built.skip(0));
        }
        while q < np
            invariant
                self.wf(),
                np == built.len(),
                q <= np,
                rest@ == built.skip(q as int),
                n == updated_chunks@.len(),
                chunks_to_send@.len() == n,
                exact1 == (n == 1 && sends_ok(mid, chunks_to_send@[0]@)),
                exact1 ==> packets_exact(mid, updated_chunks@[0], chunks_to_send@[0]@, built, 1),
                np == 0 ==> {
                    &&& self.emitted_messages == mid.emitted_messages
                    &&& self.chunk_state == mid.chunk_state
                    &&& self.inbound_model == mid.inbound_model
                },
                emits_kept(mid.emitted_messages@, self.emitted_messages@),
                forall|a: int|
                    mid.emitted_messages@.len() <= a < self.emitted_messages@.len() ==> (
                    #[trigger] self.emitted_messages@[a]).msg is ChunkPacket
                        && self.emitted_messages@[a].dst is Peer,
                forall|a: int, b: int|
                    0 <= a < built.len() && 0 <= b < (#[trigger] built[a]).1@.len()
                        ==> (#[trigger] built[a].1@[b]).0.wf(),
                self.outbound_model == mid.outbound_model,
                same_packet_frames(mid, *self),
                self.is_host == mid.is_host,
                self.my_peer_id == mid.my_peer_id,
                self.nice_terraforming == mid.nice_terraforming,
                self.current_update == mid.current_update,
                self.durabilities == mid.durabilities,
                emits_kept(s1.emitted_messages@, self.emitted_messages@),
                (forall|a: int| 0 <= a < built.len() ==> (#[trigger] built[a]).0 != mid.my_peer_id)
                    ==> {
                    &&& self.chunk_state == mid.chunk_state
                    &&& self.inbound_model == mid.inbound_model
                    &&& self.emitted_messages@.len() == mid.emitted_messages@.len() + q
                    &&& (forall|x: int|
                        0 <= x < mid.emitted_messages@.len() ==> self.emitted_messages@[x]
                            == mid.emitted_messages@[x])
                    &&& (forall|x: int|
                        0 <= x < q ==> {
                            let mr = self.emitted_messages@[mid.emitted_messages@.len() + x];
                            &&& mr.dst == Destination::Peer((#[trigger] built[x]).0)
                            &&& mr.msg matches WorldNetMessage::ChunkPacket { chunkpacket }
                                && chunkpacket@ =~= built[x].1@
                        })
                },
            decreases np - q,
        {
            let (peer, pkt) = rest.remove(0);
            proof {
                assert(built.skip(q as int)[0] == built[q as int]);
                assert(built.skip(q as int).remove(0) =~= built.skip(q + 1));
            }
            self.emit_msg(
                Destination::Peer(peer),
                WorldNetMessage::ChunkPacket { chunkpacket: pkt },
            );
            q += 1;
        }
        self.outbound_model.reset_change_tracking();
        proof {
            let sends = views_of(chunks_to_send@);
            assert(cu_chain(s1, updated_chunks@, priority, pos@, mid, sends));
            if old(self).outbound_model.dirty@.len() == 1 {
                let c0 = old(self).outbound_model.dirty@[0];
                let r0 = chunks_to_send@[0]@;
                let m2 = choose|m2: WorldManager|
                    cu_chain(
                        s1,
                        updated_chunks@.drop_last(),
                        priority,
                        pos@,
                        m2,
                        sends.drop_last(),
                    ) && cu_step(m2, updated_chunks@.last(), priority, pos@, mid, sends.last());
                assert(updated_chunks@.drop_last().len() == 0);
                assert(m2 == s1);
                assert(sends.last() == r0);
                assert(updated_chunks@.last() == c0);
                assert(cu_step(s1, c0, priority, pos@, mid, r0));
                if sends_ok(mid, r0) {
                    assert(exact1);
                    assert(updated_chunks@[0] == c0);
                    assert(packets_exact(mid, c0, r0, built, 1));
                    let has = mid.outbound_model.contents().dom().contains(c0)
                        && crate::model::any_changed(mid.outbound_model.chunk_changed(c0));
                    if has {
                        assert(packets_prefix(mid, c0, r0, built, r0.len() as int));
                        assert forall|a: int|
                            0 <= a < built.len() implies (#[trigger] built[a]).0
                            != mid.my_peer_id by {
                            assert(built[a].0 == r0[a].0);
                        }
                        let dw = delta_writes(
                            mid.outbound_model.contents()[c0],
                            mid.outbound_model.chunk_changed(c0),
                            CHUNK_LEN as int,
                        );
                        assert forall|x: int| 0 <= x < r0.len() implies {
                            let mr = final(self).emitted_messages@[mid.emitted_messages@.len()
                                + x];
                            &&& mr.dst == Destination::Peer((#[trigger] r0[x]).0)
                            &&& mr.msg matches WorldNetMessage::ChunkPacket { chunkpacket }
                                && chunkpacket@.len() == 1 && chunkpacket@[0].0.chunk_coord == c0
                                && chunkpacket@[0].0.writes@ == dw && chunkpacket@[0].1 == r0[x].1
                        } by {
                            assert(built[x].0 == r0[x].0);
                            assert(built[x].1@.len() == 1);
                            assert(built[x].1@[0].0.chunk_coord == c0);
                            assert(built[x].1@[0].0.writes@ == dw);
                            assert(built[x].1@[0].1 == r0[x].1);
                        }
                    } else {
                        assert(built.len() == 0);
                        assert(forall|a: int|
                            0 <= a < built.len() ==> (#[trigger] built[a]).0 != mid.my_peer_id);
                    }
                    assert(packet_phase_one(mid, c0, r0, *final(self)));
                } else {
                    assert(packet_phase_one(mid, c0, r0, *final(self)));
                }
                assert(sends[0] == r0);
                assert(packet_phase_one(mid, c0, sends[0], *final(self)));
            }
            assert(outbound_reset(mid, *final(self)));
            assert(inc_only(*old(self), s1) && cu_chain(
                s1,
                old(self).outbound_model.dirty@,
                priority,
                pos@,
                mid,
                sends,
            ) && outbound_reset(mid, *final(self)) && final(self).chunk_storage
                == mid.chunk_storage && final(self).authority_map == mid.authority_map && final(self).chunk_last_update == mid.chunk_last_update && final(self).last_request_priority
                == mid.last_request_priority && final(self).my_pos == mid.my_pos && final(self).cam_pos == mid.cam_pos && final(self).is_notplayer == mid.is_notplayer && final(self).world_num == mid.world_num && emits_kept(
                mid.emitted_messages@,
                final(self).emitted_messages@,
            ) && (forall|a: int|
                mid.emitted_messages@.len() <= a < final(self).emitted_messages@.len() ==> (
                #[trigger] final(self).emitted_messages@[a]).msg is ChunkPacket && final(self).emitted_messages@[a].dst is Peer) && (old(self).outbound_model.dirty@.len() == 1
                ==> packet_phase_one(
                mid,
                old(self).outbound_model.dirty@[0],
                sends[0],
                *final(self),
            )));
            if forall|jj: int| 0 <= jj < sends.len() ==> sends_ok(mid, #[trigger] sends[jj]) {
                let route = route_upto(mid, updated_chunks@, sends0, n as int);
                assert(sends == sends0);
                lemma_first_seen_props(route);
                lemma_route_peers(mid, updated_chunks@, sends0, n as int);
                assert forall|a: int| 0 <= a < built.len() implies (#[trigger] built[a]).0
                    != mid.my_peer_id by {
                    assert(built.map_values(|pr: (PeerId, Vec<(ChunkDelta, u8)>)| pr.0)[a]
                        == built[a].0);
                    assert(first_seen(route)[a] == built[a].0);
                    let i = choose|i: int|
                        0 <= i < route.len() && (#[trigger] route[i]).0 == first_seen(route)[a];
                    assert(route[i].0 != mid.my_peer_id);
                }
                assert(final(self).emitted_messages@.len() == mid.emitted_messages@.len()
                    + built.len());
                assert(updated_chunks@ == old(self).outbound_model.dirty@);
                assert(packets_grouped(
                    mid,
                    route_upto(
                        mid,
                        old(self).outbound_model.dirty@,
                        sends,
                        old(self).outbound_model.dirty@.len() as int,
                    ),
                    built,
                ) && final(self).emitted_messages@.len() == mid.emitted_messages@.len()
                    + built.len() && (forall|x: int|
                    0 <= x < built.len() ==> {
                        let mr = final(self).emitted_messages@[mid.emitted_messages@.len() + x];
                        &&& mr.dst == Destination::Peer((#[trigger] built[x]).0)
                        &&& mr.msg matches WorldNetMessage::ChunkPacket { chunkpacket }
                            && chunkpacket@ =~= built[x].1@
                    }));
            }
            if old(self).outbound_model.dirty@.len() == 0 {
                assert(mid == s1) by {
                    assert(cu_chain(
                        s1,
                        updated_chunks@.take(0),
                        priority,
                        pos@,
                        mid,
                        views_of(chunks_to_send@),
                    ));
                }
            }
        }
    }
}

/// The fields the packet-sending phase never touches.
pub open spec fn same_packet_frames(mid: WorldManager, post: WorldManager) -> bool {
    &&& post.chunk_storage == mid.chunk_storage
    &&& post.authority_map == mid.authority_map
    &&& post.chunk_last_update == mid.chunk_last_update
    &&& post.last_request_priority == mid.last_request_priority
    &&& post.my_pos == mid.my_pos
    &&& post.cam_pos == mid.cam_pos
    &&& post.is_notplayer == mid.is_notplayer
    &&& post.world_num == mid.world_num
}

/// The coalesced packets of a single-chunk frame, after the first `k`
/// fan-out entries: one singleton packet per entry, in order.
pub open spec fn packets_prefix(
    mid: WorldManager,
    c: ChunkCoord,
    r: Seq<(PeerId, u8)>,
    packets: Seq<(PeerId, Vec<(ChunkDelta, u8)>)>,
    k: int,
) -> bool {
    let dw = delta_writes(
        mid.outbound_model.contents()[c],
        mid.outbound_model.chunk_changed(c),
        CHUNK_LEN as int,
    );
    &&& packets.len() == k
    &&& forall|a: int|
        0 <= a < k ==> {
            let pk = #[trigger] packets[a];
            &&& pk.0 == r[a].0
            &&& pk.1@.len() == 1
            &&& pk.1@[0].0.chunk_coord == c
            &&& pk.1@[0].0.writes@ == dw
            &&& pk.1@[0].1 == r[a].1
        }
}

/// The coalesced packets of a single-chunk frame after processing `j` of
/// its one chunk: nothing yet, or one packet per fan-out entry.
pub open spec fn packets_exact(
    mid: WorldManager,
    c: ChunkCoord,
    r: Seq<(PeerId, u8)>,
    packets: Seq<(PeerId, Vec<(ChunkDelta, u8)>)>,
    j: int,
) -> bool {
    let has = mid.outbound_model.contents().dom().contains(c) && crate::model::any_changed(
        mid.outbound_model.chunk_changed(c),
    );
    if j == 0 {
        packets.len() == 0
    } else if has {
        packets_prefix(mid, c, r, packets, r.len() as int)
    } else {
        packets.len() == 0
    }
}

/// Does chunk `c` carry a delta this frame?
pub open spec fn has_delta(mid: WorldManager, c: ChunkCoord) -> bool {
    mid.outbound_model.contents().dom().contains(c) && crate::model::any_changed(
        mid.outbound_model.chunk_changed(c),
    )
}

/// One chunk's contribution to the frame's routing: an entry per fan-out
/// listener, if the chunk carries a delta; nothing otherwise.
pub open spec fn route_leg(mid: WorldManager, c: ChunkCoord, r: Seq<(PeerId, u8)>) -> Seq<
    (PeerId, ChunkCoord, u8),
> {
    if has_delta(mid, c) {
        r.map_values(|e: (PeerId, u8)| (e.0, c, e.1))
    } else {
        Seq::empty()
    }
}

/// The frame's routing over the first `j` updated chunks, flattened in
/// frame order.
pub open spec fn route_upto(
    mid: WorldManager,
    chunks: Seq<ChunkCoord>,
    sends: Seq<Seq<(PeerId, u8)>>,
    j: int,
) -> Seq<(PeerId, ChunkCoord, u8)>
    decreases j,
{
    if j <= 0 {
        Seq::empty()
    } else {
        route_upto(mid, chunks, sends, j - 1) + route_leg(mid, chunks[j - 1], sends[j - 1])
    }
}

/// The listeners of a routing, each at its first appearance.
pub open spec fn first_seen(route: Seq<(PeerId, ChunkCoord, u8)>) -> Seq<PeerId>
    decreases route.len(),
{
    if route.len() == 0 {
        Seq::empty()
    } else {
        let rest = first_seen(route.drop_last());
        if rest.contains(route.last().0) {
            rest
        } else {
            rest.push(route.last().0)
        }
    }
}

/// The chunks and priorities routed to `p`, in frame order.
pub open spec fn route_for(route: Seq<(PeerId, ChunkCoord, u8)>, p: PeerId) -> Seq<
    (ChunkCoord, u8),
>
    decreases route.len(),
{
    if route.len() == 0 {
        Seq::empty()
    } else {
        let rest = route_for(route.drop_last(), p);
        if route.last().0 == p {
            rest.push((route.last().1, route.last().2))
        } else {
            rest
        }
    }
}

/// `packets` is the routing grouped into one packet per listener: the
/// listeners in first-appearance order, each packet carrying, in frame
/// order, the delta of every chunk routed to that listener, at the
/// priority it was routed with.
pub open spec fn packets_grouped(
    mid: WorldManager,
    route: Seq<(PeerId, ChunkCoord, u8)>,
    packets: Seq<(PeerId, Vec<(ChunkDelta, u8)>)>,
) -> bool {
    &&& packets.map_values(|pr: (PeerId, Vec<(ChunkDelta, u8)>)| pr.0) == first_seen(route)
    &&& forall|a: int|
        0 <= a < packets.len() ==> {
            let mine = route_for(route, (#[trigger] packets[a]).0);
            &&& packets[a].1@.len() == mine.len()
            &&& forall|b: int|
                0 <= b < mine.len() ==> {
                    &&& (#[trigger] packets[a].1@[b]).0.chunk_coord == mine[b].0
                    &&& packets[a].1@[b].0.writes@ == delta_writes(
                        mid.outbound_model.contents()[mine[b].0],
                        mid.outbound_model.chunk_changed(mine[b].0),
                        CHUNK_LEN as int,
                    )
                    &&& packets[a].1@[b].1 == mine[b].1
                }
        }
}

/// The listeners of a routing are distinct; each of them routes
/// something; everything routed is listed.
proof fn lemma_first_seen_props(route: Seq<(PeerId, ChunkCoord, u8)>)
    ensures
        forall|a: int, b: int|
            #![trigger first_seen(route)[a], first_seen(route)[b]]
            0 <= a < b < first_seen(route).len() ==> first_seen(route)[a] != first_seen(route)[b],
        forall|a: int|
            #![trigger first_seen(route)[a]]
            0 <= a < first_seen(route).len() ==> exists|i: int|
                0 <= i < route.len() && (#[trigger] route[i]).0 == first_seen(route)[a],
        forall|i: int| 0 <= i < route.len() ==> first_seen(route).contains((#[trigger] route[i]).0),
    decreases route.len(),
{
    if route.len() > 0 {
        lemma_first_seen_props(route.drop_last());
        let rest = first_seen(route.drop_last());
        let cur = first_seen(route);
        assert forall|a: int| #![trigger cur[a]]
            0 <= a < cur.len() implies exists|i: int|
                0 <= i < route.len() && (#[trigger] route[i]).0 == cur[a] by {
            if a < rest.len() {
                assert(cur[a] == rest[a]);
                let i = choose|i: int|
                    0 <= i < route.drop_last().len() && (#[trigger] route.drop_last()[i]).0
                        == rest[a];
                assert(route[i] == route.drop_last()[i]);
                assert(route[i].0 == cur[a]);
            } else {
                assert(cur[a] == route.last().0);
                assert(route[route.len() - 1].0 == cur[a]);
            }
        }
        assert forall|i: int| 0 <= i < route.len() implies cur.contains(
            (#[trigger] route[i]).0,
        ) by {
            if i < route.len() - 1 {
                assert(route.drop_last()[i] == route[i]);
                assert(rest.contains(route.drop_last()[i].0));
                let a = choose|a: int| 0 <= a < rest.len() && rest[a] == route[i].0;
                assert(cur[a] == route[i].0);
            } else {
                if rest.contains(route.last().0) {
                    let a = choose|a: int| 0 <= a < rest.len() && rest[a] == route.last().0;
                    assert(cur[a] == route.last().0);
                } else {
                    assert(cur[cur.len() - 1] == route.last().0);
                }
            }
        }
        if !rest.contains(route.last().0) {
            assert forall|a: int, b: int|
                #![trigger cur[a], cur[b]]
                0 <= a < b < cur.len() implies cur[a] != cur[b] by {
                if b < cur.len() - 1 {
                    assert(cur[a] == rest[a] && cur[b] == rest[b]);
                } else {
                    assert(cur[a] == rest[a]);
                    assert(cur[b] == route.last().0);
                    if rest[a] == route.last().0 {
                        assert(rest.contains(route.last().0));
                        assert(false);
                    }
                }
            }
        }
    }
}

/// A routing with no entry for `p` routes nothing to `p`.
proof fn lemma_route_for_absent(route: Seq<(PeerId, ChunkCoord, u8)>, p: PeerId)
    requires
        forall|i: int| 0 <= i < route.len() ==> (#[trigger] route[i]).0 != p,
    ensures
        route_for(route, p) == Seq::<(ChunkCoord, u8)>::empty(),
    decreases route.len(),
{
    if route.len() > 0 {
        assert forall|i: int|
            0 <= i < route.drop_last().len() implies (#[trigger] route.drop_last()[i]).0 != p by {
            assert(route.drop_last()[i] == route[i]);
        }
        lemma_route_for_absent(route.drop_last(), p);
        assert(route[route.len() - 1].0 != p);
    }
}

proof fn lemma_first_seen_snoc(route: Seq<(PeerId, ChunkCoord, u8)>, e: (PeerId, ChunkCoord, u8))
    ensures
        first_seen(route.push(e)) == if first_seen(route).contains(e.0) {
            first_seen(route)
        } else {
            first_seen(route).push(e.0)
        },
{
    assert(route.push(e).drop_last() =~= route);
    assert(route.push(e).last() == e);
}

proof fn lemma_route_for_snoc(
    route: Seq<(PeerId, ChunkCoord, u8)>,
    e: (PeerId, ChunkCoord, u8),
    p: PeerId,
)
    ensures
        route_for(route.push(e), p) == if e.0 == p {
            route_for(route, p).push((e.1, e.2))
        } else {
            route_for(route, p)
        },
{
    assert(route.push(e).drop_last() =~= route);
    assert(route.push(e).last() == e);
}

/// Extending the routing by one entry for an already-grouped listener
/// extends that listener's packet in place.
proof fn lemma_grouped_snoc_found(
    mid: WorldManager,
    route: Seq<(PeerId, ChunkCoord, u8)>,
    packets: Seq<(PeerId, Vec<(ChunkDelta, u8)>)>,
    e: (PeerId, ChunkCoord, u8),
    f: int,
    packets2: Seq<(PeerId, Vec<(ChunkDelta, u8)>)>,
    d: ChunkDelta,
)
    requires
        packets_grouped(mid, route, packets),
        0 <= f < packets.len(),
        packets[f].0 == e.0,
        d.chunk_coord == e.1,
        d.writes@ == delta_writes(
            mid.outbound_model.contents()[e.1],
            mid.outbound_model.chunk_changed(e.1),
            CHUNK_LEN as int,
        ),
        packets2.len() == packets.len(),
        forall|b: int| 0 <= b < packets.len() && b != f ==> packets2[b] == #[trigger] packets[b],
        packets2[f].0 == e.0,
        packets2[f].1@ == packets[f].1@.push((d, e.2)),
    ensures
        packets_grouped(mid, route.push(e), packets2),
{
    lemma_first_seen_props(route);
    lemma_first_seen_snoc(route, e);
    let fs = first_seen(route);
    assert(packets.map_values(|pr: (PeerId, Vec<(ChunkDelta, u8)>)| pr.0)[f] == packets[f].0);
    assert(fs[f] == e.0);
    assert(fs.contains(e.0));
    assert(first_seen(route.push(e)) == fs);
    assert(packets2.map_values(|pr: (PeerId, Vec<(ChunkDelta, u8)>)| pr.0) =~= fs);
    assert forall|a: int| 0 <= a < packets2.len() implies {
        let mine = route_for(route.push(e), (#[trigger] packets2[a]).0);
        &&& packets2[a].1@.len() == mine.len()
        &&& forall|b: int|
            0 <= b < mine.len() ==> {
                &&& (#[trigger] packets2[a].1@[b]).0.chunk_coord == mine[b].0
                &&& packets2[a].1@[b].0.writes@ == delta_writes(
                    mid.outbound_model.contents()[mine[b].0],
                    mid.outbound_model.chunk_changed(mine[b].0),
                    CHUNK_LEN as int,
                )
                &&& packets2[a].1@[b].1 == mine[b].1
            }
    } by {
        lemma_route_for_snoc(route, e, packets2[a].0);
        let mine0 = route_for(route, packets2[a].0);
        let mine = route_for(route.push(e), packets2[a].0);
        if a == f {
            assert(packets2[a].0 == e.0);
            assert(mine == mine0.push((e.1, e.2)));
            assert(packets[a].1@.len() == mine0.len());
            assert forall|b: int| 0 <= b < mine.len() implies {
                &&& (#[trigger] packets2[a].1@[b]).0.chunk_coord == mine[b].0
                &&& packets2[a].1@[b].0.writes@ == delta_writes(
                    mid.outbound_model.contents()[mine[b].0],
                    mid.outbound_model.chunk_changed(mine[b].0),
                    CHUNK_LEN as int,
                )
                &&& packets2[a].1@[b].1 == mine[b].1
            } by {
                if b < mine0.len() {
                    assert(packets2[a].1@[b] == packets[a].1@[b]);
                    assert(mine[b] == mine0[b]);
                } else {
                    assert(packets2[a].1@[b] == (d, e.2));
                    assert(mine[b] == (e.1, e.2));
                }
            }
        } else {
            assert(packets2[a] == packets[a]);
            assert(packets.map_values(|pr: (PeerId, Vec<(ChunkDelta, u8)>)| pr.0)[a]
                == packets[a].0);
            assert(fs[a] == packets[a].0);
            assert(packets[a].0 != e.0);
            assert(mine == mine0);
        }
    }
}

/// Extending the routing by one entry for a fresh listener appends a new
/// singleton packet.
proof fn lemma_grouped_snoc_new(
    mid: WorldManager,
    route: Seq<(PeerId, ChunkCoord, u8)>,
    packets: Seq<(PeerId, Vec<(ChunkDelta, u8)>)>,
    e: (PeerId, ChunkCoord, u8),
    v: Vec<(ChunkDelta, u8)>,
    d: ChunkDelta,
)
    requires
        packets_grouped(mid, route, packets),
        forall|b: int| 0 <= b < packets.len() ==> (#[trigger] packets[b]).0 != e.0,
        d.chunk_coord == e.1,
        d.writes@ == delta_writes(
            mid.outbound_model.contents()[e.1],
            mid.outbound_model.chunk_changed(e.1),
            CHUNK_LEN as int,
        ),
        v@.len() == 1,
        v@[0].0 == d,
        v@[0].1 == e.2,
    ensures
        packets_grouped(mid, route.push(e), packets.push((e.0, v))),
{
    lemma_first_seen_props(route);
    lemma_first_seen_snoc(route, e);
    let fs = first_seen(route);
    let packets2 = packets.push((e.0, v));
    if fs.contains(e.0) {
        let a = choose|a: int| 0 <= a < fs.len() && fs[a] == e.0;
        assert(packets.map_values(|pr: (PeerId, Vec<(ChunkDelta, u8)>)| pr.0)[a] == packets[a].0);
        assert(packets[a].0 == e.0);
        assert(false);
    }
    assert(first_seen(route.push(e)) == fs.push(e.0));
    assert(packets2.map_values(|pr: (PeerId, Vec<(ChunkDelta, u8)>)| pr.0) =~= fs.push(e.0));
    assert forall|i: int| 0 <= i < route.len() implies (#[trigger] route[i]).0 != e.0 by {
        assert(fs.contains(route[i].0));
        if route[i].0 == e.0 {
            assert(fs.contains(e.0));
        }
    }
    lemma_route_for_absent(route, e.0);
    assert forall|a: int| 0 <= a < packets2.len() implies {
        let mine = route_for(route.push(e), (#[trigger] packets2[a]).0);
        &&& packets2[a].1@.len() == mine.len()
        &&& forall|b: int|
            0 <= b < mine.len() ==> {
                &&& (#[trigger] packets2[a].1@[b]).0.chunk_coord == mine[b].0
                &&& packets2[a].1@[b].0.writes@ == delta_writes(
                    mid.outbound_model.contents()[mine[b].0],
                    mid.outbound_model.chunk_changed(mine[b].0),
                    CHUNK_LEN as int,
                )
                &&& packets2[a].1@[b].1 == mine[b].1
            }
    } by {
        lemma_route_for_snoc(route, e, packets2[a].0);
        let mine0 = route_for(route, packets2[a].0);
        let mine = route_for(route.push(e), packets2[a].0);
        if a < packets.len() {
            assert(packets2[a] == packets[a]);
            assert(packets[a].0 != e.0);
            assert(mine == mine0);
        } else {
            assert(packets2[a] == (e.0, v));
            assert(mine0 == Seq::<(ChunkCoord, u8)>::empty());
            assert(mine == mine0.push((e.1, e.2)));
            assert(packets2[a].1@[0] == (d, e.2));
            assert(mine[0] == (e.1, e.2));
        }
    }
}

/// Every listener in a routing built from self-free fan-outs is another
/// peer.
proof fn lemma_route_peers(
    mid: WorldManager,
    chunks: Seq<ChunkCoord>,
    sends: Seq<Seq<(PeerId, u8)>>,
    j: int,
)
    requires
        j <= chunks.len(),
        j <= sends.len(),
        forall|x: int| 0 <= x < sends.len() ==> sends_ok(mid, #[trigger] sends[x]),
    ensures
        forall|i: int|
            0 <= i < route_upto(mid, chunks, sends, j).len() ==> (#[trigger] route_upto(
                mid,
                chunks,
                sends,
                j,
            )[i]).0 != mid.my_peer_id,
    decreases j,
{
    if j > 0 {
        lemma_route_peers(mid, chunks, sends, j - 1);
        let prev = route_upto(mid, chunks, sends, j - 1);
        let leg = route_leg(mid, chunks[j - 1], sends[j - 1]);
        assert forall|i: int|
            0 <= i < route_upto(mid, chunks, sends, j).len() implies (#[trigger] route_upto(
            mid,
            chunks,
            sends,
            j,
        )[i]).0 != mid.my_peer_id by {
            if i < prev.len() {
                assert(route_upto(mid, chunks, sends, j)[i] == prev[i]);
            } else {
                assert(route_upto(mid, chunks, sends, j)[i] == leg[i - prev.len()]);
                assert(has_delta(mid, chunks[j - 1]));
                assert(leg[i - prev.len()].0 == sends[j - 1][i - prev.len()].0);
                assert(sends_ok(mid, sends[j - 1]));
                assert((sends[j - 1][i - prev.len()]).0 != mid.my_peer_id);
            }
        }
    }
}

} // verus!
