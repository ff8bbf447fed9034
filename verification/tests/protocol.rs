//! End-to-end protocol runs with a host and two peers, exercising the
//! grant, listen, preemption, transfer, teardown and departure flows.

use world_sync::coords::{ChunkCoord, PeerId};
use world_sync::manager::WorldManager;
use world_sync::messages::{Destination, MessageRequest, WorldNetMessage};
use world_sync::pixel::{NoitaWorldUpdate, Pixel, PixelFlags};
use world_sync::state::ChunkState;

const HOST: PeerId = PeerId(1);
const PEER_A: PeerId = PeerId(2);
const PEER_B: PeerId = PeerId(3);

fn fresh(is_host: bool, id: PeerId) -> WorldManager {
    WorldManager::new(is_host, id, Vec::new())
}

fn solid(material: u16) -> Pixel {
    Pixel { flags: PixelFlags::Normal, material }
}

fn edit(m: &mut WorldManager, chunk: ChunkCoord, idx: u16, material: u16, priority: u8) {
    m.add_update(NoitaWorldUpdate { coord: chunk, writes: vec![(idx, solid(material))] });
    m.add_end(priority, &vec![0, 0, 0, 0, 0, 0]);
}

/// Feed every queued message of `from` into whichever manager it addresses.
fn pump(from: &mut WorldManager, others: &mut [(&mut WorldManager, PeerId)]) {
    let source = from.my_peer_id;
    let msgs = from.get_emitted_msgs();
    for MessageRequest { dst, msg } in msgs {
        match dst {
            Destination::Host => {
                for (m, _) in others.iter_mut() {
                    if m.is_host {
                        m.handle_msg(source, clone_msg(&msg));
                    }
                }
            }
            Destination::Peer(p) => {
                for (m, id) in others.iter_mut() {
                    if *id == p {
                        m.handle_msg(source, clone_msg(&msg));
                    }
                }
            }
            Destination::Broadcast => {
                for (m, _) in others.iter_mut() {
                    m.handle_msg(source, clone_msg(&msg));
                }
            }
        }
    }
}

fn clone_msg(msg: &WorldNetMessage) -> WorldNetMessage {
    match msg {
        WorldNetMessage::RequestAuthority { chunk, priority, can_wait } => {
            WorldNetMessage::RequestAuthority { chunk: *chunk, priority: *priority, can_wait: *can_wait }
        }
        WorldNetMessage::AskForAuthority { chunk, priority } => {
            WorldNetMessage::AskForAuthority { chunk: *chunk, priority: *priority }
        }
        WorldNetMessage::LoseAuthority { chunk, new_priority, new_authority } => {
            WorldNetMessage::LoseAuthority {
                chunk: *chunk,
                new_priority: *new_priority,
                new_authority: *new_authority,
            }
        }
        WorldNetMessage::ChangePriority { chunk, priority } => {
            WorldNetMessage::ChangePriority { chunk: *chunk, priority: *priority }
        }
        WorldNetMessage::GotAuthority { chunk, chunk_data, priority } => {
            WorldNetMessage::GotAuthority {
                chunk: *chunk,
                chunk_data: chunk_data.as_ref().map(|d| d.duplicate()),
                priority: *priority,
            }
        }
        WorldNetMessage::RelinquishAuthority { chunk, chunk_data, world_num } => {
            WorldNetMessage::RelinquishAuthority {
                chunk: *chunk,
                chunk_data: chunk_data.as_ref().map(|d| d.duplicate()),
                world_num: *world_num,
            }
        }
        WorldNetMessage::UpdateStorage { chunk, chunk_data, world_num } => {
            WorldNetMessage::UpdateStorage {
                chunk: *chunk,
                chunk_data: chunk_data.as_ref().map(|d| d.duplicate()),
                world_num: *world_num,
            }
        }
        WorldNetMessage::AuthorityAlreadyTaken { chunk, authority } => {
            WorldNetMessage::AuthorityAlreadyTaken { chunk: *chunk, authority: *authority }
        }
        WorldNetMessage::ListenRequest { chunk } => WorldNetMessage::ListenRequest { chunk: *chunk },
        WorldNetMessage::ListenStopRequest { chunk } => {
            WorldNetMessage::ListenStopRequest { chunk: *chunk }
        }
        WorldNetMessage::UnloadChunk { chunk } => WorldNetMessage::UnloadChunk { chunk: *chunk },
        WorldNetMessage::ListenInitialResponse { chunk, chunk_data, priority } => {
            WorldNetMessage::ListenInitialResponse {
                chunk: *chunk,
                chunk_data: chunk_data.as_ref().map(|d| d.duplicate()),
                priority: *priority,
            }
        }
        WorldNetMessage::ListenUpdate { delta, priority, take_auth } => {
            WorldNetMessage::ListenUpdate {
                delta: delta.duplicate(),
                priority: *priority,
                take_auth: *take_auth,
            }
        }
        WorldNetMessage::ChunkPacket { chunkpacket } => WorldNetMessage::ChunkPacket {
            chunkpacket: chunkpacket.iter().map(|(d, p)| (d.duplicate(), *p)).collect(),
        },
        WorldNetMessage::ListenAuthorityRelinquished { chunk } => {
            WorldNetMessage::ListenAuthorityRelinquished { chunk: *chunk }
        }
        WorldNetMessage::GetAuthorityFrom { chunk, current_authority } => {
            WorldNetMessage::GetAuthorityFrom {
                chunk: *chunk,
                current_authority: *current_authority,
            }
        }
        WorldNetMessage::RequestAuthorityTransfer { chunk } => {
            WorldNetMessage::RequestAuthorityTransfer { chunk: *chunk }
        }
        WorldNetMessage::TransferOk { chunk, chunk_data, listeners } => {
            WorldNetMessage::TransferOk {
                chunk: *chunk,
                chunk_data: chunk_data.as_ref().map(|d| d.duplicate()),
                listeners: listeners.duplicate(),
            }
        }
        WorldNetMessage::TransferFailed { chunk } => {
            WorldNetMessage::TransferFailed { chunk: *chunk }
        }
        WorldNetMessage::NotifyNewAuthority { chunk } => {
            WorldNetMessage::NotifyNewAuthority { chunk: *chunk }
        }
    }
}

fn is_authority(m: &WorldManager, chunk: ChunkCoord) -> bool {
    matches!(m.chunk_state.get(chunk), Some(ChunkState::Authority { .. }))
}

#[test]
fn initial_claim() {
    let c = ChunkCoord(0, 0);
    let mut h = fresh(true, HOST);
    let mut a = fresh(false, PEER_A);

    edit(&mut a, c, 0, 7, 100);
    a.update();
    let msgs = a.get_emitted_msgs();
    assert_eq!(msgs.len(), 1);
    assert!(matches!(msgs[0].dst, Destination::Host));
    match &msgs[0].msg {
        WorldNetMessage::RequestAuthority { chunk, priority, can_wait } => {
            assert_eq!(*chunk, c);
            assert_eq!(*priority, 100);
            assert!(*can_wait);
        }
        other => panic!("unexpected message {:?}", other),
    }
    h.handle_msg(PEER_A, msgs.into_iter().next().unwrap().msg);
    let grants = h.get_emitted_msgs();
    assert_eq!(grants.len(), 1);
    match &grants[0].msg {
        WorldNetMessage::GotAuthority { chunk, chunk_data, priority } => {
            assert_eq!(*chunk, c);
            assert!(chunk_data.is_none());
            assert_eq!(*priority, 100);
        }
        other => panic!("unexpected message {:?}", other),
    }
    a.handle_msg(HOST, grants.into_iter().next().unwrap().msg);
    assert!(is_authority(&a, c));
    assert_eq!(h.authority_map.get(c).copied(), Some((PEER_A, 100)));
}

fn claim(h: &mut WorldManager, a: &mut WorldManager, c: ChunkCoord, priority: u8) {
    let id = a.my_peer_id;
    edit(a, c, 0, 7, priority);
    a.update();
    pump(a, &mut [(h, HOST)]);
    pump(h, &mut [(a, id)]);
    assert!(is_authority(a, c));
}

#[test]
fn second_peer_listens() {
    let c = ChunkCoord(0, 0);
    let mut h = fresh(true, HOST);
    let mut a = fresh(false, PEER_A);
    let mut b = fresh(false, PEER_B);
    claim(&mut h, &mut a, c, 100);

    edit(&mut b, c, 1, 9, 100);
    b.update();
    pump(&mut b, &mut [(&mut h, HOST)]);
    // the host points B at A
    let routed = h.get_emitted_msgs();
    assert!(matches!(
        routed[0].msg,
        WorldNetMessage::AuthorityAlreadyTaken { authority: PEER_A, .. }
    ));
    for MessageRequest { msg, .. } in routed {
        b.handle_msg(HOST, msg);
    }
    // B subscribes with A; A answers with its content
    pump(&mut b, &mut [(&mut a, PEER_A)]);
    pump(&mut a, &mut [(&mut b, PEER_B)]);
    match b.chunk_state.get(c) {
        Some(ChunkState::Listening { authority, priority }) => {
            assert_eq!(*authority, PEER_A);
            assert_eq!(*priority, 100);
        }
        other => panic!("unexpected state {:?}", other),
    }
    match a.chunk_state.get(c) {
        Some(ChunkState::Authority { listeners, .. }) => {
            assert!(listeners.contains(PEER_B));
            assert_eq!(listeners.len(), 1);
        }
        other => panic!("unexpected state {:?}", other),
    }
    // B absorbed A's chunk content
    let data = b.inbound_model.get_chunk_data(c).expect("listener content");
    assert_eq!(data.pixels[0].material, 7);
}

#[test]
fn priority_preemption_transfers_authority() {
    let c = ChunkCoord(0, 0);
    let mut h = fresh(true, HOST);
    let mut a = fresh(false, PEER_A);
    let mut b = fresh(false, PEER_B);
    claim(&mut h, &mut a, c, 100);
    edit(&mut b, c, 1, 9, 100);
    b.update();
    pump(&mut b, &mut [(&mut h, HOST)]);
    pump(&mut h, &mut [(&mut b, PEER_B)]);
    pump(&mut b, &mut [(&mut a, PEER_A)]);
    pump(&mut a, &mut [(&mut b, PEER_B)]);

    // B now outranks A
    edit(&mut b, c, 2, 9, 50);
    pump(&mut b, &mut [(&mut a, PEER_A)]);
    match a.chunk_state.get(c) {
        Some(ChunkState::Authority { new_authority, .. }) => {
            assert_eq!(*new_authority, Some((PEER_B, 50)));
        }
        other => panic!("unexpected state {:?}", other),
    }
    // A's next frame hands the take-authority update to B
    edit(&mut a, c, 3, 7, 100);
    let msgs = a.get_emitted_msgs();
    assert!(msgs.iter().any(|m| matches!(
        m.msg,
        WorldNetMessage::ListenUpdate { take_auth: true, .. }
    )));
    for MessageRequest { dst, msg } in msgs {
        if matches!(dst, Destination::Peer(p) if p == PEER_B) {
            b.handle_msg(PEER_A, msg);
        }
    }
    // B demands the chunk; the host starts a pull-transfer
    pump(&mut b, &mut [(&mut h, HOST)]);
    let routed = h.get_emitted_msgs();
    assert!(matches!(
        routed[0].msg,
        WorldNetMessage::GetAuthorityFrom { current_authority: PEER_A, .. }
    ));
    for MessageRequest { msg, .. } in routed {
        b.handle_msg(HOST, msg);
    }
    assert!(matches!(b.chunk_state.get(c), Some(ChunkState::Transfer)));
    // B pulls from A; A hands over and unloads
    pump(&mut b, &mut [(&mut a, PEER_A)]);
    let from_a = a.get_emitted_msgs();
    let mut saw_transfer_ok = false;
    for MessageRequest { dst, msg } in from_a {
        match dst {
            Destination::Peer(p) if p == PEER_B => {
                if let WorldNetMessage::TransferOk { ref listeners, .. } = msg {
                    saw_transfer_ok = true;
                    assert!(listeners.contains(PEER_B));
                }
                b.handle_msg(PEER_A, msg);
            }
            Destination::Host => h.handle_msg(PEER_A, msg),
            _ => {}
        }
    }
    assert!(saw_transfer_ok);
    assert!(matches!(a.chunk_state.get(c), Some(ChunkState::UnloadPending)));
    match b.chunk_state.get(c) {
        Some(ChunkState::Authority { priority, .. }) => assert_eq!(*priority, 50),
        other => panic!("unexpected state {:?}", other),
    }
    assert_eq!(h.authority_map.get(c).copied(), Some((PEER_B, 50)));
    // the host's storage took A's hand-off snapshot
    assert!(h.chunk_storage.get(c).is_some());
}

#[test]
fn authority_leaves_area() {
    let c = ChunkCoord(0, 0);
    let mut h = fresh(true, HOST);
    let mut a = fresh(false, PEER_A);
    let mut b = fresh(false, PEER_B);
    claim(&mut h, &mut a, c, 100);
    edit(&mut b, c, 1, 9, 100);
    b.update();
    pump(&mut b, &mut [(&mut h, HOST)]);
    pump(&mut h, &mut [(&mut b, PEER_B)]);
    pump(&mut b, &mut [(&mut a, PEER_A)]);
    pump(&mut a, &mut [(&mut b, PEER_B)]);

    // A walks far away; its next pass relinquishes
    a.add_update(NoitaWorldUpdate { coord: c, writes: vec![(5, solid(7))] });
    a.add_end(100, &vec![100, 100, 100, 100, 0, 0]);
    a.get_emitted_msgs();
    a.update();
    let msgs = a.get_emitted_msgs();
    assert!(msgs.iter().any(|m| matches!(
        m.msg,
        WorldNetMessage::RelinquishAuthority { chunk_data: Some(_), .. }
    )));
    for MessageRequest { dst, msg } in msgs {
        if matches!(dst, Destination::Host) {
            h.handle_msg(PEER_A, msg);
        }
    }
    // the host freed the chunk, stored the data, and told everyone
    assert!(h.authority_map.get(c).is_none());
    assert!(h.chunk_storage.get(c).is_some());
    pump(&mut h, &mut [(&mut a, PEER_A), (&mut b, PEER_B)]);
    assert!(matches!(b.chunk_state.get(c), Some(ChunkState::UnloadPending)));
    // the tombstone is gone after B's next pass
    b.update();
    assert!(b.chunk_state.get(c).is_none());
}

#[test]
fn host_loses_peer() {
    let c = ChunkCoord(0, 0);
    let mut h = fresh(true, HOST);
    let mut a = fresh(false, PEER_A);
    let mut b = fresh(false, PEER_B);
    claim(&mut h, &mut a, c, 100);
    edit(&mut b, c, 1, 9, 100);
    b.update();
    pump(&mut b, &mut [(&mut h, HOST)]);
    pump(&mut h, &mut [(&mut b, PEER_B)]);
    pump(&mut b, &mut [(&mut a, PEER_A)]);
    pump(&mut a, &mut [(&mut b, PEER_B)]);

    h.handle_peer_left(PEER_A);
    assert!(h.authority_map.get(c).is_none());
    pump(&mut h, &mut [(&mut b, PEER_B)]);
    assert!(matches!(b.chunk_state.get(c), Some(ChunkState::UnloadPending)));
}

#[test]
fn idempotent_regrant_carries_no_data() {
    let c = ChunkCoord(0, 0);
    let mut h = fresh(true, HOST);
    let mut a = fresh(false, PEER_A);
    claim(&mut h, &mut a, c, 100);
    let storage_before = h.chunk_storage.num_entries();

    h.handle_msg(
        PEER_A,
        WorldNetMessage::RequestAuthority { chunk: c, priority: 120, can_wait: true },
    );
    let msgs = h.get_emitted_msgs();
    assert_eq!(msgs.len(), 1);
    match &msgs[0].msg {
        WorldNetMessage::GotAuthority { chunk_data, priority, .. } => {
            assert!(chunk_data.is_none());
            assert_eq!(*priority, 120);
        }
        other => panic!("unexpected message {:?}", other),
    }
    assert_eq!(h.chunk_storage.num_entries(), storage_before);
    assert_eq!(h.authority_map.get(c).copied(), Some((PEER_A, 120)));
}

#[test]
fn preemption_fairness_keeps_best_bid() {
    let c = ChunkCoord(0, 0);
    let build = || {
        let mut h = fresh(true, HOST);
        let mut a = fresh(false, PEER_A);
        claim(&mut h, &mut a, c, 100);
        a
    };
    // one arrival order
    let mut a1 = build();
    a1.handle_msg(
        PEER_B,
        WorldNetMessage::LoseAuthority { chunk: c, new_priority: 40, new_authority: PEER_B },
    );
    a1.handle_msg(
        HOST,
        WorldNetMessage::LoseAuthority { chunk: c, new_priority: 60, new_authority: HOST },
    );
    // the other order
    let mut a2 = build();
    a2.handle_msg(
        HOST,
        WorldNetMessage::LoseAuthority { chunk: c, new_priority: 60, new_authority: HOST },
    );
    a2.handle_msg(
        PEER_B,
        WorldNetMessage::LoseAuthority { chunk: c, new_priority: 40, new_authority: PEER_B },
    );
    for m in [&a1, &a2] {
        match m.chunk_state.get(c) {
            Some(ChunkState::Authority { new_authority, .. }) => {
                assert_eq!(*new_authority, Some((PEER_B, 40)));
            }
            other => panic!("unexpected state {:?}", other),
        }
    }
}

#[test]
fn equal_priority_does_not_preempt() {
    let c = ChunkCoord(0, 0);
    let mut h = fresh(true, HOST);
    let mut a = fresh(false, PEER_A);
    let mut b = fresh(false, PEER_B);
    claim(&mut h, &mut a, c, 100);
    edit(&mut b, c, 1, 9, 100);
    b.update();
    pump(&mut b, &mut [(&mut h, HOST)]);
    pump(&mut h, &mut [(&mut b, PEER_B)]);
    pump(&mut b, &mut [(&mut a, PEER_A)]);
    pump(&mut a, &mut [(&mut b, PEER_B)]);

    // an equal-priority local edit leaves B a plain listener
    edit(&mut b, c, 2, 9, 100);
    assert!(b.get_emitted_msgs().iter().all(|m| !matches!(
        m.msg,
        WorldNetMessage::LoseAuthority { .. }
    )));
    assert!(matches!(b.chunk_state.get(c), Some(ChunkState::Listening { .. })));

    // a contender whose bid decays to the authority's settles back
    edit(&mut b, c, 3, 9, 50);
    b.get_emitted_msgs();
    assert!(matches!(b.chunk_state.get(c), Some(ChunkState::WantToGetAuth { .. })));
    edit(&mut b, c, 4, 9, 100);
    b.get_emitted_msgs();
    match b.chunk_state.get(c) {
        Some(ChunkState::Listening { authority, priority }) => {
            assert_eq!(*authority, PEER_A);
            assert_eq!(*priority, 100);
        }
        other => panic!("unexpected state {:?}", other),
    }
}

#[test]
fn no_tombstones_after_update() {
    let c = ChunkCoord(0, 0);
    let mut b = fresh(false, PEER_B);
    b.handle_msg(HOST, WorldNetMessage::ListenAuthorityRelinquished { chunk: c });
    assert!(matches!(b.chunk_state.get(c), Some(ChunkState::UnloadPending)));
    b.update();
    assert!(b.chunk_state.get(c).is_none());
    assert_eq!(b.chunk_state.num_entries(), 0);
}

#[test]
fn frame_counter_is_strictly_monotonic() {
    let mut a = fresh(false, PEER_A);
    assert_eq!(a.current_update, 0);
    a.add_end(100, &vec![0, 0, 0, 0, 0, 0]);
    assert_eq!(a.current_update, 1);
    a.update();
    a.handle_msg(HOST, WorldNetMessage::ListenAuthorityRelinquished { chunk: ChunkCoord(5, 5) });
    assert_eq!(a.current_update, 1);
    a.add_end(100, &vec![0, 0, 0, 0, 0, 0]);
    assert_eq!(a.current_update, 2);
}

#[test]
fn reset_empties_all_four_maps() {
    let c = ChunkCoord(0, 0);
    let mut h = fresh(true, HOST);
    let mut a = fresh(false, PEER_A);
    claim(&mut h, &mut a, c, 100);
    assert!(h.authority_map.num_entries() > 0);
    h.reset();
    assert_eq!(h.authority_map.num_entries(), 0);
    assert_eq!(h.chunk_state.num_entries(), 0);
    assert_eq!(h.chunk_storage.num_entries(), 0);
    assert_eq!(h.chunk_last_update.num_entries(), 0);

    // a new world number resets a peer mid-frame, too
    assert!(a.chunk_state.num_entries() > 0);
    edit(&mut a, c, 0, 7, 100);
    a.add_update(NoitaWorldUpdate { coord: c, writes: vec![(0, solid(7))] });
    a.add_end(100, &vec![0, 0, 0, 0, 0, 9]);
    assert_eq!(a.world_num, 9);
    assert_eq!(a.authority_map.num_entries(), 0);
    assert_eq!(a.chunk_storage.num_entries(), 0);
}

#[test]
fn frame_fans_deltas_out_to_listeners() {
    let c = ChunkCoord(0, 0);
    let mut h = fresh(true, HOST);
    let mut a = fresh(false, PEER_A);
    let mut b = fresh(false, PEER_B);
    claim(&mut h, &mut a, c, 100);
    edit(&mut b, c, 1, 9, 100);
    b.update();
    pump(&mut b, &mut [(&mut h, HOST)]);
    pump(&mut h, &mut [(&mut b, PEER_B)]);
    pump(&mut b, &mut [(&mut a, PEER_A)]);
    pump(&mut a, &mut [(&mut b, PEER_B)]);

    // A's next frame reaches B as one coalesced packet
    edit(&mut a, c, 77, 5, 100);
    let msgs = a.get_emitted_msgs();
    assert_eq!(msgs.len(), 1);
    match &msgs[0] {
        MessageRequest { dst: Destination::Peer(p), msg: WorldNetMessage::ChunkPacket { chunkpacket } } => {
            assert_eq!(*p, PEER_B);
            assert_eq!(chunkpacket.len(), 1);
            assert_eq!(chunkpacket[0].0.chunk_coord, c);
            assert_eq!(chunkpacket[0].1, 100);
        }
        other => panic!("unexpected message {:?}", other),
    }
    for MessageRequest { msg, .. } in msgs {
        b.handle_msg(PEER_A, msg);
    }
    assert_eq!(b.inbound_model.get_chunk_data(c).unwrap().pixels[77].material, 5);
}

#[test]
fn frame_coalesces_chunks_into_one_packet_per_listener() {
    // two chunks updated in one frame reach a shared listener as a single
    // packet carrying both deltas, in frame order
    let c1 = ChunkCoord(0, 0);
    let c2 = ChunkCoord(1, 0);
    let mut h = fresh(true, HOST);
    let mut a = fresh(false, PEER_A);
    let mut b = fresh(false, PEER_B);
    claim(&mut h, &mut a, c1, 100);
    claim(&mut h, &mut a, c2, 100);
    for c in [c1, c2] {
        edit(&mut b, c, 1, 9, 100);
        b.update();
        pump(&mut b, &mut [(&mut h, HOST)]);
        pump(&mut h, &mut [(&mut b, PEER_B)]);
        pump(&mut b, &mut [(&mut a, PEER_A)]);
        pump(&mut a, &mut [(&mut b, PEER_B)]);
    }
    a.get_emitted_msgs();
    a.add_update(NoitaWorldUpdate { coord: c1, writes: vec![(11, solid(4))] });
    a.add_update(NoitaWorldUpdate { coord: c2, writes: vec![(22, solid(5))] });
    a.add_end(100, &vec![0, 0, 0, 0, 0, 0]);
    let msgs = a.get_emitted_msgs();
    assert_eq!(msgs.len(), 1);
    match &msgs[0] {
        MessageRequest {
            dst: Destination::Peer(p),
            msg: WorldNetMessage::ChunkPacket { chunkpacket },
        } => {
            assert_eq!(*p, PEER_B);
            assert_eq!(chunkpacket.len(), 2);
            assert_eq!(chunkpacket[0].0.chunk_coord, c1);
            assert_eq!(chunkpacket[1].0.chunk_coord, c2);
            assert_eq!(chunkpacket[0].1, 100);
            assert_eq!(chunkpacket[1].1, 100);
        }
        other => panic!("unexpected message {:?}", other),
    }
}

#[test]
fn departing_authority_asks_its_successor() {
    let c = ChunkCoord(0, 0);
    let mut h = fresh(true, HOST);
    let mut a = fresh(false, PEER_A);
    claim(&mut h, &mut a, c, 100);
    a.handle_msg(
        PEER_B,
        WorldNetMessage::LoseAuthority { chunk: c, new_priority: 50, new_authority: PEER_B },
    );
    // A walks away: it must point its pending successor at the host
    a.add_update(NoitaWorldUpdate { coord: c, writes: vec![(5, solid(7))] });
    a.add_end(100, &vec![100, 100, 100, 100, 0, 0]);
    a.get_emitted_msgs();
    a.update();
    let msgs = a.get_emitted_msgs();
    assert!(msgs.iter().any(|m| matches!(
        m.msg,
        WorldNetMessage::AskForAuthority { chunk, priority: 50 } if chunk == c
    )));
    // the successor relays an immediate request
    let mut b = fresh(false, PEER_B);
    b.handle_msg(PEER_A, WorldNetMessage::AskForAuthority { chunk: c, priority: 50 });
    let relayed = b.get_emitted_msgs();
    assert!(matches!(
        relayed[0].msg,
        WorldNetMessage::RequestAuthority { priority: 50, can_wait: false, .. }
    ));
    assert!(matches!(b.chunk_state.get(c), Some(ChunkState::WaitingForAuthority)));
}

#[test]
fn notify_new_authority_rebinds_listeners() {
    let c = ChunkCoord(0, 0);
    let mut b = fresh(false, PEER_B);
    b.handle_msg(
        PEER_A,
        WorldNetMessage::ListenInitialResponse {
            chunk: c,
            chunk_data: Some(world_sync::pixel::ChunkData::filled(solid(1))),
            priority: 20,
        },
    );
    b.handle_msg(HOST, WorldNetMessage::NotifyNewAuthority { chunk: c });
    match b.chunk_state.get(c) {
        Some(ChunkState::Listening { authority, priority }) => {
            assert_eq!(*authority, HOST);
            assert_eq!(*priority, 20);
        }
        other => panic!("unexpected state {:?}", other),
    }
}

#[test]
fn packet_reaches_a_standing_contender() {
    // a contender that still outranks the incoming priority keeps its bid
    // but must not miss the world update
    let c = ChunkCoord(0, 0);
    let mut b = fresh(false, PEER_B);
    b.handle_msg(
        PEER_A,
        WorldNetMessage::ListenInitialResponse {
            chunk: c,
            chunk_data: Some(world_sync::pixel::ChunkData::filled(solid(1))),
            priority: 100,
        },
    );
    edit(&mut b, c, 0, 1, 50);
    b.get_emitted_msgs();
    assert!(matches!(b.chunk_state.get(c), Some(ChunkState::WantToGetAuth { .. })));
    b.handle_msg(
        PEER_A,
        WorldNetMessage::ChunkPacket {
            chunkpacket: vec![(
                world_sync::pixel::ChunkDelta { chunk_coord: c, writes: vec![(7, solid(9))] },
                100,
            )],
        },
    );
    // the delta landed, and the contender still stands
    assert_eq!(b.inbound_model.get_chunk_data(c).unwrap().pixels[7].material, 9);
    assert!(matches!(b.chunk_state.get(c), Some(ChunkState::WantToGetAuth { .. })));
    // an equal-or-lower incoming priority settles it back to listening
    b.handle_msg(
        PEER_A,
        WorldNetMessage::ChunkPacket {
            chunkpacket: vec![(
                world_sync::pixel::ChunkDelta { chunk_coord: c, writes: vec![(8, solid(9))] },
                50,
            )],
        },
    );
    assert_eq!(b.inbound_model.get_chunk_data(c).unwrap().pixels[8].material, 9);
    assert!(matches!(b.chunk_state.get(c), Some(ChunkState::Listening { .. })));
}

#[test]
fn non_host_drops_host_only_messages() {
    let c = ChunkCoord(0, 0);
    let mut a = fresh(false, PEER_A);
    a.handle_msg(
        PEER_B,
        WorldNetMessage::RequestAuthority { chunk: c, priority: 1, can_wait: true },
    );
    a.handle_msg(PEER_B, WorldNetMessage::ChangePriority { chunk: c, priority: 1 });
    a.handle_msg(
        PEER_B,
        WorldNetMessage::UpdateStorage { chunk: c, chunk_data: None, world_num: 0 },
    );
    assert!(a.get_emitted_msgs().is_empty());
    assert_eq!(a.authority_map.num_entries(), 0);
    assert_eq!(a.chunk_storage.num_entries(), 0);
}

#[test]
fn stale_world_number_is_dropped() {
    let c = ChunkCoord(0, 0);
    let mut h = fresh(true, HOST);
    let data = world_sync::pixel::ChunkData::filled(solid(5));
    h.handle_msg(
        PEER_A,
        WorldNetMessage::UpdateStorage { chunk: c, chunk_data: Some(data), world_num: 3 },
    );
    assert_eq!(h.chunk_storage.num_entries(), 0);
}

#[test]
fn relinquish_from_non_owner_is_dropped() {
    let c = ChunkCoord(0, 0);
    let mut h = fresh(true, HOST);
    let mut a = fresh(false, PEER_A);
    claim(&mut h, &mut a, c, 100);
    h.handle_msg(
        PEER_B,
        WorldNetMessage::RelinquishAuthority { chunk: c, chunk_data: None, world_num: 0 },
    );
    // the impostor changes nothing and nobody is told to unload
    assert_eq!(h.authority_map.get(c).copied(), Some((PEER_A, 100)));
    assert!(h.get_emitted_msgs().is_empty());
}

#[test]
fn listen_request_to_non_authority_bounces() {
    let c = ChunkCoord(0, 0);
    let mut a = fresh(false, PEER_A);
    a.handle_msg(PEER_B, WorldNetMessage::ListenRequest { chunk: c });
    let msgs = a.get_emitted_msgs();
    assert_eq!(msgs.len(), 1);
    assert!(matches!(msgs[0].msg, WorldNetMessage::UnloadChunk { chunk } if chunk == c));
}

#[test]
fn transfer_failed_falls_back_to_request() {
    let c = ChunkCoord(0, 0);
    let mut b = fresh(false, PEER_B);
    b.handle_msg(PEER_A, WorldNetMessage::TransferFailed { chunk: c });
    match b.chunk_state.get(c) {
        Some(ChunkState::RequestAuthority { priority, can_wait }) => {
            assert_eq!(*priority, 255);
            assert!(*can_wait);
        }
        other => panic!("unexpected state {:?}", other),
    }
}

#[test]
fn transfer_round_trip_preserves_listeners() {
    // the full preemption flow already checks the interesting case; here a
    // bare transfer between two fresh peers keeps an empty listener set
    let c = ChunkCoord(2, 2);
    let mut h = fresh(true, HOST);
    let mut a = fresh(false, PEER_A);
    let mut b = fresh(false, PEER_B);
    claim(&mut h, &mut a, c, 200);
    // B demands it outright
    b.handle_msg(HOST, WorldNetMessage::GetAuthorityFrom { chunk: c, current_authority: PEER_A });
    pump(&mut b, &mut [(&mut a, PEER_A)]);
    let from_a = a.get_emitted_msgs();
    for MessageRequest { dst, msg } in from_a {
        if matches!(dst, Destination::Peer(p) if p == PEER_B) {
            if let WorldNetMessage::TransferOk { ref listeners, .. } = msg {
                assert_eq!(listeners.len(), 0);
            }
            b.handle_msg(PEER_A, msg);
        }
    }
    match b.chunk_state.get(c) {
        Some(ChunkState::Authority { listeners, .. }) => assert_eq!(listeners.len(), 0),
        other => panic!("unexpected state {:?}", other),
    }
}
