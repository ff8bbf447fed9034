//! The data layer: maps, models, durability table, construction, frame
//! plumbing and debug markers.

use world_sync::coord_map::CoordMap;
use world_sync::coords::{ChunkCoord, PeerId, CHUNK_LEN};
use world_sync::durability::DurabilityMap;
use world_sync::manager::WorldManager;
use world_sync::model::WorldModel;
use world_sync::pixel::{ChunkData, ChunkDelta, NoitaWorldUpdate, Pixel, PixelFlags, WorldUpdateKind};

fn solid(material: u16) -> Pixel {
    Pixel { flags: PixelFlags::Normal, material }
}

#[test]
fn coord_map_insert_get_remove() {
    let mut m: CoordMap<u64> = CoordMap::new();
    let a = ChunkCoord(1, -2);
    let b = ChunkCoord(-3, 4);
    m.insert(a, 10);
    m.insert(b, 20);
    m.insert(a, 11);
    assert_eq!(m.get(a).copied(), Some(11));
    assert_eq!(m.get(b).copied(), Some(20));
    assert_eq!(m.num_entries(), 2);
    m.remove(a);
    assert!(m.get(a).is_none());
    assert_eq!(m.num_entries(), 1);
    m.clear();
    assert_eq!(m.num_entries(), 0);
}

#[test]
fn durability_last_setting_wins() {
    let mut d = DurabilityMap::new();
    assert!(d.get(1).is_none());
    d.set(1, 0, 100);
    d.set(2, 2, 100);
    d.set(1, 1, 50);
    assert_eq!(d.get(1), Some((1, 50)));
    assert_eq!(d.get(2), Some((2, 100)));
    assert!(d.get(3).is_none());
}

#[test]
fn model_update_then_delta() {
    let mut m = WorldModel::new();
    let c = ChunkCoord(0, 0);
    m.apply_noita_update(&NoitaWorldUpdate {
        coord: c,
        writes: vec![(0, solid(5)), (130, solid(6))],
    });
    let updated = m.updated_chunks();
    assert_eq!(updated, vec![c]);
    let delta = m.get_chunk_delta(c).expect("changed chunk has a delta");
    assert_eq!(delta.chunk_coord, c);
    assert_eq!(delta.writes.len(), 2);
    assert_eq!(delta.writes[0], (0, solid(5)));
    assert_eq!(delta.writes[1], (130, solid(6)));
    m.reset_change_tracking();
    assert!(m.get_chunk_delta(c).is_none());
    // contents survive a tracking reset
    let data = m.get_chunk_data(c).unwrap();
    assert_eq!(data.pixels.len(), CHUNK_LEN);
    assert_eq!(data.pixels[130], solid(6));
}

#[test]
fn model_delta_roundtrip_between_models() {
    let mut out = WorldModel::new();
    let mut inb = WorldModel::new();
    let c = ChunkCoord(3, -1);
    out.apply_noita_update(&NoitaWorldUpdate { coord: c, writes: vec![(42, solid(9))] });
    let delta = out.get_chunk_delta(c).unwrap();
    inb.apply_chunk_delta(&ChunkDelta { chunk_coord: c, writes: delta.writes });
    assert_eq!(inb.get_chunk_data(c).unwrap().pixels[42], solid(9));
}

#[test]
fn model_forget_chunk() {
    let mut m = WorldModel::new();
    let c = ChunkCoord(1, 1);
    m.apply_noita_update(&NoitaWorldUpdate { coord: c, writes: vec![(0, solid(5))] });
    assert!(m.get_chunk_data(c).is_some());
    m.forget_chunk(c);
    assert!(m.get_chunk_data(c).is_none());
    assert!(m.updated_chunks().is_empty());
}

#[test]
fn new_manager_seeds_storage_and_drops_bad_entries() {
    let c = ChunkCoord(0, 0);
    let good = ChunkData::filled(solid(3));
    let bad = ChunkData { pixels: vec![solid(1); 7] };
    let m = WorldManager::new(true, PeerId(1), vec![(c, good), (ChunkCoord(1, 1), bad)]);
    assert!(m.is_host);
    assert_eq!(m.chunk_storage.num_entries(), 1);
    assert_eq!(m.chunk_storage.get(c).unwrap().pixels[0], solid(3));
    assert_eq!(m.current_update, 0);
    assert_eq!(m.world_num, 0);
    assert!(m.nice_terraforming);
}

#[test]
fn noita_updates_drain_inbound() {
    let mut m = WorldManager::new(false, PeerId(2), Vec::new());
    let c = ChunkCoord(0, 0);
    m.handle_msg(
        PeerId(9),
        world_sync::messages::WorldNetMessage::ListenInitialResponse {
            chunk: c,
            chunk_data: Some(ChunkData::filled(solid(4))),
            priority: 10,
        },
    );
    let ups = m.get_noita_updates();
    assert_eq!(ups.len(), 1);
    assert_eq!(ups[0].coord, c);
    assert_eq!(ups[0].writes.len(), CHUNK_LEN);
    // drained: the next call hands back nothing
    assert!(m.get_noita_updates().is_empty());
}

#[test]
fn debug_markers_show_roles() {
    let mut m = WorldManager::new(false, PeerId(2), Vec::new());
    let c = ChunkCoord(2, -1);
    m.handle_msg(
        PeerId(9),
        world_sync::messages::WorldNetMessage::ListenInitialResponse {
            chunk: c,
            chunk_data: Some(ChunkData::filled(solid(4))),
            priority: 10,
        },
    );
    let markers = m.get_debug_markers();
    assert_eq!(markers.len(), 1);
    assert_eq!(markers[0].x, 256);
    assert_eq!(markers[0].y, -128);
    assert_eq!(markers[0].message, "list");
    assert!(markers[0].priority.is_none());
}

#[test]
fn world_update_kind_carries_an_update() {
    let u = WorldUpdateKind::Update(NoitaWorldUpdate {
        coord: ChunkCoord(1, 2),
        writes: vec![(3, solid(4))],
    });
    match u {
        WorldUpdateKind::Update(inner) => {
            assert_eq!(inner.coord, ChunkCoord(1, 2));
            assert_eq!(inner.writes[0].1.material, 4);
        }
        WorldUpdateKind::End => panic!("expected an update"),
    }
    assert!(matches!(WorldUpdateKind::End, WorldUpdateKind::End));
}
