//! The terraform operators and the explosion ray machinery, on concrete
//! worlds.

use world_sync::coords::{ChunkCoord, PeerId, CHUNK_SIZE};
use world_sync::explosion::{angle_bucket, explosion_rays};
use world_sync::manager::WorldManager;
use world_sync::pixel::{ChunkData, Pixel, PixelFlags};

fn solid(material: u16) -> Pixel {
    Pixel { flags: PixelFlags::Normal, material }
}

fn host_with_chunk(c: ChunkCoord, material: u16) -> WorldManager {
    WorldManager::new(true, PeerId(1), vec![(c, ChunkData::filled(solid(material)))])
}

fn pixel_at(m: &WorldManager, c: ChunkCoord, icx: usize, icy: usize) -> Pixel {
    m.chunk_storage.get(c).unwrap().pixels[icy * CHUNK_SIZE + icx]
}

#[test]
fn circle_clears_inside_radius_only() {
    let c = ChunkCoord(0, 0);
    let mut m = host_with_chunk(c, 7);
    m.cut_through_world_circle(10, 10, 5, None);
    assert_eq!(pixel_at(&m, c, 10, 10).material, 0);
    assert_eq!(pixel_at(&m, c, 13, 14).material, 0); // distance 5
    assert_eq!(pixel_at(&m, c, 13, 15).material, 7); // distance > 5
    assert_eq!(pixel_at(&m, c, 40, 40).material, 7);
}

#[test]
fn circle_fills_material_only_over_solid() {
    let c = ChunkCoord(0, 0);
    let mut m = host_with_chunk(c, 7);
    // clear a hole first, then splash material 9 over the area
    m.cut_through_world_circle(20, 20, 2, None);
    m.cut_through_world_circle(20, 20, 4, Some(9));
    // the pre-cleared pixel is air, so the splash skips it
    assert_eq!(pixel_at(&m, c, 20, 20).material, 0);
    // solid neighbours within range take the new material
    assert_eq!(pixel_at(&m, c, 24, 20).material, 9);
    assert_eq!(pixel_at(&m, c, 30, 20).material, 7);
}

#[test]
fn plain_clear_takes_air_pixels_too() {
    // a clear (no material) must zero every pixel in range, even one whose
    // material is already 0 but whose flags differ
    let c = ChunkCoord(0, 0);
    let mut data = ChunkData::filled(solid(7));
    data.pixels[10 * CHUNK_SIZE + 10] = Pixel { flags: PixelFlags::Unknown, material: 0 };
    let mut m = WorldManager::new(true, PeerId(1), vec![(c, data)]);
    m.cut_through_world_circle(10, 10, 2, None);
    let p = pixel_at(&m, c, 10, 10);
    assert_eq!(p.material, 0);
    assert!(matches!(p.flags, PixelFlags::Normal));
}

#[test]
fn circle_leaves_non_host_storage_alone() {
    let c = ChunkCoord(0, 0);
    let mut m = WorldManager::new(false, PeerId(2), vec![(c, ChunkData::filled(solid(7)))]);
    m.cut_through_world_circle(10, 10, 5, None);
    assert_eq!(pixel_at(&m, c, 10, 10).material, 7);
}

#[test]
fn nice_terraforming_cuts_the_models() {
    // a non-host peer with nice terraforming sees the clear in the data it
    // absorbed from its authority, before the host's word arrives
    let c = ChunkCoord(0, 0);
    let mut m = WorldManager::new(false, PeerId(2), Vec::new());
    m.handle_msg(
        PeerId(9),
        world_sync::messages::WorldNetMessage::GotAuthority {
            chunk: c,
            chunk_data: Some(ChunkData::filled(solid(7))),
            priority: 1,
        },
    );
    m.cut_through_world_circle(10, 10, 5, None);
    let inb = m.inbound_model.get_chunk_data(c).unwrap();
    assert_eq!(inb.pixels[10 * CHUNK_SIZE + 10].material, 0);
    assert_eq!(inb.pixels[40 * CHUNK_SIZE + 40].material, 7);
    let out = m.outbound_model.get_chunk_data(c).unwrap();
    assert_eq!(out.pixels[10 * CHUNK_SIZE + 10].material, 0);
    // the segment pass reaches the models the same way
    m.cut_through_world_line(60, 60, 80, 60, 2);
    let inb2 = m.inbound_model.get_chunk_data(c).unwrap();
    assert_eq!(inb2.pixels[60 * CHUNK_SIZE + 70].material, 0);
    assert_eq!(inb2.pixels[70 * CHUNK_SIZE + 70].material, 7);
}

#[test]
fn vertical_cut_follows_the_wiggle() {
    let c = ChunkCoord(0, 0);
    let mut m = host_with_chunk(c, 7);
    // rows 10..=20, half-width 4 around column 60, one row nudged right
    let mut wiggles = vec![0i32; 11];
    wiggles[5] = 3; // the row at global height 15
    m.cut_through_world(60, 10, 20, 4, &wiggles);
    // an unnudged row: [56, 64)
    assert_eq!(pixel_at(&m, c, 56, 12).material, 0);
    assert_eq!(pixel_at(&m, c, 63, 12).material, 0);
    assert_eq!(pixel_at(&m, c, 64, 12).material, 7);
    assert_eq!(pixel_at(&m, c, 55, 12).material, 7);
    // the nudged row shifts by three: [59, 67)
    assert_eq!(pixel_at(&m, c, 58, 15).material, 7);
    assert_eq!(pixel_at(&m, c, 59, 15).material, 0);
    assert_eq!(pixel_at(&m, c, 66, 15).material, 0);
    assert_eq!(pixel_at(&m, c, 67, 15).material, 7);
    // outside the band nothing happens
    assert_eq!(pixel_at(&m, c, 60, 9).material, 7);
    assert_eq!(pixel_at(&m, c, 60, 21).material, 7);
}

#[test]
fn line_clears_a_corridor() {
    let c = ChunkCoord(0, 0);
    let mut m = host_with_chunk(c, 7);
    m.cut_through_world_line(10, 40, 50, 40, 3);
    assert_eq!(pixel_at(&m, c, 30, 40).material, 0);
    assert_eq!(pixel_at(&m, c, 30, 43).material, 0);
    assert_eq!(pixel_at(&m, c, 30, 44).material, 7);
    assert_eq!(pixel_at(&m, c, 5, 40).material, 7);
    assert_eq!(pixel_at(&m, c, 52, 40).material, 0); // within r past the endpoint
    assert_eq!(pixel_at(&m, c, 54, 40).material, 7);
}

#[test]
fn degenerate_line_is_a_circle() {
    let c = ChunkCoord(0, 0);
    let mut m = host_with_chunk(c, 7);
    m.cut_through_world_line(10, 10, 10, 10, 5);
    assert_eq!(pixel_at(&m, c, 10, 10).material, 0);
    assert_eq!(pixel_at(&m, c, 13, 15).material, 7);
}

#[test]
fn ray_count_is_clamped_power_of_two() {
    assert_eq!(explosion_rays(0), 8);
    assert_eq!(explosion_rays(8), 8);
    assert_eq!(explosion_rays(9), 16);
    assert_eq!(explosion_rays(100), 128);
    assert_eq!(explosion_rays(1000), 256);
}

#[test]
fn angle_buckets_hit_the_axes() {
    assert_eq!(angle_bucket(1, 0, 8), 0);
    assert_eq!(angle_bucket(1, 1, 8), 1);
    assert_eq!(angle_bucket(0, 1, 8), 2);
    assert_eq!(angle_bucket(-1, 0, 8), 4);
    assert_eq!(angle_bucket(0, -1, 8), 6);
    assert_eq!(angle_bucket(5, 1, 256), 10); // shallow angle, first quadrant
}

#[test]
fn ray_stops_at_hard_material() {
    let c = ChunkCoord(0, 0);
    // a mostly-air chunk: material 1 at (1..=3, 0), material 2 at (4, 0)
    let mut data = ChunkData::filled(Pixel { flags: PixelFlags::Normal, material: 0 });
    data.pixels[1] = solid(1);
    data.pixels[2] = solid(1);
    data.pixels[3] = solid(1);
    data.pixels[4] = solid(2);
    let mut m = WorldManager::new(true, PeerId(1), vec![(c, data)]);
    m.durabilities.set(1, 0, 100);
    m.durabilities.set(2, 2, 100);
    // tier 1 pierces three cheap pixels, then the tier-2 wall stops it
    let reach = m.ray_reach(0, 0, 6, 0, 1000, 1, 1 << 16);
    assert_eq!(reach, 9);
    // tier 2 walks through to the target
    let reach2 = m.ray_reach(0, 0, 6, 0, 1000, 2, 1 << 16);
    assert_eq!(reach2, 36);
    // too little energy stops the ray at the first wall
    let reach3 = m.ray_reach(0, 0, 6, 0, 150, 1, 1 << 16);
    assert_eq!(reach3, 1);
}

#[test]
fn explosion_list_carves_stored_chunks() {
    let c = ChunkCoord(0, 0);
    let mut m = host_with_chunk(c, 7);
    // every sector reached distance-squared 100
    let list = vec![100i32; 8];
    m.cut_through_world_explosion_list(64, 64, 8, &list);
    assert_eq!(pixel_at(&m, c, 64, 64).material, 0);
    assert_eq!(pixel_at(&m, c, 70, 72).material, 0); // 36 + 64 = 100
    assert_eq!(pixel_at(&m, c, 64, 80).material, 7); // 256 > 100
}

#[test]
fn spent_blast_changes_nothing() {
    // every ray stopped at the start: the world keeps every pixel
    let c = ChunkCoord(0, 0);
    let mut m = host_with_chunk(c, 7);
    let list = vec![0i32; 8];
    m.cut_through_world_explosion_list(64, 64, 8, &list);
    assert_eq!(pixel_at(&m, c, 64, 64).material, 7);
}

#[test]
fn explosion_list_skips_model_covered_chunks() {
    let c = ChunkCoord(0, 0);
    let mut m = host_with_chunk(c, 7);
    m.handle_msg(
        PeerId(9),
        world_sync::messages::WorldNetMessage::GotAuthority {
            chunk: c,
            chunk_data: Some(ChunkData::filled(solid(7))),
            priority: 1,
        },
    );
    // both models now cover the chunk; the blast must not touch storage
    let list = vec![10_000i32; 8];
    m.cut_through_world_explosion_list(64, 64, 8, &list);
    assert_eq!(pixel_at(&m, c, 64, 64).material, 7);
}
