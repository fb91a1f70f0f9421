use std::collections::BTreeSet;

use opendwarf::geometry::{BlockType, Vec3i, Vec3u};
use opendwarf::invalidation::ViewMode;
use opendwarf::projection::{
    ClientView, ProjectionSyncStats, TileRect, compute_projection_window, project_entities, sync_view_chunks,
    visible_chunk_layer,
};
use opendwarf::world_sim::WorldSim;
use opendwarf::world_state::{MoveTiming, MoveTimingQuery, StartBits, WorldCommand, WorldConfig, WorldState};

const TILE_SIZE_PX: f32 = 64.0;

fn config(world_chunks: Vec3u) -> WorldConfig {
    WorldConfig { chunk_edge: 16, world_chunks, movement_ticks_per_tile: 10 }
}

fn no_caves(config: &WorldConfig) -> Vec<bool> {
    let n = (config.chunk_edge * config.world_chunks.x) as usize
        * (config.chunk_edge * config.world_chunks.y) as usize
        * (config.chunk_edge * config.world_chunks.z) as usize;
    vec![false; n]
}

fn sim(world_chunks: Vec3u, spawn_player: bool) -> WorldSim {
    let c = config(world_chunks);
    let caves = no_caves(&c);
    WorldSim::new(c, &caves, spawn_player)
}

/// Straight-line move timing, as the renderer measures it.
fn timing(q: MoveTimingQuery) -> MoveTiming {
    let dx = q.direction.x as f32;
    let dy = q.direction.y as f32;
    let dz = q.direction.z as f32;
    let distance = (dx * dx + dy * dy + dz * dz).sqrt();
    MoveTiming {
        start_bits: StartBits {
            x: (q.position.x as f32).to_bits(),
            y: (q.position.y as f32).to_bits(),
            z: (q.position.z as f32).to_bits(),
        },
        total_ticks: (distance * q.ticks_per_tile as f32).ceil() as u32,
    }
}

/// The camera's tile rectangle (floors of its edges), as the client frames it.
fn camera_rect(x: f32, y: f32, zoom: f32, framebuffer: (u32, u32)) -> TileRect {
    let zoom = zoom.max(0.01);
    let half_w = framebuffer.0.max(1) as f32 / (2.0 * zoom * TILE_SIZE_PX);
    let half_h = framebuffer.1.max(1) as f32 / (2.0 * zoom * TILE_SIZE_PX);
    let cx = x / TILE_SIZE_PX;
    let cy = y / TILE_SIZE_PX;
    TileRect {
        min_x: (cx - half_w).floor() as i32,
        max_x: (cx + half_w).floor() as i32,
        min_y: (cy - half_h).floor() as i32,
        max_y: (cy + half_h).floor() as i32,
    }
}

fn key(v: Vec3i) -> (i32, i32, i32) {
    (v.x, v.y, v.z)
}

fn desired(chunks: &[Vec3i]) -> BTreeSet<(i32, i32, i32)> {
    chunks.iter().map(|c| key(*c)).collect()
}

fn empty_client(world_chunks: Vec3u) -> ClientView {
    let mut client = ClientView::default();
    client.world_chunks = world_chunks;
    client
}

fn assert_chunk_parity(client: &ClientView, world: &WorldState, chunk: Vec3i) {
    let mut expected = Vec::new();
    assert!(world.copy_chunk_blocks(chunk, &mut expected), "{chunk:?}");
    let view = client.chunks.get(&key(chunk)).expect("projected chunk");
    assert_eq!(view.blocks, expected, "byte parity for {chunk:?}");
    assert_eq!(Some(view.terrain_revision), world.chunk_terrain_revision(chunk), "revision parity for {chunk:?}");
}

fn stats(inserted: u32, recopied: u32, removed: u32, unchanged: u32, authority_missing: u32) -> ProjectionSyncStats {
    ProjectionSyncStats { inserted, recopied, removed, unchanged, authority_missing }
}

#[test]
fn sync_counts_insert_unchanged_recopy_and_remove() {
    let mut sim = sim(Vec3u::new(2, 2, 2), false);
    let mut client = empty_client(sim.world_chunks());
    let a = Vec3i::new(-1, -1, -1);
    let b = Vec3i::new(0, 0, 0);

    let s = sync_view_chunks(&mut client, sim.state(), &desired(&[a, b]));
    assert_eq!(s, ProjectionSyncStats { inserted: 2, ..ProjectionSyncStats::default() });
    assert_chunk_parity(&client, sim.state(), a);
    assert_chunk_parity(&client, sim.state(), b);

    let s = sync_view_chunks(&mut client, sim.state(), &desired(&[a, b]));
    assert_eq!(s, ProjectionSyncStats { unchanged: 2, ..ProjectionSyncStats::default() });

    // The starter room is air at the origin, in chunk b.
    let mutated = Vec3i::new(0, 0, 0);
    assert!(sim.set_block(mutated, BlockType::SolidStone));
    let s = sync_view_chunks(&mut client, sim.state(), &desired(&[a, b]));
    assert_eq!(s, ProjectionSyncStats { recopied: 1, unchanged: 1, ..ProjectionSyncStats::default() });
    assert_eq!(client.block_at(mutated), Some(BlockType::SolidStone));
    assert_chunk_parity(&client, sim.state(), b);

    let s = sync_view_chunks(&mut client, sim.state(), &desired(&[b]));
    assert_eq!(s, ProjectionSyncStats { removed: 1, unchanged: 1, ..ProjectionSyncStats::default() });
    assert!(!client.chunks.contains_key(&key(a)));
    assert_eq!(client.block_at(Vec3i::new(-9, -9, -9)), None);
}

#[test]
fn sync_fails_closed_on_missing_authoritative_residency() {
    let mut sim = sim(Vec3u::new(2, 1, 1), false);
    let mut client = empty_client(sim.world_chunks());
    let east = Vec3i::new(0, 0, 0);
    let west = Vec3i::new(-1, 0, 0);
    let s = sync_view_chunks(&mut client, sim.state(), &desired(&[west, east]));
    assert_eq!(s.inserted, 2);

    sim.send_command(WorldCommand::SetChunkLoaded { chunk: east, loaded: false }, &timing)
        .expect("unload east chunk");
    let s = sync_view_chunks(&mut client, sim.state(), &desired(&[west, east]));
    assert_eq!(s, stats(0, 0, 1, 1, 1));
    assert!(!client.chunks.contains_key(&key(east)));
    assert_eq!(client.block_at(Vec3i::new(1, 0, 0)), None);

    let s = sync_view_chunks(&mut client, sim.state(), &desired(&[west, east]));
    assert_eq!(s, stats(0, 0, 0, 1, 1));

    let bogus = Vec3i::new(5, 5, 5);
    let s = sync_view_chunks(&mut client, sim.state(), &desired(&[west, bogus]));
    assert_eq!(s.authority_missing, 1);
    assert!(!client.chunks.contains_key(&key(bogus)));
}

fn in_grid(c: (i32, i32, i32), dims: Vec3u) -> bool {
    let h = |n: u32| (n / 2) as i32;
    -h(dims.x) <= c.0
        && c.0 < dims.x as i32 - h(dims.x)
        && -h(dims.y) <= c.1
        && c.1 < dims.y as i32 - h(dims.y)
        && -h(dims.z) <= c.2
        && c.2 < dims.z as i32 - h(dims.z)
}

#[test]
fn projection_window_clips_to_world_bounds() {
    let dims = Vec3u::new(9, 9, 1);
    let corner_px = -72.0 * TILE_SIZE_PX;
    let rect = camera_rect(corner_px, corner_px, 1.0, (640, 480));
    let window = compute_projection_window(ViewMode::Master, 0, dims, None, rect);
    assert!(!window.visible.is_empty());
    for chunk in window.visible.iter().chain(window.resident.iter()) {
        assert!(in_grid(*chunk, dims), "{chunk:?} must be inside the chunk grid");
    }
    assert!(window.visible.contains(&(-4, -4, 0)));
    assert!(window.visible.is_subset(&window.resident));

    let off_z = compute_projection_window(ViewMode::Master, 1000, dims, None, camera_rect(0.0, 0.0, 1.0, (640, 480)));
    assert!(off_z.visible.is_empty());
    assert!(off_z.resident.is_empty());
}

#[test]
fn entity_mode_unions_fov_support_chunks_master_does_not() {
    let dims = Vec3u::new(9, 9, 1);
    let rect = camera_rect(0.0, 0.0, 2.0, (64, 64));
    let position = Some(Vec3i::new(7, 0, 0));

    let entity = compute_projection_window(ViewMode::Entity, 0, dims, position, rect);
    assert_eq!(entity.visible.iter().copied().collect::<Vec<_>>(), vec![(0, 0, 0)]);
    for dy in -1..=1 {
        for dx in -1..=1 {
            assert!(entity.resident.contains(&(dx, dy, 0)));
        }
    }
    assert!(entity.resident.contains(&(2, 0, 0)));
    assert!(entity.resident.contains(&(2, 1, 0)));
    assert!(entity.resident.contains(&(2, -1, 0)));
    assert!(!entity.resident.contains(&(3, 0, 0)));
    assert!(!entity.resident.contains(&(2, 2, 0)));

    let master = compute_projection_window(ViewMode::Master, 0, dims, position, rect);
    assert!(!master.resident.contains(&(2, 0, 0)));
    assert!(!master.resident.contains(&(2, 1, 0)));
    let no_entity = compute_projection_window(ViewMode::Entity, 0, dims, None, rect);
    assert_eq!(no_entity.resident, master.resident);
}

#[test]
fn shadow_client_view_matches_authoritative_bytes_for_complete_window() {
    let sim = sim(Vec3u::new(9, 9, 1), true);
    let dims = sim.world_chunks();
    let window = compute_projection_window(ViewMode::Master, 0, dims, None, camera_rect(0.0, 0.0, 0.05, (1920, 1080)));
    assert_eq!(window.resident.len(), 81, "whole world resident");

    let mut client = empty_client(dims);
    let s = sync_view_chunks(&mut client, sim.state(), &window.resident);
    assert_eq!(s.inserted, 81);
    assert_eq!(s.authority_missing, 0);
    assert_eq!(client.chunks.len(), window.resident.len());
    for chunk in &window.resident {
        assert_chunk_parity(&client, sim.state(), Vec3i::new(chunk.0, chunk.1, chunk.2));
    }
    for pos in [Vec3i::new(0, 0, 0), Vec3i::new(-72, -72, -8), Vec3i::new(71, 71, 7), Vec3i::new(-1, 5, -2)] {
        assert_eq!(client.block_at(pos), sim.state().block_at(pos), "block parity at {pos:?}");
    }
}

#[test]
fn project_entities_first_sample_tick_shift_and_despawn() {
    let mut sim = sim(Vec3u::new(9, 9, 1), true);
    let id = sim.primary_entity_id().expect("player");
    let mut client = ClientView::default();

    project_entities(&mut client, sim.state(), Some(id));
    assert_eq!(client.primary_entity_id, Some(id));
    assert_eq!(client.entities.len(), 1);
    let first = client.entities[0];
    assert_eq!(first.id, id);
    assert_eq!(Some(first.position), sim.entity_position(id));

    let direction = [Vec3i::new(1, 0, 0), Vec3i::new(-1, 0, 0), Vec3i::new(0, 1, 0), Vec3i::new(0, -1, 0)]
        .into_iter()
        .find(|direction| sim.send_command(WorldCommand::MoveEntity { id, direction: *direction }, &timing).is_ok())
        .expect("open move from spawn");
    sim.step_ticks(10);
    project_entities(&mut client, sim.state(), Some(id));
    let moved = client.entities[0];
    assert_eq!(moved.position, first.position.add(direction), "moved for {direction:?}");
    assert_eq!(Some(moved.position), sim.entity_snapshot(id).map(|s| s.position));

    let empty_world = self::sim(Vec3u::new(9, 9, 1), false);
    project_entities(&mut client, empty_world.state(), None);
    assert!(client.entities.is_empty());
    assert_eq!(client.primary_entity_id, None);
}

#[test]
fn project_entities_sorts_by_id() {
    let mut sim = sim(Vec3u::new(9, 9, 1), true);
    sim.state_mut().spawn_entity(7, Vec3i::new(0, 0, 0)).expect("spawn 7");
    sim.state_mut().spawn_entity(3, Vec3i::new(1, 0, 0)).expect("spawn 3");
    let mut client = ClientView::default();
    project_entities(&mut client, sim.state(), Some(1));
    let ids: Vec<u64> = client.entities.iter().map(|entity| entity.id).collect();
    assert_eq!(ids, vec![1, 3, 7]);
}

#[test]
fn visible_layer_is_one_z_layer_of_the_camera_window() {
    let dims = Vec3u::new(9, 9, 2);
    let rect = camera_rect(0.0, 0.0, 2.0, (64, 64));
    let layer = visible_chunk_layer(2, dims, rect);
    assert_eq!(layer.into_iter().collect::<Vec<_>>(), vec![(0, 0, 0)]);
    // The topmost slice at z = 2 reaches into the z-chunk below.
    let window = compute_projection_window(ViewMode::Master, 2, dims, None, rect);
    assert_eq!(window.visible.into_iter().collect::<Vec<_>>(), vec![(0, 0, -1), (0, 0, 0)]);
}

#[test]
fn sync_preserves_revision_of_unchanged_chunks_after_same_value_write() {
    let mut sim = sim(Vec3u::new(2, 2, 2), false);
    let mut client = empty_client(sim.world_chunks());
    let b = Vec3i::new(0, 0, 0);
    sync_view_chunks(&mut client, sim.state(), &desired(&[b]));
    let before = sim.chunk_terrain_revision(b);
    // Writing the value already there does not bump the revision.
    let current = sim.state().block_at(Vec3i::new(0, 0, 0)).expect("in world");
    assert!(sim.set_block(Vec3i::new(0, 0, 0), current));
    assert_eq!(sim.chunk_terrain_revision(b), before);
    assert_eq!(sync_view_chunks(&mut client, sim.state(), &desired(&[b])), stats(0, 0, 0, 1, 0));
    // Outside the world nothing is written.
    assert!(!sim.set_block(Vec3i::new(1000, 0, 0), BlockType::Air));
    assert_eq!(sim.chunk_terrain_revision(Vec3i::new(7, 7, 7)), None);
}
