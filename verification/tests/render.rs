use std::collections::BTreeSet;

use opendwarf::geometry::{BlockType, Vec3i, Vec3u};
use opendwarf::invalidation::ViewMode;
use opendwarf::projection::{ClientView, opaque_for_los, project_entities, sync_view_chunks};
use opendwarf::render::{
    DrawBatch, FrameBuffers, MAX_WORLD_ATLAS_INSTANCES_PER_DRAW, RenderCaches, RenderOutput, TileVisibility,
    VisibilityState, draw_batches, render, topmost_floor,
};
use opendwarf::world_sim::WorldSim;
use opendwarf::world_state::{MoveTiming, MoveTimingQuery, StartBits, WorldCommand, WorldConfig};

fn config(world_chunks: Vec3u) -> WorldConfig {
    WorldConfig { chunk_edge: 16, world_chunks, movement_ticks_per_tile: 10 }
}

fn no_caves(config: &WorldConfig) -> Vec<bool> {
    let n = (config.chunk_edge * config.world_chunks.x) as usize
        * (config.chunk_edge * config.world_chunks.y) as usize
        * (config.chunk_edge * config.world_chunks.z) as usize;
    vec![false; n]
}

fn new_sim(world_chunks: Vec3u, spawn_player: bool) -> WorldSim {
    let c = config(world_chunks);
    let caves = no_caves(&c);
    WorldSim::new(c, &caves, spawn_player)
}

fn default_sim(spawn_player: bool) -> WorldSim {
    new_sim(Vec3u::new(1, 1, 1), spawn_player)
}

fn timing(q: MoveTimingQuery) -> MoveTiming {
    let dx = q.direction.x as f32;
    let dy = q.direction.y as f32;
    let dz = q.direction.z as f32;
    let distance = (dx * dx + dy * dy + dz * dz).sqrt();
    MoveTiming {
        start_bits: StartBits {
            x: (q.position.x as f32).to_bits(),
            y: (q.position.y as f32).to_bits(),
            z: (q.position.z as f32).to_bits(),
        },
        total_ticks: (distance * q.ticks_per_tile as f32).ceil() as u32,
    }
}

/// Line of sight by a voxel ray march from centre to centre.
fn has_los(client: &ClientView, from: Vec3i, to: Vec3i) -> bool {
    if from == to {
        return true;
    }
    let dir_x = to.x as f32 + 0.5 - (from.x as f32 + 0.5);
    let dir_y = to.y as f32 + 0.5 - (from.y as f32 + 0.5);
    let dir_z = to.z as f32 + 0.5 - (from.z as f32 + 0.5);
    let step_x = if dir_x >= 0.0 { 1 } else { -1 };
    let step_y = if dir_y >= 0.0 { 1 } else { -1 };
    let step_z = if dir_z >= 0.0 { 1 } else { -1 };
    let delta = |d: f32| if d == 0.0 { f32::INFINITY } else { 1.0 / d.abs() };
    let first = |d: f32| if d == 0.0 { f32::INFINITY } else { 0.5 / d.abs() };
    let (t_delta_x, t_delta_y, t_delta_z) = (delta(dir_x), delta(dir_y), delta(dir_z));
    let (mut t_max_x, mut t_max_y, mut t_max_z) = (first(dir_x), first(dir_y), first(dir_z));
    let mut cursor = from;
    let max_steps = (from.x - to.x).abs() + (from.y - to.y).abs() + (from.z - to.z).abs() + 1;
    for _ in 0..max_steps {
        if t_max_x <= t_max_y && t_max_x <= t_max_z {
            cursor.x += step_x;
            t_max_x += t_delta_x;
        } else if t_max_y <= t_max_z {
            cursor.y += step_y;
            t_max_y += t_delta_y;
        } else {
            cursor.z += step_z;
            t_max_z += t_delta_z;
        }
        if cursor == to {
            return true;
        }
        if opaque_for_los(client, cursor) {
            return false;
        }
    }
    true
}

fn all_chunks(sim: &WorldSim) -> Vec<(i32, i32, i32)> {
    let d = sim.world_chunks();
    let mut out = Vec::new();
    for z in 0..d.z as i32 {
        for y in 0..d.y as i32 {
            for x in 0..d.x as i32 {
                out.push((x - (d.x / 2) as i32, y - (d.y / 2) as i32, z - (d.z / 2) as i32));
            }
        }
    }
    out
}

fn sync_full_client_view(sim: &WorldSim, client: &mut ClientView) {
    let desired: BTreeSet<(i32, i32, i32)> = all_chunks(sim).into_iter().collect();
    sync_view_chunks(client, sim.state(), &desired);
    project_entities(client, sim.state(), sim.primary_entity_id());
    client.tick = sim.tick_count();
}

fn full_client_view(sim: &WorldSim) -> ClientView {
    let mut client = ClientView::default();
    client.tick = sim.tick_count();
    client.world_chunks = sim.world_chunks();
    sync_full_client_view(sim, &mut client);
    client
}

struct View {
    mode: ViewMode,
    view_z: i32,
    visible_chunks: Vec<(i32, i32, i32)>,
}

fn render_once(
    client: &ClientView,
    view: &View,
    visibility: &mut VisibilityState,
    caches: &mut RenderCaches,
) -> (RenderOutput, Vec<DrawBatch>) {
    let buffers = FrameBuffers { atlas_len: 0, atlas_capacity: 24_000, cmds_len: 0, cmds_capacity: 8 };
    render_into(client, view, visibility, caches, buffers)
}

fn render_into(
    client: &ClientView,
    view: &View,
    visibility: &mut VisibilityState,
    caches: &mut RenderCaches,
    buffers: FrameBuffers,
) -> (RenderOutput, Vec<DrawBatch>) {
    let los = |a: Vec3i, b: Vec3i| has_los(client, a, b);
    let out = render(client, view.mode, view.view_z, &view.visible_chunks, visibility, caches, &los, buffers);
    let cmds = out.cmds.clone();
    (out, cmds)
}

#[test]
fn render_emits_floor_and_player_quads() {
    let sim = default_sim(true);
    let client = full_client_view(&sim);
    let view = View {
        mode: ViewMode::Master,
        view_z: sim.entity_position(1).expect("player").z,
        visible_chunks: all_chunks(&sim),
    };
    let mut visibility = VisibilityState::default();
    let mut caches = RenderCaches::default();
    let (out, cmds) = render_once(&client, &view, &mut visibility, &mut caches);
    assert!(out.stats.floor_quads > 0);
    assert_eq!(out.stats.player_quads, 1);
    assert_eq!(cmds.len(), 2);
    assert!(cmds[0].floor);
    assert!(!cmds[1].floor);
}

#[test]
fn render_splits_floor_draw_cmds_at_webgl_instance_limit() {
    let sim = new_sim(Vec3u::new(9, 9, 1), true);
    let client = full_client_view(&sim);
    let view = View {
        mode: ViewMode::Master,
        view_z: sim.entity_position(1).expect("player").z,
        visible_chunks: all_chunks(&sim),
    };
    let mut visibility = VisibilityState::default();
    let mut caches = RenderCaches::default();
    let (out, cmds) = render_once(&client, &view, &mut visibility, &mut caches);
    assert!(out.stats.floor_quads > MAX_WORLD_ATLAS_INSTANCES_PER_DRAW as u32);
    assert!(cmds[0].floor);
    assert_eq!(cmds[0].count, MAX_WORLD_ATLAS_INSTANCES_PER_DRAW);
    assert!(!cmds.last().expect("player cmd").floor);
}

#[test]
fn entity_mode_fov_recomputes_only_when_dirty() {
    let sim = default_sim(true);
    let client = full_client_view(&sim);
    let view = View {
        mode: ViewMode::Entity,
        view_z: sim.entity_position(1).expect("player").z,
        visible_chunks: all_chunks(&sim),
    };
    let mut visibility = VisibilityState::default();
    let mut caches = RenderCaches::default();
    let _ = render_once(&client, &view, &mut visibility, &mut caches);
    let first_count = visibility.fov_recompute_count();
    assert_eq!(first_count, 1);
    assert!(!visibility.fov_dirty());
    let _ = render_once(&client, &view, &mut visibility, &mut caches);
    assert_eq!(visibility.fov_recompute_count(), first_count);
    visibility.mark_fov_dirty();
    let _ = render_once(&client, &view, &mut visibility, &mut caches);
    assert_eq!(visibility.fov_recompute_count(), first_count + 1);
}

#[test]
fn entity_mode_fov_creates_memory_after_motion() {
    let mut sim = default_sim(true);
    let mut visibility = VisibilityState::default();
    let mut caches = RenderCaches::default();
    let mut client = full_client_view(&sim);
    let view = View {
        mode: ViewMode::Entity,
        view_z: sim.entity_position(1).expect("player").z,
        visible_chunks: all_chunks(&sim),
    };
    let _ = render_once(&client, &view, &mut visibility, &mut caches);
    let visible_before = visibility.visible_count();
    sim.send_command(WorldCommand::MoveEntity { id: 1, direction: Vec3i::new(-1, 0, 0) }, &timing)
        .expect("starter room west move");
    sim.step_ticks(10);
    sync_full_client_view(&sim, &mut client);
    visibility.mark_fov_dirty();
    let _ = render_once(&client, &view, &mut visibility, &mut caches);
    assert!(visible_before > 0);
    assert!(visibility.remembered_count() > 0);
}

#[test]
fn master_mode_preserves_entity_fov_memory() {
    let mut sim = default_sim(true);
    let mut visibility = VisibilityState::default();
    let mut caches = RenderCaches::default();
    let mut client = full_client_view(&sim);
    let mut view = View {
        mode: ViewMode::Entity,
        view_z: sim.entity_position(1).expect("player").z,
        visible_chunks: all_chunks(&sim),
    };
    let _ = render_once(&client, &view, &mut visibility, &mut caches);
    sim.send_command(WorldCommand::MoveEntity { id: 1, direction: Vec3i::new(-1, 0, 0) }, &timing)
        .expect("starter room west move");
    sim.step_ticks(10);
    sync_full_client_view(&sim, &mut client);
    visibility.mark_fov_dirty();
    let _ = render_once(&client, &view, &mut visibility, &mut caches);
    let remembered_before_master = visibility.remembered_count();
    assert!(remembered_before_master > 0);
    view.mode = ViewMode::Master;
    let _ = render_once(&client, &view, &mut visibility, &mut caches);
    assert_eq!(visibility.remembered_count(), remembered_before_master);
}

#[test]
fn render_fails_closed_on_missing_projected_chunks() {
    let sim = new_sim(Vec3u::new(9, 9, 1), true);
    let mut client = full_client_view(&sim);
    let missing = (4, 4, 0);
    client.remove_chunk(missing);
    let view = View {
        mode: ViewMode::Master,
        view_z: sim.entity_position(1).expect("player").z,
        visible_chunks: all_chunks(&sim),
    };
    let mut visibility = VisibilityState::default();
    let mut caches = RenderCaches::default();
    let (out, _) = render_once(&client, &view, &mut visibility, &mut caches);
    assert!(out.stats.floor_quads > 0);
    // The missing chunk's tiles span [56, 71] on both axes.
    let (min, max) = (56, 72);
    assert!(
        out.floor.iter().all(|t| t.x < min || t.x >= max || t.y < min || t.y >= max),
        "no floor quad may come from the missing chunk"
    );
    assert!(!caches.topmost.contains_column((4, 4)));
}

#[test]
fn topmost_cache_hits_on_repeat_and_invalidates_on_view_z_change() {
    let sim = default_sim(true);
    let client = full_client_view(&sim);
    let mut view = View {
        mode: ViewMode::Master,
        view_z: sim.entity_position(1).expect("player").z,
        visible_chunks: all_chunks(&sim),
    };
    let mut visibility = VisibilityState::default();
    let mut caches = RenderCaches::default();
    let (first, _) = render_once(&client, &view, &mut visibility, &mut caches);
    assert_eq!(caches.topmost.rebuilds(), 1, "one visible column built");
    assert_eq!(caches.topmost.hits(), 0);
    let (second, _) = render_once(&client, &view, &mut visibility, &mut caches);
    assert_eq!(caches.topmost.rebuilds(), 1, "second frame is a pure hit");
    assert_eq!(caches.topmost.hits(), 1);
    assert_eq!(second.floor, first.floor, "cached emission is value-identical");
    assert_eq!(second.stats.floor_quads, first.stats.floor_quads);

    view.view_z -= 1;
    let _ = render_once(&client, &view, &mut visibility, &mut caches);
    assert_eq!(caches.topmost.rebuilds(), 2, "view_z change rebuilds");
    assert_eq!(caches.topmost.hits(), 1, "no false hit after view_z change");
    let (z, _) = caches.topmost.column_entry((0, 0)).expect("column");
    assert_eq!(z, view.view_z, "entry rekeyed to the new view_z");
}

#[test]
fn topmost_cache_invalidates_for_both_source_z_chunks_in_slice() {
    let mut sim = new_sim(Vec3u::new(1, 1, 2), false);
    let client = full_client_view(&sim);
    let mut view = View { mode: ViewMode::Master, view_z: 2, visible_chunks: vec![(0, 0, 0)] };
    let mut visibility = VisibilityState::default();
    let mut caches = RenderCaches::default();
    let _ = render_once(&client, &view, &mut visibility, &mut caches);
    let (_, sources) = caches.topmost.column_entry((0, 0)).expect("cached column");
    assert_eq!(sources, vec![(-1, 0), (0, 0)], "slice [-3, 2] depends on exactly the two source z-chunks");
    assert_eq!(caches.topmost.rebuilds(), 1);

    let upper_pos = Vec3i::new(3, 3, 1);
    let before = client.block_at(upper_pos).expect("known");
    let flipped = if before == BlockType::SolidStone { BlockType::Air } else { BlockType::SolidStone };
    assert!(sim.set_block(upper_pos, flipped));
    let client = full_client_view(&sim);
    let _ = render_once(&client, &view, &mut visibility, &mut caches);
    assert_eq!(caches.topmost.rebuilds(), 2, "upper z-chunk revision change rebuilds the column");
    let (_, sources) = caches.topmost.column_entry((0, 0)).expect("cached column");
    assert_eq!(sources, vec![(-1, 0), (0, 1)]);

    let lower_pos = Vec3i::new(5, 5, -2);
    let before = client.block_at(lower_pos).expect("known");
    let flipped = if before == BlockType::SolidStone { BlockType::Air } else { BlockType::SolidStone };
    assert!(sim.set_block(lower_pos, flipped));
    let client = full_client_view(&sim);
    let _ = render_once(&client, &view, &mut visibility, &mut caches);
    assert_eq!(caches.topmost.rebuilds(), 3, "lower z-chunk revision change rebuilds the column");
    let (_, sources) = caches.topmost.column_entry((0, 0)).expect("cached column");
    assert_eq!(sources, vec![(-1, 1), (0, 1)]);

    view.view_z = -10;
    let _ = render_once(&client, &view, &mut visibility, &mut caches);
    let (_, sources) = caches.topmost.column_entry((0, 0)).expect("cached column");
    assert_eq!(sources, vec![(-1, 1)], "single-source slice");
}

#[test]
fn topmost_cache_evicts_columns_leaving_the_visible_window() {
    let sim = new_sim(Vec3u::new(9, 9, 1), false);
    let client = full_client_view(&sim);
    let mut view = View { mode: ViewMode::Master, view_z: 0, visible_chunks: vec![(0, 0, 0), (1, 0, 0)] };
    let mut visibility = VisibilityState::default();
    let mut caches = RenderCaches::default();
    let _ = render_once(&client, &view, &mut visibility, &mut caches);
    assert_eq!(caches.topmost.len(), 2);
    view.visible_chunks = vec![(1, 0, 0), (2, 0, 0)];
    let _ = render_once(&client, &view, &mut visibility, &mut caches);
    assert_eq!(caches.topmost.len(), 2);
    assert!(!caches.topmost.contains_column((0, 0)), "evicted");
    assert!(caches.topmost.contains_column((2, 0)), "entered");
    assert_eq!(caches.topmost.hits(), 1, "the retained column was a hit");
}

#[test]
fn topmost_floor_scans_down_to_the_first_solid_bit() {
    let visibility = VisibilityState::default();
    // Bit 2 set: solid three levels down the slice from view_z = 10.
    assert_eq!(topmost_floor(0b100, &visibility, ViewMode::Master, 10, 0, 0), Some((8, TileVisibility::Visible)));
    assert_eq!(topmost_floor(0b101, &visibility, ViewMode::Master, 10, 0, 0), Some((10, TileVisibility::Visible)));
    assert_eq!(topmost_floor(0, &visibility, ViewMode::Master, 10, 0, 0), None);
    // Bits above the slice are never read.
    assert_eq!(topmost_floor(0b1100_0000, &visibility, ViewMode::Master, 10, 0, 0), None);
    // Entity mode shows nothing that was never seen.
    assert_eq!(topmost_floor(0b111111, &visibility, ViewMode::Entity, 10, 0, 0), None);
}

#[test]
fn draw_batches_split_floor_runs_and_skip_empty_ones() {
    assert_eq!(draw_batches(0, 0, 0), vec![]);
    assert_eq!(draw_batches(0, 0, 1), vec![DrawBatch { offset: 0, count: 1, floor: false }]);
    assert_eq!(draw_batches(5, 2, 1), vec![
        DrawBatch { offset: 5, count: 2, floor: true },
        DrawBatch { offset: 7, count: 1, floor: false },
    ]);
    assert_eq!(
        draw_batches(0, 8193, 1),
        vec![
            DrawBatch { offset: 0, count: 8192, floor: true },
            DrawBatch { offset: 8192, count: 1, floor: true },
            DrawBatch { offset: 8193, count: 1, floor: false },
        ]
    );
}

#[test]
fn visibility_reset_forgets_everything() {
    let sim = default_sim(true);
    let client = full_client_view(&sim);
    let view = View {
        mode: ViewMode::Entity,
        view_z: sim.entity_position(1).expect("player").z,
        visible_chunks: all_chunks(&sim),
    };
    let mut visibility = VisibilityState::default();
    let mut caches = RenderCaches::default();
    let (out, _) = render_once(&client, &view, &mut visibility, &mut caches);
    let player = sim.entity_position(1).expect("player");
    assert_eq!(visibility.visibility_at(player), TileVisibility::Visible);
    assert_eq!(out.stats.visible_tiles as usize, visibility.visible_count());
    visibility.reset();
    assert_eq!(visibility.visible_count(), 0);
    assert_eq!(visibility.remembered_count(), 0);
    assert!(visibility.fov_dirty());
    assert_eq!(visibility.fov_recompute_count(), 0);
    assert_eq!(visibility.visibility_at(player), TileVisibility::Unseen);
    caches.reset();
    assert!(caches.topmost.is_empty());
}

#[test]
fn render_appends_only_into_spare_room_and_counts_drops() {
    let sim = new_sim(Vec3u::new(9, 9, 1), true);
    let client = full_client_view(&sim);
    let view = View {
        mode: ViewMode::Master,
        view_z: sim.entity_position(1).expect("player").z,
        visible_chunks: all_chunks(&sim),
    };
    let mut visibility = VisibilityState::default();
    let mut caches = RenderCaches::default();
    let (full, _) = render_once(&client, &view, &mut visibility, &mut caches);
    let total = full.floor.len();
    assert!(total > 10);

    // Three free atlas slots after seven used ones, one free command slot.
    let mut visibility = VisibilityState::default();
    let mut caches = RenderCaches::default();
    let buffers = FrameBuffers { atlas_len: 7, atlas_capacity: 10, cmds_len: 3, cmds_capacity: 4 };
    let (out, cmds) = render_into(&client, &view, &mut visibility, &mut caches, buffers);
    assert_eq!(out.floor, full.floor[..3].to_vec());
    assert!(out.player.is_none());
    assert_eq!(out.stats.floor_quads, 3);
    assert_eq!(out.stats.player_quads, 0);
    assert_eq!(out.stats.dropped_atlas_quads as usize, total - 3 + 1);
    assert_eq!(cmds, vec![DrawBatch { offset: 7, count: 3, floor: true }]);
    assert_eq!(out.stats.dropped_draw_cmds, 0);

    // A full command buffer drops every command.
    let mut visibility = VisibilityState::default();
    let mut caches = RenderCaches::default();
    let buffers = FrameBuffers { atlas_len: 0, atlas_capacity: 24_000, cmds_len: 2, cmds_capacity: 2 };
    let (out, cmds) = render_into(&client, &view, &mut visibility, &mut caches, buffers);
    assert!(cmds.is_empty());
    assert_eq!(out.stats.dropped_draw_cmds as usize, (total + 8191) / 8192 + 1);
    assert_eq!(out.stats.dropped_atlas_quads, 0);
}

#[test]
fn floor_draw_cmds_cover_the_floor_quads_in_order() {
    let sim = new_sim(Vec3u::new(9, 9, 1), true);
    let client = full_client_view(&sim);
    let view = View {
        mode: ViewMode::Master,
        view_z: sim.entity_position(1).expect("player").z,
        visible_chunks: all_chunks(&sim),
    };
    let mut visibility = VisibilityState::default();
    let mut caches = RenderCaches::default();
    let (out, cmds) = render_once(&client, &view, &mut visibility, &mut caches);
    let floor = out.floor.len();
    let mut next = 0;
    for c in cmds.iter().filter(|c| c.floor) {
        assert_eq!(c.offset, next);
        assert!(c.count >= 1 && c.count <= MAX_WORLD_ATLAS_INSTANCES_PER_DRAW);
        next += c.count;
    }
    assert_eq!(next, floor);
    let last = cmds.last().expect("sprite cmd");
    assert_eq!(*last, DrawBatch { offset: floor, count: 1, floor: false });
}
