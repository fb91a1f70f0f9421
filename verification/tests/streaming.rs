use std::collections::{BTreeMap, BTreeSet};

use opendwarf::client_world::{FogData, RenderEntityData, RenderEntityState, TileMemory};
use opendwarf::coords::RenderViewport;
use opendwarf::geometry::{BlockType, Vec3i, Vec3u};
use opendwarf::invalidation::{TilemapInvalidation, ViewMode, sync_viewport_to_invalidation};
use opendwarf::streaming::{
    ChunkStreamingState, ViewZLevel, stream_chunks_around_player, sync_camera_z_to_player, update_view_z_level,
};
use opendwarf::world_state::WorldCommand;

fn entity_at(id: u64, position: Vec3i) -> RenderEntityData {
    let mut entities = BTreeMap::new();
    entities.insert(id, RenderEntityState { position, facing_left: false, is_prone: false, movement: None });
    RenderEntityData { tick: 0, entities, dirty: false }
}

fn viewport(columns: &[(i32, i32)], levels: Vec<i32>) -> RenderViewport {
    RenderViewport {
        visible_chunks_xy: columns.iter().copied().collect(),
        visible_z_levels: levels,
        viewport_changed: false,
        newly_visible_chunks_xy: BTreeSet::new(),
    }
}

fn fog(points: &[(i32, i32, i32)], remembered: &[(i32, i32, i32)]) -> FogData {
    FogData {
        visible: points.iter().copied().collect(),
        memory: remembered
            .iter()
            .map(|p| (*p, TileMemory { block: BlockType::Air, tick_observed: 0 }))
            .collect(),
        dirty: false,
    }
}

#[test]
fn camera_follows_player_level_once_and_on_change() {
    let mut view_z = ViewZLevel::default();
    let mut invalidation = TilemapInvalidation::default();
    let data = entity_at(1, Vec3i::new(0, 0, -2));
    sync_camera_z_to_player(&mut view_z, &data, Some(1), &mut invalidation);
    assert_eq!(view_z, ViewZLevel { current: -2, initialized: true, last_player_z: Some(-2) });
    assert!(invalidation.view_invalidated());

    // Same level again: nothing changes, even after the user scrolled.
    let mut invalidation = TilemapInvalidation::default();
    view_z.current = 4;
    sync_camera_z_to_player(&mut view_z, &data, Some(1), &mut invalidation);
    assert_eq!(view_z.current, 4);
    assert!(!invalidation.view_invalidated());

    // The player changed level: the camera jumps to it.
    let moved = entity_at(1, Vec3i::new(0, 0, 1));
    sync_camera_z_to_player(&mut view_z, &moved, Some(1), &mut invalidation);
    assert_eq!(view_z, ViewZLevel { current: 1, initialized: true, last_player_z: Some(1) });
    assert!(invalidation.view_invalidated());
}

#[test]
fn camera_ignores_missing_player() {
    let mut view_z = ViewZLevel::default();
    let mut invalidation = TilemapInvalidation::default();
    sync_camera_z_to_player(&mut view_z, &entity_at(1, Vec3i::new(0, 0, 3)), None, &mut invalidation);
    sync_camera_z_to_player(&mut view_z, &entity_at(1, Vec3i::new(0, 0, 3)), Some(2), &mut invalidation);
    assert_eq!(view_z, ViewZLevel::default());
    assert!(!invalidation.view_invalidated());
}

#[test]
fn viewport_is_copied_into_invalidation() {
    let mut vp = viewport(&[(1, 2)], vec![5, 4]);
    vp.viewport_changed = true;
    vp.newly_visible_chunks_xy.insert((1, 2));
    let mut invalidation = TilemapInvalidation::default();
    sync_viewport_to_invalidation(&vp, &mut invalidation);
    assert_eq!(invalidation.visible_chunks_xy, vp.visible_chunks_xy);
    assert_eq!(invalidation.visible_z_levels, vec![5, 4]);
    assert!(invalidation.viewport_changed);
    assert_eq!(invalidation.newly_visible_chunks_xy, vp.newly_visible_chunks_xy);
}

#[test]
fn first_stream_only_records_the_window() {
    let mut state = ChunkStreamingState::default();
    let mut commands = Vec::new();
    let mut invalidation = TilemapInvalidation::default();
    let vp = viewport(&[(0, 0)], vec![0]);
    stream_chunks_around_player(false, 16, Vec3u::new(3, 3, 3), &vp, &mut state, &mut commands, &mut invalidation);
    let expected: BTreeSet<(i32, i32, i32)> = [(0, 0, -1), (0, 0, 0), (0, 0, 1)].into_iter().collect();
    assert_eq!(state.loaded_chunks, expected);
    assert!(commands.is_empty());
    assert!(!invalidation.view_invalidated());
}

#[test]
fn streaming_loads_entering_and_unloads_leaving_chunks() {
    let mut state = ChunkStreamingState::default();
    let mut commands = Vec::new();
    let mut invalidation = TilemapInvalidation::default();
    let world = Vec3u::new(3, 3, 1);
    stream_chunks_around_player(false, 16, world, &viewport(&[(0, 0)], vec![0]), &mut state, &mut commands, &mut invalidation);
    stream_chunks_around_player(false, 16, world, &viewport(&[(1, 0), (1, 1)], vec![0]), &mut state, &mut commands, &mut invalidation);
    let load = |x, y| WorldCommand::SetChunkLoaded { chunk: Vec3i::new(x, y, 0), loaded: true };
    let unload = |x, y| WorldCommand::SetChunkLoaded { chunk: Vec3i::new(x, y, 0), loaded: false };
    assert_eq!(commands, vec![load(1, 0), load(1, 1), unload(0, 0)]);
    let expected: BTreeSet<(i32, i32, i32)> = [(1, 0, 0), (1, 1, 0)].into_iter().collect();
    assert_eq!(state.loaded_chunks, expected);
    assert!(invalidation.view_invalidated());

    // Shrinking the window only unloads, and does not rebuild the view.
    let mut commands = Vec::new();
    let mut invalidation = TilemapInvalidation::default();
    stream_chunks_around_player(false, 16, world, &viewport(&[(1, 1)], vec![0]), &mut state, &mut commands, &mut invalidation);
    assert_eq!(commands, vec![unload(1, 0)]);
    assert!(!invalidation.view_invalidated());
}

#[test]
fn streaming_is_paused_during_replay_and_without_chunk_edge() {
    let mut state = ChunkStreamingState::default();
    let mut commands = Vec::new();
    let mut invalidation = TilemapInvalidation::default();
    let vp = viewport(&[(0, 0)], vec![0]);
    stream_chunks_around_player(true, 16, Vec3u::new(1, 1, 1), &vp, &mut state, &mut commands, &mut invalidation);
    stream_chunks_around_player(false, 0, Vec3u::new(1, 1, 1), &vp, &mut state, &mut commands, &mut invalidation);
    assert!(state.loaded_chunks.is_empty());
    assert!(commands.is_empty());
}

#[test]
fn view_z_steps_within_known_levels_in_entity_mode() {
    // A 16-high world spans levels -8..=7; the entity knows levels -2..=1.
    let known = fog(&[(0, 0, -2), (0, 0, 0)], &[(3, 3, 1)]);
    let mut view_z = ViewZLevel { current: 1, initialized: true, last_player_z: Some(1) };
    let mut data = entity_at(1, Vec3i::new(0, 0, 1));
    let mut invalidation = TilemapInvalidation::default();
    update_view_z_level(true, false, 16, Vec3u::new(1, 1, 1), ViewMode::Entity, Some(1), &known, &mut view_z, &mut data, &mut invalidation);
    assert_eq!(view_z.current, 1, "already at the highest known level");
    assert!(data.dirty && invalidation.view_invalidated());

    let mut invalidation = TilemapInvalidation::default();
    for _ in 0..5 {
        update_view_z_level(false, true, 16, Vec3u::new(1, 1, 1), ViewMode::Entity, Some(1), &known, &mut view_z, &mut data, &mut invalidation);
    }
    assert_eq!(view_z.current, -2, "stops at the lowest known level");
}

#[test]
fn view_z_is_pulled_back_into_bounds_without_a_key() {
    let known = fog(&[(0, 0, 0)], &[]);
    let mut view_z = ViewZLevel { current: 5, initialized: true, last_player_z: None };
    let mut data = entity_at(1, Vec3i::new(0, 0, 0));
    let mut invalidation = TilemapInvalidation::default();
    update_view_z_level(false, false, 16, Vec3u::new(1, 1, 1), ViewMode::Entity, Some(1), &known, &mut view_z, &mut data, &mut invalidation);
    assert_eq!(view_z.current, 0);
    assert!(data.dirty && invalidation.view_invalidated());

    // Inside the bounds and no key: nothing to redraw.
    let mut data = entity_at(1, Vec3i::new(0, 0, 0));
    let mut invalidation = TilemapInvalidation::default();
    update_view_z_level(false, false, 16, Vec3u::new(1, 1, 1), ViewMode::Entity, Some(1), &known, &mut view_z, &mut data, &mut invalidation);
    assert_eq!(view_z.current, 0);
    assert!(!data.dirty && !invalidation.view_invalidated());
}

#[test]
fn master_view_scrolls_through_the_whole_world() {
    let known = fog(&[(0, 0, 0)], &[]);
    let mut view_z = ViewZLevel { current: 6, initialized: true, last_player_z: None };
    let mut data = entity_at(1, Vec3i::new(0, 0, 0));
    let mut invalidation = TilemapInvalidation::default();
    update_view_z_level(true, false, 16, Vec3u::new(1, 1, 1), ViewMode::Master, Some(1), &known, &mut view_z, &mut data, &mut invalidation);
    assert_eq!(view_z.current, 7);
    update_view_z_level(true, false, 16, Vec3u::new(1, 1, 1), ViewMode::Master, Some(1), &known, &mut view_z, &mut data, &mut invalidation);
    assert_eq!(view_z.current, 7, "the top level of a 16-high world is 7");
}
