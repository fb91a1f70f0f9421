use std::collections::{BTreeMap, BTreeSet};

use opendwarf::client_world::{
    BlockChange, EntityMoved, FogData, RenderEntityData, RenderEntityMovementState, RenderEntityState, SimSnapshot,
    TerrainConfig, TileMemory, VisibilitySnapshot, apply_delta, apply_snapshot, snapshot_needs_apply,
    snapshot_visibility_changed,
};
use opendwarf::coords::{IVec2, RenderViewport, TerrainData};
use opendwarf::geometry::{BlockType, Vec3i, Vec3u};
use opendwarf::input::{
    HeldMovementState, LayerToggleKeys, combine_directions, queue_world_commands_from_input, toggle_tile_layers,
};
use opendwarf::invalidation::{TileLayerDebugState, TilemapInvalidation, ViewMode};
use opendwarf::tile_geometry::TileDataCache;
use opendwarf::world_state::{EntitySnapshot, StartBits};

fn empty_fog() -> FogData {
    FogData { visible: BTreeSet::new(), memory: BTreeMap::new(), dirty: false }
}

fn layers() -> TileLayerDebugState {
    TileLayerDebugState {
        show_floor: true,
        show_edge_shadow: true,
        show_ceiling_shadow: true,
        show_fog_shadow: true,
        show_depth_stack: true,
    }
}

fn viewport() -> RenderViewport {
    RenderViewport { visible_chunks_xy: [(0, 0)].into_iter().collect(), visible_z_levels: vec![3], viewport_changed: false, newly_visible_chunks_xy: Default::default() }
}

#[test]
fn snapshot_visibility_changed_detects_same_tick_fov_update() {
    let position = Vec3i::new(1, 2, 3);
    let mut fog = empty_fog();
    fog.memory.insert((1, 2, 3), TileMemory { block: BlockType::Air, tick_observed: 1 });
    let visibility = VisibilitySnapshot { entity_id: 1, visible: vec![position], memory: BTreeMap::new() };
    assert!(snapshot_visibility_changed(true, &fog, Some(&visibility)));
    assert!(!snapshot_visibility_changed(false, &fog, Some(&visibility)));
}

#[test]
fn unchanged_visibility_is_not_a_change() {
    let mut fog = empty_fog();
    fog.visible.insert((1, 2, 3));
    let same = VisibilitySnapshot { entity_id: 1, visible: vec![Vec3i::new(1, 2, 3)], memory: BTreeMap::new() };
    assert!(!snapshot_visibility_changed(true, &fog, Some(&same)));
    // No report while fog is held is a change; with no fog it is not.
    assert!(snapshot_visibility_changed(true, &fog, None));
    assert!(!snapshot_visibility_changed(true, &empty_fog(), None));
}

fn snapshot(tick: u64, visibility: Option<VisibilitySnapshot>) -> SimSnapshot {
    SimSnapshot {
        tick,
        chunk_edge: 16,
        world_chunks: Vec3u::new(1, 1, 1),
        entities: vec![EntitySnapshot {
            id: 1,
            position: Vec3i::new(0, 0, 3),
            facing_left: true,
            is_prone: false,
            movement: None,
        }],
        visibility,
    }
}

#[test]
fn entity_mode_snapshot_draws_seen_and_remembered_blocks() {
    let mut config = TerrainConfig { chunk_edge: 16, world_chunks: Vec3u::new(1, 1, 1) };
    let mut terrain = TerrainData { source_blocks: BTreeMap::new(), blocks: BTreeMap::new() };
    let mut entities = RenderEntityData { tick: 0, entities: BTreeMap::new(), dirty: false };
    let mut fog = empty_fog();
    let mut invalidation = TilemapInvalidation::default();
    let mut cache = TileDataCache::new();
    let source: BTreeMap<(i32, i32, i32), BlockType> = [((0, 0, 2), BlockType::SolidStone)].into_iter().collect();
    let mut memory = BTreeMap::new();
    memory.insert((5, 5, 3), TileMemory { block: BlockType::SolidStone, tick_observed: 4 });
    let vis = VisibilitySnapshot { entity_id: 1, visible: vec![Vec3i::new(0, 0, 2), Vec3i::new(0, 0, 3)], memory };
    apply_snapshot(
        ViewMode::Entity,
        &mut config,
        &mut terrain,
        &mut entities,
        &mut fog,
        &snapshot(9, Some(vis)),
        Some(source),
        &viewport(),
        &layers(),
        &mut invalidation,
        &mut cache,
    );
    assert_eq!(entities.tick, 9);
    assert!(entities.dirty);
    assert_eq!(entities.entities.get(&1).map(|e| e.facing_left), Some(true));
    assert_eq!(terrain.blocks.get(&(0, 0, 2)), Some(&BlockType::SolidStone));
    assert_eq!(terrain.blocks.get(&(0, 0, 3)), Some(&BlockType::Air));
    assert_eq!(terrain.blocks.get(&(5, 5, 3)), Some(&BlockType::SolidStone));
    assert_eq!(terrain.blocks.len(), 3);
    assert_eq!(fog.visible.len(), 2);
    assert!(!invalidation.is_empty());

    // The view moves on: what left it is forgotten.
    let vis = VisibilitySnapshot { entity_id: 1, visible: vec![Vec3i::new(0, 0, 2)], memory: BTreeMap::new() };
    apply_snapshot(
        ViewMode::Entity,
        &mut config,
        &mut terrain,
        &mut entities,
        &mut fog,
        &snapshot(10, Some(vis)),
        None,
        &viewport(),
        &layers(),
        &mut invalidation,
        &mut cache,
    );
    assert_eq!(terrain.blocks.len(), 1);
    assert!(terrain.blocks.contains_key(&(0, 0, 2)));

    // No visibility report clears the drawn terrain and the fog.
    apply_snapshot(
        ViewMode::Entity,
        &mut config,
        &mut terrain,
        &mut entities,
        &mut fog,
        &snapshot(11, None),
        None,
        &viewport(),
        &layers(),
        &mut invalidation,
        &mut cache,
    );
    assert!(terrain.blocks.is_empty());
    assert!(fog.visible.is_empty() && fog.memory.is_empty());
}

#[test]
fn deltas_move_entities_and_change_blocks() {
    let config = TerrainConfig { chunk_edge: 16, world_chunks: Vec3u::new(1, 1, 1) };
    let mut terrain = TerrainData {
        source_blocks: [((1, 1, 1), BlockType::SolidStone)].into_iter().collect(),
        blocks: [((1, 1, 1), BlockType::SolidStone)].into_iter().collect(),
    };
    let mut entities = RenderEntityData { tick: 0, entities: BTreeMap::new(), dirty: false };
    let mut invalidation = TilemapInvalidation::default();
    let mut cache = TileDataCache::new();
    cache.geometry.insert((0, 0, 1, 0), vec![None; 256]);
    let delta = opendwarf::client_world::WorldDelta {
        tick: 5,
        moved_entities: vec![EntityMoved {
            id: 2,
            to: Vec3i::new(1, 0, 0),
            facing_left_after: false,
            is_prone_after: false,
            movement_after: None,
        }],
        block_changes: vec![
            BlockChange { position: Vec3i::new(1, 1, 1), to: BlockType::Air },
            BlockChange { position: Vec3i::new(2, 2, 2), to: BlockType::SolidStone },
        ],
    };
    apply_delta(ViewMode::Master, &config, &mut terrain, &mut entities, &delta, &layers(), &mut invalidation, &mut cache);
    assert_eq!(entities.tick, 5);
    assert_eq!(entities.entities.get(&2).map(|e| e.position), Some(Vec3i::new(1, 0, 0)));
    assert!(!terrain.source_blocks.contains_key(&(1, 1, 1)));
    assert_eq!(terrain.source_blocks.get(&(2, 2, 2)), Some(&BlockType::SolidStone));
    // Undrawn positions stay undrawn.
    assert!(terrain.blocks.is_empty());
    assert!(cache.geometry.is_empty());
    assert!(!invalidation.is_empty());
}

#[test]
fn snapshots_apply_only_when_something_changed() {
    let config = TerrainConfig { chunk_edge: 16, world_chunks: Vec3u::new(1, 1, 1) };
    let snap = snapshot(3, None);
    assert!(!snapshot_needs_apply(false, 3, &config, &snap, false, false, false));
    assert!(snapshot_needs_apply(false, 2, &config, &snap, false, false, false));
    assert!(snapshot_needs_apply(false, 3, &config, &snap, true, false, false));
    assert!(!snapshot_needs_apply(true, 2, &config, &snap, true, true, true));
}

fn entity_data(movement: Option<(Vec3i, Vec3i)>) -> RenderEntityData {
    let mut entities = BTreeMap::new();
    entities.insert(
        1,
        RenderEntityState {
            position: Vec3i::new(0, 0, 0),
            facing_left: false,
            is_prone: false,
            movement: movement.map(|(origin, target)| RenderEntityMovementState {
                start_bits: StartBits { x: 0, y: 0, z: 0 },
                origin,
                target,
                progress_percent: 10,
            }),
        },
    );
    RenderEntityData { tick: 0, entities, dirty: false }
}

#[test]
fn movement_input_turns_keys_into_move_commands() {
    let east = Vec3i::new(1, 0, 0);
    let north_east = combine_directions(Some(east), Some(Vec3i::new(0, 1, 0)));
    assert_eq!(north_east, Vec3i::new(1, 1, 0));
    let zero = Vec3i::new(0, 0, 0);
    let idle = entity_data(None);
    let mut held = HeldMovementState { was_moving_last_frame: false };
    assert_eq!(queue_world_commands_from_input(false, east, zero, Some(1), &idle, &mut held), Some((1, east)));
    assert!(!held.was_moving_last_frame);
    // A move in progress east ignores a held east key but turns on a new key.
    let moving = entity_data(Some((Vec3i::new(0, 0, 0), east)));
    assert_eq!(queue_world_commands_from_input(false, east, east, Some(1), &moving, &mut held), None);
    assert!(held.was_moving_last_frame);
    let north = Vec3i::new(0, 1, 0);
    assert_eq!(queue_world_commands_from_input(false, north, zero, Some(1), &moving, &mut held), Some((1, north)));
    // Right after a move ends a held key chains into the next move.
    assert_eq!(queue_world_commands_from_input(false, zero, east, Some(1), &idle, &mut held), Some((1, east)));
    assert!(!held.was_moving_last_frame);
    assert_eq!(queue_world_commands_from_input(false, zero, east, Some(1), &idle, &mut held), None);
    // Replay or no entity: nothing.
    assert_eq!(queue_world_commands_from_input(true, east, zero, Some(1), &idle, &mut held), None);
    assert_eq!(queue_world_commands_from_input(false, east, zero, Some(2), &idle, &mut held), None);
}

#[test]
fn layer_toggles_flip_switches_and_invalidate_the_view() {
    let mut state = layers();
    let mut invalidation = TilemapInvalidation::default();
    let none = LayerToggleKeys { floor: false, edge_shadow: false, ceiling_shadow: false, fog_shadow: false, depth_stack: false };
    toggle_tile_layers(none, &mut state, &mut invalidation);
    assert!(!invalidation.view_invalidated());
    toggle_tile_layers(LayerToggleKeys { floor: true, depth_stack: true, ..none }, &mut state, &mut invalidation);
    assert!(!state.show_floor && !state.show_depth_stack && state.show_edge_shadow);
    assert!(invalidation.view_invalidated());
    let _ = IVec2::new(0, 0);
}
