use std::collections::{BTreeMap, BTreeSet};

use opendwarf::client_world::{RenderEntityData, RenderEntityState};
use opendwarf::coords::DepthTint;
use opendwarf::geometry::{Vec3i, Vec3u};
use opendwarf::invalidation::{TileLayer, TileLayerDebugState, ViewMode};
use opendwarf::render_patches::{
    CutoverFlag, PatchTile, PatchTint, active_layers, active_runtime_keys, apply_runtime_chunk_patches,
    layer_to_runtime, runtime_cutover_disabled, runtime_to_layer, tile_indices_to_tile_data, toggle_runtime_cutover,
};
use opendwarf::runtime_bridge::{build_layer_mask, build_viewport_intent, max_world_z, min_world_z};
use opendwarf::runtime_cache::{
    ChunkCacheState, ChunkKey, ChunkLayerCacheMap, ChunkLayerKey, ChunkLayerResidency, LayerId, LayerMask,
    RuntimeInputQueue, RuntimeViewportIntentState, ViewportIntent,
};
use opendwarf::streaming::ViewZLevel;
use opendwarf::world_state::{WorldCommand, WorldSnapshot};

fn all_layers() -> TileLayerDebugState {
    TileLayerDebugState {
        show_floor: true,
        show_edge_shadow: true,
        show_ceiling_shadow: true,
        show_fog_shadow: true,
        show_depth_stack: false,
    }
}

fn encode(tiles: &Vec<Option<u16>>) -> Vec<u8> {
    bincode::serde::encode_to_vec(tiles, bincode::config::standard()).expect("tile list encodes")
}

fn viewport_at(center: Vec3i, radius: i32) -> ViewportIntent {
    ViewportIntent {
        camera_center: center,
        desired_bounds_min: Vec3i::new(center.x - radius, center.y - radius, center.z - 5),
        desired_bounds_max: Vec3i::new(center.x + radius, center.y + radius, center.z),
        relevant_z_min: center.z - 5,
        relevant_z_max: center.z,
        active_layers: LayerMask(0b1111),
        view_mode: ViewMode::Entity,
    }
}

#[test]
fn patch_replaces_only_with_same_or_newer_revision() {
    let mut cache = ChunkLayerCacheMap::default();
    let chunk = ChunkKey::new(1, 2, 3);
    assert!(cache.apply_patch(chunk, LayerId::Floor, 5, 7, true, vec![1, 2], 100));
    let key = ChunkLayerKey::new(chunk, LayerId::Floor).to_code();
    assert_eq!(key, (1, 2, 3, 0));
    let e = &cache.entries[&key];
    assert_eq!((e.revision, e.worker_frame_id, e.full_chunk, e.materialized, e.dirty), (5, 7, true, true, true));
    assert_eq!(e.residency, ChunkLayerResidency::Hot);
    assert_eq!(e.last_touched_unix_ms, 100);

    assert!(!cache.apply_patch(chunk, LayerId::Floor, 4, 8, false, vec![9], 200), "older revision is refused");
    assert_eq!(cache.entries[&key].payload, vec![1, 2]);
    assert!(cache.apply_patch(chunk, LayerId::Floor, 5, 9, false, vec![3], 300), "same revision replaces");
    assert_eq!(cache.entries[&key].payload, vec![3]);
}

#[test]
fn stale_sweep_grades_entries_by_age() {
    let mut cache = ChunkLayerCacheMap::default();
    cache.apply_patch(ChunkKey::new(0, 0, 0), LayerId::Floor, 1, 1, false, vec![], 1000);
    cache.apply_patch(ChunkKey::new(1, 0, 0), LayerId::Floor, 1, 4, true, vec![], 1100);
    cache.apply_patch(ChunkKey::new(2, 0, 0), LayerId::Fog, 1, 2, false, vec![], 1240);
    cache.mark_all_stale(1250, 200);
    let cold = &cache.entries[&(0, 0, 0, 0)];
    assert_eq!(cold.residency, ChunkLayerResidency::Cold);
    assert_eq!(cold.stale_since_unix_ms, Some(1250));
    assert!(cold.dirty && cold.materialized);
    let warm = &cache.entries[&(1, 0, 0, 0)];
    assert_eq!(warm.residency, ChunkLayerResidency::Warm);
    assert!(!warm.dirty);
    assert_eq!(cache.entries[&(2, 0, 0, 3)].residency, ChunkLayerResidency::Hot);
    assert_eq!(cache.residency_counts(), (1, 1, 1));
    assert_eq!(cache.entry_shape_counts(), (4, 1, 3, 1));

    // A second sweep keeps the first stale time.
    cache.mark_all_stale(5000, 200);
    assert_eq!(cache.entries[&(0, 0, 0, 0)].stale_since_unix_ms, Some(1250));
    assert_eq!(cache.residency_counts(), (0, 0, 3));
}

#[test]
fn empty_cache_counts_nothing() {
    let cache = ChunkLayerCacheMap::default();
    assert_eq!(cache.residency_counts(), (0, 0, 0));
    assert_eq!(cache.entry_shape_counts(), (0, 0, 0, 0));
    assert_eq!(ChunkCacheState::default().stale_grace_ms, 250);
}

#[test]
fn input_queue_drains_in_order() {
    let mut queue = RuntimeInputQueue::default();
    queue.move_entity(1, Vec3i::new(1, 0, 0));
    queue.push(WorldCommand::AdvanceTicks { count: 3 });
    let drained = queue.drain();
    assert_eq!(
        drained,
        vec![WorldCommand::MoveEntity { id: 1, direction: Vec3i::new(1, 0, 0) }, WorldCommand::AdvanceTicks { count: 3 }]
    );
    assert!(queue.drain().is_empty());
}

#[test]
fn layers_map_both_ways_and_follow_the_debug_menu() {
    for layer in [TileLayer::Floor, TileLayer::EdgeShadow, TileLayer::CeilingShadow, TileLayer::FogShadow] {
        assert_eq!(runtime_to_layer(layer_to_runtime(layer)), layer);
    }
    assert_eq!(layer_to_runtime(TileLayer::FogShadow), LayerId::Fog);
    let mut menu = all_layers();
    menu.show_edge_shadow = false;
    assert_eq!(active_layers(&menu), vec![LayerId::Floor, LayerId::CeilingShadow, LayerId::Fog]);
    assert_eq!(build_layer_mask(ViewMode::Entity, &all_layers()), LayerMask(0b1111));
    assert_eq!(build_layer_mask(ViewMode::Master, &all_layers()), LayerMask(0b0111));
    assert_eq!(build_layer_mask(ViewMode::Entity, &menu), LayerMask(0b1101));
}

#[test]
fn active_keys_cover_the_viewport_box() {
    // Box x, y in -8..=8 with 16-wide centred chunks: chunk columns 0..=1.
    let vp = viewport_at(Vec3i::new(0, 0, 0), 8);
    let keys = active_runtime_keys(&vp, 16, &vec![0, -1], &vec![LayerId::Floor, LayerId::CeilingShadow]);
    let mut expected = BTreeSet::new();
    for x in 0..=1 {
        for y in 0..=1 {
            expected.insert((x, y, 0, 0));
            expected.insert((x, y, 0, 2));
            expected.insert((x, y, -1, 0));
        }
    }
    assert_eq!(keys, expected, "ceiling shadows only at the viewport's level");

    let west = viewport_at(Vec3i::new(-20, 0, 0), 0);
    let keys = active_runtime_keys(&west, 16, &vec![0], &vec![LayerId::Floor]);
    assert_eq!(keys.into_iter().collect::<Vec<_>>(), vec![(-1, 0, 0, 0)]);
}

#[test]
fn tile_indices_take_layer_tints() {
    let tiles = tile_indices_to_tile_data(vec![Some(5), None], TileLayer::Floor, -2, true);
    assert_eq!(tiles, vec![Some(PatchTile { tileset_index: 5, tint: PatchTint::Depth(DepthTint::Level(2)) }), None]);
    let flat = tile_indices_to_tile_data(vec![Some(5)], TileLayer::Floor, -2, false);
    assert_eq!(flat, vec![Some(PatchTile { tileset_index: 5, tint: PatchTint::Plain })]);
    let fog = tile_indices_to_tile_data(vec![Some(1)], TileLayer::FogShadow, 0, true);
    assert_eq!(fog, vec![Some(PatchTile { tileset_index: 1, tint: PatchTint::RememberedFog })]);
    let deep = tile_indices_to_tile_data(vec![Some(1)], TileLayer::Floor, -9, true);
    assert_eq!(deep[0].unwrap().tint, PatchTint::Depth(DepthTint::Deepest));
}

#[test]
fn patches_decode_redraw_and_despawn() {
    let mut cache = ChunkLayerCacheMap::default();
    cache.apply_patch(ChunkKey::new(0, 0, 0), LayerId::Floor, 1, 1, true, encode(&vec![Some(5), None, Some(6)]), 0);
    cache.apply_patch(ChunkKey::new(0, 0, 0), LayerId::EdgeShadow, 1, 1, true, vec![0xff, 0xff, 0xff], 0);
    cache.apply_patch(ChunkKey::new(9, 9, 0), LayerId::Floor, 1, 1, true, encode(&vec![Some(1)]), 0);
    let state = RuntimeViewportIntentState { current: Some(viewport_at(Vec3i::new(0, 0, 0), 4)) };
    let rendered: BTreeSet<(i32, i32, i32, u8)> = [(0, 0, 0, 0), (5, 5, 0, 0)].into_iter().collect();
    let plan = apply_runtime_chunk_patches(
        &CutoverFlag { enabled: true },
        false,
        &state,
        0,
        &all_layers(),
        16,
        &rendered,
        &mut cache,
    )
    .expect("a viewport was sent");
    assert!(plan.visible);
    assert_eq!(plan.despawn, vec![ChunkLayerKey::new(ChunkKey::new(5, 5, 0), LayerId::Floor)]);
    assert_eq!(plan.updates.len(), 1, "the undecodable edge shadow is skipped");
    let update = &plan.updates[0];
    assert_eq!(update.key, ChunkLayerKey::new(ChunkKey::new(0, 0, 0), LayerId::Floor));
    assert_eq!(update.layer, TileLayer::Floor);
    assert_eq!(
        update.tiles,
        vec![
            Some(PatchTile { tileset_index: 5, tint: PatchTint::Plain }),
            None,
            Some(PatchTile { tileset_index: 6, tint: PatchTint::Plain })
        ]
    );
    let floor = &cache.entries[&(0, 0, 0, 0)];
    assert!(floor.materialized && !floor.dirty);
    assert!(!cache.entries[&(0, 0, 0, 1)].dirty, "a failed decode is not retried");
    assert!(cache.entries[&(9, 9, 0, 0)].dirty, "out of view: left for later");

    // Nothing changed since: no redraw, unless the renderer was just switched.
    let again = apply_runtime_chunk_patches(&CutoverFlag { enabled: true }, false, &state, 0, &all_layers(), 16, &BTreeSet::new(), &mut cache)
        .expect("viewport");
    assert!(again.updates.is_empty());
    let switched = apply_runtime_chunk_patches(&CutoverFlag { enabled: false }, true, &state, 0, &all_layers(), 16, &BTreeSet::new(), &mut cache)
        .expect("viewport");
    assert!(!switched.visible);
    assert_eq!(switched.updates.len(), 1);
}

#[test]
fn no_viewport_no_patch_work() {
    let mut cache = ChunkLayerCacheMap::default();
    cache.apply_patch(ChunkKey::new(0, 0, 0), LayerId::Floor, 1, 1, true, encode(&vec![Some(5)]), 0);
    let plan = apply_runtime_chunk_patches(
        &CutoverFlag::default(),
        true,
        &RuntimeViewportIntentState::default(),
        0,
        &all_layers(),
        16,
        &BTreeSet::new(),
        &mut cache,
    );
    assert!(plan.is_none());
    assert!(cache.entries[&(0, 0, 0, 0)].dirty);
}

#[test]
fn cutover_toggles_on_f9() {
    let mut flag = CutoverFlag::default();
    assert!(runtime_cutover_disabled(&flag));
    toggle_runtime_cutover(true, &mut flag);
    assert!(flag.enabled && !runtime_cutover_disabled(&flag));
    toggle_runtime_cutover(false, &mut flag);
    assert!(flag.enabled);
}

fn snapshot(chunk_edge: u32, world_chunks: Vec3u) -> WorldSnapshot {
    WorldSnapshot { tick: 0, chunk_edge, world_chunks, terrain_blocks: Vec::new(), loaded_chunks: Vec::new(), entities: Vec::new() }
}

#[test]
fn world_z_range_is_centred() {
    let snap = snapshot(16, Vec3u::new(16, 16, 4));
    assert_eq!(min_world_z(&snap), -32);
    assert_eq!(max_world_z(&snap), 31);
    let odd = snapshot(3, Vec3u::new(1, 1, 1));
    assert_eq!((min_world_z(&odd), max_world_z(&odd)), (-1, 1));
}

#[test]
fn viewport_intent_follows_the_primary_entity() {
    let mut entities = BTreeMap::new();
    entities.insert(7, RenderEntityState { position: Vec3i::new(3, -4, 30), facing_left: false, is_prone: false, movement: None });
    let data = RenderEntityData { tick: 0, entities, dirty: false };
    let snap = snapshot(16, Vec3u::new(16, 16, 4));
    let view_z = ViewZLevel { current: 30, initialized: true, last_player_z: Some(30) };
    let intent = build_viewport_intent(Some(7), &snap, ViewMode::Master, view_z, &data, &all_layers(), 32).expect("entity 7");
    assert_eq!(intent.camera_center, Vec3i::new(3, -4, 30));
    assert_eq!(intent.desired_bounds_min, Vec3i::new(-29, -36, 25));
    assert_eq!(intent.desired_bounds_max, Vec3i::new(35, 28, 30));
    assert_eq!((intent.relevant_z_min, intent.relevant_z_max), (25, 30));
    assert_eq!(intent.active_layers, LayerMask(0b0111));
    // A view level above the world is clipped to its top.
    let high = ViewZLevel { current: 40, ..view_z };
    let intent = build_viewport_intent(Some(7), &snap, ViewMode::Entity, high, &data, &all_layers(), 32).expect("entity 7");
    assert_eq!((intent.relevant_z_min, intent.relevant_z_max), (35, 31));
    assert!(build_viewport_intent(Some(8), &snap, ViewMode::Entity, view_z, &data, &all_layers(), 32).is_none());
    assert!(build_viewport_intent(None, &snap, ViewMode::Entity, view_z, &data, &all_layers(), 32).is_none());
}
