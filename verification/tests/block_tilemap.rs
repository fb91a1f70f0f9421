use std::collections::{BTreeMap, BTreeSet};

use opendwarf::block_tilemap::project_world_to_tilemap;
use opendwarf::client_world::{FogData, TerrainConfig, TileMemory};
use opendwarf::coords::TerrainData;
use opendwarf::geometry::{BlockType, Vec3u};
use opendwarf::invalidation::{TileLayerDebugState, TilemapInvalidation, ViewMode};
use opendwarf::render_patches::{PatchTile, PatchTint};

fn all_layers(depth_stack: bool) -> TileLayerDebugState {
    TileLayerDebugState {
        show_floor: true,
        show_edge_shadow: true,
        show_ceiling_shadow: true,
        show_fog_shadow: true,
        show_depth_stack: depth_stack,
    }
}

/// One 2x2 chunk at level 0 (tiles -1..=0 on each axis), stone at (-1, -1).
fn terrain() -> TerrainData {
    let mut source = BTreeMap::new();
    source.insert((-1, -1, 0), BlockType::SolidStone);
    TerrainData { source_blocks: source, blocks: BTreeMap::new() }
}

fn config() -> TerrainConfig {
    TerrainConfig { chunk_edge: 2, world_chunks: Vec3u::new(1, 1, 1) }
}

fn empty_fog() -> FogData {
    FogData { visible: BTreeSet::new(), memory: BTreeMap::new(), dirty: false }
}

#[test]
fn first_pass_spawns_every_wanted_layer() {
    let mut terrain_dirty = false;
    let mut fog = empty_fog();
    let mut invalidation = TilemapInvalidation::default();
    let plan = project_world_to_tilemap(
        false,
        None,
        0,
        true,
        ViewMode::Master,
        false,
        &all_layers(false),
        false,
        &config(),
        &terrain(),
        &mut terrain_dirty,
        &mut fog,
        &BTreeSet::new(),
        &mut invalidation,
    )
    .expect("a view change rebuilds");
    let keys: Vec<_> = plan.spawn.keys().copied().collect();
    assert_eq!(keys, vec![(0, 0, 0, 0), (0, 0, 0, 1), (0, 0, 0, 2)], "master view has no fog layer");
    let stone = Some(PatchTile { tileset_index: 5, tint: PatchTint::Plain });
    assert_eq!(plan.spawn[&(0, 0, 0, 0)], vec![stone, None, None, None]);
    let edge = Some(PatchTile { tileset_index: 0, tint: PatchTint::Plain });
    assert_eq!(plan.spawn[&(0, 0, 0, 1)], vec![edge, None, None, None]);
    assert_eq!(plan.spawn[&(0, 0, 0, 2)], vec![None; 4]);
    assert!(plan.update.is_empty() && plan.despawn.is_empty());
    assert_eq!(plan.chunk_count, 3);
    assert_eq!(plan.non_empty_tile_count, 0);
    assert!(!terrain_dirty && !fog.dirty);
    assert!(invalidation.view_invalidated());
}

#[test]
fn dirty_terrain_rebuilds_drawn_layers_and_drops_stale_ones() {
    let existing: BTreeSet<(i32, i32, i32, u8)> =
        [(0, 0, 0, 0), (0, 0, 0, 1), (0, 0, 0, 2), (5, 5, 0, 0)].into_iter().collect();
    let mut terrain_dirty = true;
    let mut fog = empty_fog();
    let mut invalidation = TilemapInvalidation::default();
    let plan = project_world_to_tilemap(
        false,
        None,
        0,
        false,
        ViewMode::Master,
        false,
        &all_layers(false),
        false,
        &config(),
        &terrain(),
        &mut terrain_dirty,
        &mut fog,
        &existing,
        &mut invalidation,
    )
    .expect("terrain is dirty");
    assert!(plan.spawn.is_empty());
    let despawn: Vec<_> = plan.despawn.iter().copied().collect();
    assert_eq!(despawn, vec![(5, 5, 0, 0)], "outside the active columns");
    assert_eq!(plan.update.len(), 4, "every drawn layer of a dirty kind is rebuilt");
    assert_eq!(plan.non_empty_tile_count, 2, "one stone floor tile and one edge-shadow tile");
    assert!(!invalidation.view_invalidated(), "no view change");
}

#[test]
fn nothing_dirty_means_no_pass() {
    let mut terrain_dirty = false;
    let mut fog = empty_fog();
    let mut invalidation = TilemapInvalidation::default();
    let plan = project_world_to_tilemap(
        false, None, 0, false, ViewMode::Master, false, &all_layers(false), false, &config(), &terrain(),
        &mut terrain_dirty, &mut fog, &BTreeSet::new(), &mut invalidation,
    );
    assert!(plan.is_none());
    // Without a chunk edge the dirty marks stay for a later pass.
    let mut fog = empty_fog();
    fog.dirty = true;
    let no_edge = TerrainConfig { chunk_edge: 0, world_chunks: Vec3u::new(1, 1, 1) };
    let plan = project_world_to_tilemap(
        false, None, 0, false, ViewMode::Master, false, &all_layers(false), false, &no_edge, &terrain(),
        &mut terrain_dirty, &mut fog, &BTreeSet::new(), &mut invalidation,
    );
    assert!(plan.is_none() && fog.dirty);
}

#[test]
fn entity_view_adds_fog_from_its_own_blocks() {
    let mut fog = empty_fog();
    fog.dirty = true;
    fog.memory.insert((0, 0, 0), TileMemory { block: BlockType::Air, tick_observed: 3 });
    let mut terrain_dirty = false;
    let mut invalidation = TilemapInvalidation::default();
    let plan = project_world_to_tilemap(
        false, None, 0, false, ViewMode::Entity, false, &all_layers(false), false, &config(), &terrain(),
        &mut terrain_dirty, &mut fog, &BTreeSet::new(), &mut invalidation,
    )
    .expect("fog is dirty");
    let keys: Vec<_> = plan.spawn.keys().copied().collect();
    assert_eq!(keys, vec![(0, 0, 0, 3)], "only fog is dirty");
    let remembered = Some(PatchTile { tileset_index: 0, tint: PatchTint::RememberedFog });
    assert_eq!(plan.spawn[&(0, 0, 0, 3)], vec![None, None, None, remembered]);
    assert_eq!(plan.chunk_count, 1);
    assert!(!fog.dirty);
}
