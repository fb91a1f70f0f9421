use std::collections::{BTreeMap, BTreeSet};

use opendwarf::coords::{
    DepthTint, IVec2, RenderViewport, TerrainBlocks, all_world_chunk_coords, chunk_local_tile_index,
    compute_shadow_mask_for_air, desired_streaming_window, empty_chunk_tile_data, get_depth_tint_sprite_color,
    get_depth_tint_tile_color, terrain_block, terrain_block_for_shadow, topmost_solid_z_in_column,
    world_pos_in_chunk, z_levels_to_render,
};
use opendwarf::geometry::{BlockType, Vec3i, Vec3u};
use opendwarf::invalidation::{TileLayer, TileLayerDebugState, TilemapInvalidation, ViewMode, chunk_of_xy, layer_key};
use opendwarf::tile_geometry::{STONE_TILE_INDEX, build_floor_geometry, build_topmost_cache, topmost_from_cache};
use opendwarf::tilemap::{manage_tilemap_chunk_lifecycle, rendered_z_levels, select_tiles_to_rebuild};

fn world_pos(chunk_x: i32, chunk_y: i32, lx: u32, ly: u32, chunk_edge: u32) -> Vec3i {
    let edge_i = chunk_edge as i32;
    let half = edge_i / 2;
    Vec3i::new(chunk_x * edge_i + lx as i32 - half, chunk_y * edge_i + ly as i32 - half, 0)
}

#[test]
fn chunk_of_xy_round_trips() {
    let chunk_edge: u32 = 16;
    for chunk_x in -3i32..=3 {
        for chunk_y in -3i32..=3 {
            for lx in 0..chunk_edge {
                for ly in 0..chunk_edge {
                    let world = world_pos(chunk_x, chunk_y, lx, ly, chunk_edge);
                    let recovered = chunk_of_xy(world, chunk_edge);
                    assert_eq!(
                        recovered,
                        IVec2::new(chunk_x, chunk_y),
                        "chunk_of_xy({world:?}) should be ({chunk_x},{chunk_y}) but got {recovered:?}"
                    );
                }
            }
        }
    }
}

#[test]
fn world_pos_in_chunk_places_local_tiles_around_the_origin() {
    assert_eq!(world_pos_in_chunk(Vec3i::new(0, 0, 0), 16, 0, 0, 3), Vec3i::new(-8, -8, 3));
    assert_eq!(world_pos_in_chunk(Vec3i::new(1, -1, 0), 16, 15, 0, 0), Vec3i::new(23, -24, 0));
    assert_eq!(chunk_of_xy(Vec3i::new(23, -24, 0), 16), IVec2::new(1, -1));
}

#[test]
fn depth_levels_and_tints() {
    assert_eq!(z_levels_to_render(3), vec![3, 2, 1, 0, -1, -2]);
    assert_eq!(rendered_z_levels(3, false), vec![3]);
    assert_eq!(get_depth_tint_tile_color(0), DepthTint::Level(0));
    assert_eq!(get_depth_tint_tile_color(-5), DepthTint::Level(5));
    assert_eq!(get_depth_tint_tile_color(-6), DepthTint::Deepest);
    assert_eq!(get_depth_tint_tile_color(1), DepthTint::Deepest);
    assert_eq!(get_depth_tint_sprite_color(2), DepthTint::Level(2));
    assert_eq!(get_depth_tint_sprite_color(-3), DepthTint::Level(3));
    assert_eq!(get_depth_tint_sprite_color(9), DepthTint::Deepest);
    assert_eq!(chunk_local_tile_index(3, 2, 16), 35);
    let empty = empty_chunk_tile_data(4);
    assert_eq!(empty.len(), 16);
    assert!(empty.iter().all(|t| t.is_none()));
}

#[test]
fn grid_and_streaming_window() {
    let all = all_world_chunk_coords(Vec3u::new(3, 2, 1));
    assert_eq!(all.len(), 6);
    assert!(all.contains(&(-1, -1, 0)) && all.contains(&(1, 0, 0)));
    assert!(!all.contains(&(1, 1, 0)));
    let viewport = RenderViewport {
        visible_chunks_xy: [(0, 0), (5, 5)].into_iter().collect(),
        visible_z_levels: vec![0],
        viewport_changed: false,
        newly_visible_chunks_xy: Default::default(),
    };
    // Levels -1..=1 around the visible level, clipped to a 1x1x3 grid.
    let window = desired_streaming_window(&viewport, Vec3u::new(1, 1, 3));
    assert_eq!(window.into_iter().collect::<Vec<_>>(), vec![(0, 0, -1), (0, 0, 0), (0, 0, 1)]);
}

fn blocks(list: &[((i32, i32, i32), BlockType)]) -> TerrainBlocks {
    list.iter().copied().collect::<BTreeMap<_, _>>()
}

#[test]
fn terrain_lookups_and_shadows() {
    let b = blocks(&[((0, 0, 0), BlockType::SolidStone), ((1, 0, 1), BlockType::SolidStone), ((0, 0, 1), BlockType::Air)]);
    assert_eq!(terrain_block(Vec3i::new(0, 0, 0), &b), BlockType::SolidStone);
    assert_eq!(terrain_block(Vec3i::new(9, 9, 9), &b), BlockType::Air);
    assert_eq!(terrain_block_for_shadow(Vec3i::new(9, 9, 9), &b, true), BlockType::SolidStone);
    assert_eq!(terrain_block_for_shadow(Vec3i::new(9, 9, 9), &b, false), BlockType::Air);
    assert_eq!(topmost_solid_z_in_column(0, 0, 3, &b, false), Some(0));
    assert_eq!(topmost_solid_z_in_column(5, 5, 3, &b, false), None);
    assert_eq!(topmost_solid_z_in_column(5, 5, 3, &b, true), Some(3));
    // Air at (0, 0, 1) has a solid wall to its east.
    assert_ne!(compute_shadow_mask_for_air(0, 0, 1, &b), 0);
}

#[test]
fn topmost_cache_and_floor_geometry() {
    let mut list = Vec::new();
    for x in -9..=9 {
        for y in -9..=9 {
            list.push(((x, y, -1), BlockType::SolidStone));
        }
    }
    let b = blocks(&list);
    let chunk = IVec2::new(0, 0);
    let cache = build_topmost_cache(&vec![chunk], 0, 16, &b, false);
    assert_eq!(topmost_from_cache(0, 0, &cache), Some(-1));
    // The one-tile border around the chunk is cached too.
    assert_eq!(topmost_from_cache(-9, -9, &cache), Some(-1));
    assert_eq!(topmost_from_cache(50, 50, &cache), None);
    let floor = build_floor_geometry(chunk, -1, 16, &cache);
    assert_eq!(floor.len(), 256);
    assert!(floor.iter().all(|t| *t == Some(STONE_TILE_INDEX)));
    let above = build_floor_geometry(chunk, 0, 16, &cache);
    assert!(above.iter().all(|t| t.is_none()));
}

fn all_layers() -> TileLayerDebugState {
    TileLayerDebugState {
        show_floor: true,
        show_edge_shadow: true,
        show_ceiling_shadow: true,
        show_fog_shadow: true,
        show_depth_stack: false,
    }
}

#[test]
fn chunk_lifecycle_spawns_missing_layers_and_despawns_stale_ones() {
    let mut invalidation = TilemapInvalidation::default();
    let active: BTreeSet<(i32, i32)> = [(0, 0)].into_iter().collect();
    let stale = (7, 7, 0, layer_key(TileLayer::Floor));
    let existing: BTreeSet<(i32, i32, i32, u8)> = [(0, 0, 0, layer_key(TileLayer::Floor)), stale].into_iter().collect();
    let plan = manage_tilemap_chunk_lifecycle(16, &active, 0, ViewMode::Master, &all_layers(), &existing, &mut invalidation);
    // Master mode draws floor, edge shadow and ceiling shadow at the view level.
    let spawn: Vec<_> = plan.spawn.iter().copied().collect();
    assert_eq!(spawn, vec![(0, 0, 0, 1), (0, 0, 0, 2)]);
    assert_eq!(plan.despawn.iter().copied().collect::<Vec<_>>(), vec![stale]);
    assert_eq!(invalidation.dirty_entries(), &plan.spawn);

    let empty = manage_tilemap_chunk_lifecycle(0, &active, 0, ViewMode::Master, &all_layers(), &existing, &mut invalidation);
    assert!(empty.spawn.is_empty() && empty.despawn.is_empty());
}

#[test]
fn rebuild_selection_is_empty_when_nothing_is_pending() {
    let mut invalidation = TilemapInvalidation::default();
    let active: BTreeSet<(i32, i32)> = [(0, 0)].into_iter().collect();
    assert!(select_tiles_to_rebuild(&mut invalidation, &active, 16, 0, ViewMode::Entity, &all_layers()).is_empty());
    // A view invalidation with no camera window expands over the active columns.
    invalidation.invalidate_view();
    let chosen = select_tiles_to_rebuild(&mut invalidation, &active, 16, 0, ViewMode::Entity, &all_layers());
    assert!(!invalidation.view_invalidated());
    // Nothing is visible yet, so nothing is chosen, but the entries stay dirty.
    assert!(chosen.is_empty());
    assert_eq!(invalidation.dirty_entries().len(), 4);
    invalidation.clear();
    assert!(invalidation.is_empty());
}

#[test]
fn marks_are_recorded_and_removed() {
    let mut invalidation = TilemapInvalidation::default();
    invalidation.mark(IVec2::new(1, 2), 3, TileLayer::FogShadow);
    assert!(invalidation.dirty_entries().contains(&(1, 2, 3, 3)));
    invalidation.mark_all_layers_at(IVec2::new(0, 0), 0);
    assert_eq!(invalidation.dirty_entries().len(), 5);
    invalidation.remove(IVec2::new(1, 2), 3, TileLayer::FogShadow);
    assert_eq!(invalidation.dirty_entries().len(), 4);
    let mut out = BTreeSet::new();
    let viewport = RenderViewport { visible_chunks_xy: [(0, 0)].into_iter().collect(), visible_z_levels: vec![0], viewport_changed: false, newly_visible_chunks_xy: Default::default() };
    invalidation.drain_visible_into(&viewport, &mut out);
    assert_eq!(out.len(), 4);
}
