//! What the client tells the world runtime about its view: the voxel box
//! around the followed entity, the levels that matter and the layers to
//! build.

use vstd::prelude::*;
use vstd::std_specs::btree::group_btree_axioms;
use vstd::laws_cmp::group_laws_cmp;

use crate::client_world::RenderEntityData;
use crate::geometry::Vec3i;
use crate::invalidation::{TileLayerDebugState, ViewMode};
use crate::runtime_cache::{LayerMask, ViewportIntent};
use crate::streaming::ViewZLevel;
use crate::world_state::WorldSnapshot;

verus! {

broadcast use {group_btree_axioms, group_laws_cmp};

/// The layers the debug menu shows, as a runtime mask; fog only when
/// following an entity.
pub open spec fn layer_mask_spec(view_mode: ViewMode, s: TileLayerDebugState) -> u8 {
    ((if s.show_floor { 1int } else { 0 }) + (if s.show_edge_shadow { 2int } else { 0 }) + (if s.show_ceiling_shadow {
        4int
    } else {
        0
    }) + (if view_mode == ViewMode::Entity && s.show_fog_shadow { 8int } else { 0 })) as u8
}

pub fn build_layer_mask(view_mode: ViewMode, tile_layer_debug_state: &TileLayerDebugState) -> (r: LayerMask)
    ensures
        r.0 == layer_mask_spec(view_mode, *tile_layer_debug_state),
{
    let mut mask: u8 = 0;
    if tile_layer_debug_state.show_floor {
        mask = mask | 1;
        assert(0u8 | 1u8 == 1u8) by (bit_vector);
    }
    let ghost m1 = mask;
    if tile_layer_debug_state.show_edge_shadow {
        assert(m1 | 2u8 == m1 + 2) by (bit_vector)
            requires
                m1 < 2,
        ;
        mask = mask | 2;
    }
    let ghost m2 = mask;
    if tile_layer_debug_state.show_ceiling_shadow {
        assert(m2 | 4u8 == m2 + 4) by (bit_vector)
            requires
                m2 < 4,
        ;
        mask = mask | 4;
    }
    let ghost m3 = mask;
    if view_mode == ViewMode::Entity && tile_layer_debug_state.show_fog_shadow {
        assert(m3 | 8u8 == m3 + 8) by (bit_vector)
            requires
                m3 < 8,
        ;
        mask = mask | 8;
    }
    LayerMask(mask)
}

/// The world's height in voxels fits `i32`.
pub open spec fn world_z_span_fits(snapshot: WorldSnapshot) -> bool {
    snapshot.chunk_edge * snapshot.world_chunks.z <= i32::MAX
}

/// The lowest voxel level of the (centred) world.
pub open spec fn min_world_z_spec(snapshot: WorldSnapshot) -> int {
    -((snapshot.chunk_edge * snapshot.world_chunks.z) / 2)
}

pub fn min_world_z(snapshot: &WorldSnapshot) -> (r: i32)
    requires
        world_z_span_fits(*snapshot),
    ensures
        r == min_world_z_spec(*snapshot),
{
    let span = (snapshot.chunk_edge as u64 * snapshot.world_chunks.z as u64) as i32;
    -(span / 2)
}

/// The highest voxel level of the (centred) world.
pub fn max_world_z(snapshot: &WorldSnapshot) -> (r: i32)
    requires
        world_z_span_fits(*snapshot),
    ensures
        r == min_world_z_spec(*snapshot) + snapshot.chunk_edge * snapshot.world_chunks.z - 1,
{
    let span = (snapshot.chunk_edge as u64 * snapshot.world_chunks.z as u64) as i32;
    min_world_z(snapshot) + span - 1
}

/// The viewport for an entity at `center`: a square of `radius_tiles`
/// around it from the view level down five levels, the relevant levels
/// clipped to the world.
pub open spec fn viewport_intent_spec(
    center: Vec3i,
    radius_tiles: i32,
    view_z: i32,
    snapshot: WorldSnapshot,
    view_mode: ViewMode,
    layers: TileLayerDebugState,
) -> ViewportIntent {
    let zmin = min_world_z_spec(snapshot);
    let zmax = zmin + snapshot.chunk_edge * snapshot.world_chunks.z - 1;
    ViewportIntent {
        camera_center: center,
        desired_bounds_min: Vec3i {
            x: (center.x - radius_tiles) as i32,
            y: (center.y - radius_tiles) as i32,
            z: (view_z - 5) as i32,
        },
        desired_bounds_max: Vec3i {
            x: (center.x + radius_tiles) as i32,
            y: (center.y + radius_tiles) as i32,
            z: view_z,
        },
        relevant_z_min: (if view_z - 5 >= zmin { view_z - 5 } else { zmin }) as i32,
        relevant_z_max: (if view_z <= zmax { view_z as int } else { zmax }) as i32,
        active_layers: LayerMask(layer_mask_spec(view_mode, layers)),
        view_mode,
    }
}

/// The box arithmetic stays in `i32`.
pub open spec fn viewport_arith_fits(center: Vec3i, radius_tiles: i32, view_z: i32) -> bool {
    &&& i32::MIN <= center.x - radius_tiles <= i32::MAX
    &&& i32::MIN <= center.x + radius_tiles <= i32::MAX
    &&& i32::MIN <= center.y - radius_tiles <= i32::MAX
    &&& i32::MIN <= center.y + radius_tiles <= i32::MAX
    &&& view_z - 5 >= i32::MIN
}

/// The viewport of the followed entity, `None` when there is none or it is
/// not among the entities.
pub fn build_viewport_intent(
    primary_entity_id: Option<u64>,
    snapshot: &WorldSnapshot,
    view_mode: ViewMode,
    view_z: ViewZLevel,
    entity_data: &RenderEntityData,
    tile_layer_debug_state: &TileLayerDebugState,
    radius_tiles: i32,
) -> (r: Option<ViewportIntent>)
    requires
        world_z_span_fits(*snapshot),
        forall|id: u64|
            primary_entity_id == Some(id) && #[trigger] entity_data.entities@.contains_key(id) ==> viewport_arith_fits(
                entity_data.entities@[id].position,
                radius_tiles,
                view_z.current,
            ),
    ensures
        r == match primary_entity_id {
            Some(id) => if entity_data.entities@.contains_key(id) {
                Some(
                    viewport_intent_spec(
                        entity_data.entities@[id].position,
                        radius_tiles,
                        view_z.current,
                        *snapshot,
                        view_mode,
                        *tile_layer_debug_state,
                    ),
                )
            } else {
                None
            },
            None => None,
        },
{
    let id = match primary_entity_id {
        Some(id) => id,
        None => {
            return None;
        },
    };
    let entity = match entity_data.entities.get(&id) {
        Some(e) => e,
        None => {
            return None;
        },
    };
    let center = entity.position;
    let low = view_z.current - 5;
    let world_lo = min_world_z(snapshot);
    let world_hi = max_world_z(snapshot);
    Some(
        ViewportIntent {
            camera_center: center,
            desired_bounds_min: Vec3i { x: center.x - radius_tiles, y: center.y - radius_tiles, z: low },
            desired_bounds_max: Vec3i {
                x: center.x + radius_tiles,
                y: center.y + radius_tiles,
                z: view_z.current,
            },
            relevant_z_min: if low >= world_lo { low } else { world_lo },
            relevant_z_max: if view_z.current <= world_hi { view_z.current } else { world_hi },
            active_layers: build_layer_mask(view_mode, tile_layer_debug_state),
            view_mode,
        },
    )
}

} // verus!
