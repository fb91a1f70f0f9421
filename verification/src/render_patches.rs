//! Drawing the tile layers the world runtime sends: which chunk layers the
//! camera needs, how a received layer becomes tiles, and what the renderer
//! spawns, updates and removes each frame.

use std::collections::BTreeSet;
use vstd::prelude::*;
use vstd::std_specs::btree::group_btree_axioms;
use vstd::laws_cmp::group_laws_cmp;

use crate::coords::{DepthTint, get_depth_tint_tile_color, tile_tint_spec};
use crate::invalidation::{TileLayer, TileLayerDebugState};
use crate::runtime_cache::{
    ChunkKey, ChunkLayerCacheEntry, ChunkLayerCacheMap, ChunkLayerKey, LayerId, RuntimeViewportIntentState, ViewportIntent,
    layer_id_code, layer_id_key,
};
use crate::tilemap::{rendered_levels_spec, rendered_z_levels};

verus! {

broadcast use {
    group_btree_axioms,
    group_laws_cmp,
    crate::ordered::lemma_member_of_quad_listing,
    crate::ordered::lemma_increasing_quads_distinct,
};

/// Whether the runtime's layers are drawn in place of the client's own.
#[derive(Debug, Clone, Copy, PartialEq, Eq, Structural)]
pub struct CutoverFlag {
    pub enabled: bool,
}

impl Default for CutoverFlag {
    fn default() -> (r: CutoverFlag)
        ensures
            !r.enabled,
    {
        CutoverFlag { enabled: false }
    }
}

/// F9 switches between the runtime's layers and the client's own.
pub fn toggle_runtime_cutover(f9_pressed: bool, flag: &mut CutoverFlag)
    ensures
        final(flag).enabled == (old(flag).enabled != f9_pressed),
{
    if f9_pressed {
        flag.enabled = !flag.enabled;
    }
}

pub fn runtime_cutover_disabled(flag: &CutoverFlag) -> (r: bool)
    ensures
        r == !flag.enabled,
{
    !flag.enabled
}

/// The runtime layers the debug menu shows, in layer order.
pub open spec fn active_layers_spec(s: TileLayerDebugState) -> Seq<LayerId> {
    let a = if s.show_floor { seq![LayerId::Floor] } else { Seq::empty() };
    let b = if s.show_edge_shadow { a.push(LayerId::EdgeShadow) } else { a };
    let c = if s.show_ceiling_shadow { b.push(LayerId::CeilingShadow) } else { b };
    if s.show_fog_shadow { c.push(LayerId::Fog) } else { c }
}

pub fn active_layers(tile_layer_debug_state: &TileLayerDebugState) -> (r: Vec<LayerId>)
    ensures
        r@ == active_layers_spec(*tile_layer_debug_state),
{
    let mut layers: Vec<LayerId> = Vec::new();
    if tile_layer_debug_state.show_floor {
        layers.push(LayerId::Floor);
    }
    if tile_layer_debug_state.show_edge_shadow {
        layers.push(LayerId::EdgeShadow);
    }
    if tile_layer_debug_state.show_ceiling_shadow {
        layers.push(LayerId::CeilingShadow);
    }
    if tile_layer_debug_state.show_fog_shadow {
        layers.push(LayerId::Fog);
    }
    proof {
        assert(layers@ =~= active_layers_spec(*tile_layer_debug_state));
    }
    layers
}

pub open spec fn runtime_to_layer_spec(layer: LayerId) -> TileLayer {
    match layer {
        LayerId::Floor => TileLayer::Floor,
        LayerId::EdgeShadow => TileLayer::EdgeShadow,
        LayerId::CeilingShadow => TileLayer::CeilingShadow,
        LayerId::Fog => TileLayer::FogShadow,
    }
}

pub fn runtime_to_layer(layer: LayerId) -> (r: TileLayer)
    ensures
        r == runtime_to_layer_spec(layer),
{
    match layer {
        LayerId::Floor => TileLayer::Floor,
        LayerId::EdgeShadow => TileLayer::EdgeShadow,
        LayerId::CeilingShadow => TileLayer::CeilingShadow,
        LayerId::Fog => TileLayer::FogShadow,
    }
}

pub fn layer_to_runtime(layer: TileLayer) -> (r: LayerId)
    ensures
        runtime_to_layer_spec(r) == layer,
{
    match layer {
        TileLayer::Floor => LayerId::Floor,
        TileLayer::EdgeShadow => LayerId::EdgeShadow,
        TileLayer::CeilingShadow => LayerId::CeilingShadow,
        TileLayer::FogShadow => LayerId::Fog,
    }
}

/// The runtime layer stored under an order key.
pub open spec fn layer_of_code(code: u8) -> LayerId {
    if code == 0 {
        LayerId::Floor
    } else if code == 1 {
        LayerId::EdgeShadow
    } else if code == 2 {
        LayerId::CeilingShadow
    } else {
        LayerId::Fog
    }
}

fn layer_of_key(code: u8) -> (r: LayerId)
    ensures
        r == layer_of_code(code),
{
    if code == 0 {
        LayerId::Floor
    } else if code == 1 {
        LayerId::EdgeShadow
    } else if code == 2 {
        LayerId::CeilingShadow
    } else {
        LayerId::Fog
    }
}

/// How a tile of a runtime layer is coloured.
#[derive(Debug, Clone, Copy, PartialEq, Eq, Structural)]
pub enum PatchTint {
    /// The tileset's own colours.
    Plain,
    /// Shaded by its depth below the view level.
    Depth(DepthTint),
    /// The translucent yellow of remembered, unseen ground.
    RememberedFog,
}

/// One tile of a runtime layer.
#[derive(Debug, Clone, Copy, PartialEq, Eq, Structural)]
pub struct PatchTile {
    pub tileset_index: u16,
    pub tint: PatchTint,
}

/// A tile index as drawn: floors shaded by depth when the depth stack is
/// on, fog in its remembered colour, everything else plain.
pub open spec fn patch_tile_spec(index: Option<u16>, layer: TileLayer, z_offset: i32, depth_stack: bool) -> Option<
    PatchTile,
> {
    match index {
        None => None,
        Some(i) => Some(
            PatchTile {
                tileset_index: i,
                tint: if layer == TileLayer::Floor && depth_stack {
                    PatchTint::Depth(tile_tint_spec(z_offset))
                } else if layer == TileLayer::FogShadow {
                    PatchTint::RememberedFog
                } else {
                    PatchTint::Plain
                },
            },
        ),
    }
}

/// Depth shading of a runtime floor tile `z_offset` levels from the view.
pub fn depth_tint_color(z_offset: i32) -> (r: DepthTint)
    ensures
        r == tile_tint_spec(z_offset),
{
    get_depth_tint_tile_color(z_offset)
}

pub fn tile_indices_to_tile_data(tile_indices: Vec<Option<u16>>, layer: TileLayer, z_offset: i32, depth_stack: bool) -> (r:
    Vec<Option<PatchTile>>)
    ensures
        r@.len() == tile_indices@.len(),
        forall|i: int|
            0 <= i < r@.len() ==> #[trigger] r@[i] == patch_tile_spec(tile_indices@[i], layer, z_offset, depth_stack),
{
    let tint = if layer == TileLayer::Floor && depth_stack {
        PatchTint::Depth(depth_tint_color(z_offset))
    } else if layer == TileLayer::FogShadow {
        PatchTint::RememberedFog
    } else {
        PatchTint::Plain
    };
    let mut tiles: Vec<Option<PatchTile>> = Vec::new();
    let n = tile_indices.len();
    let mut i: usize = 0;
    while i < n
        invariant
            n == tile_indices@.len(),
            i <= n,
            tiles@.len() == i,
            tint == (if layer == TileLayer::Floor && depth_stack {
                PatchTint::Depth(tile_tint_spec(z_offset))
            } else if layer == TileLayer::FogShadow {
                PatchTint::RememberedFog
            } else {
                PatchTint::Plain
            }),
            forall|t: int|
                0 <= t < i ==> #[trigger] tiles@[t] == patch_tile_spec(tile_indices@[t], layer, z_offset, depth_stack),
        decreases n - i,
    {
        let tile = match tile_indices[i] {
            Some(index) => Some(PatchTile { tileset_index: index, tint }),
            None => None,
        };
        tiles.push(tile);
        i = i + 1;
    }
    tiles
}

/// The chunk columns a viewport's voxel box covers (chunks are centred:
/// chunk `c` starts at voxel `c * edge - edge / 2`).
pub open spec fn key_window(viewport: ViewportIntent, chunk_edge: u32) -> (int, int, int, int) {
    let edge: int = if chunk_edge >= 1 { chunk_edge as int } else { 1 };
    let half = edge / 2;
    (
        (viewport.desired_bounds_min.x + half) / edge,
        (viewport.desired_bounds_max.x + half) / edge,
        (viewport.desired_bounds_min.y + half) / edge,
        (viewport.desired_bounds_max.y + half) / edge,
    )
}

/// Whether a layer (by order key) is wanted at `world_z`: among `layers`,
/// and a ceiling shadow only at the viewport's own level.
pub open spec fn layer_wanted(layers: Seq<LayerId>, center_z: i32, world_z: i32, code: u8) -> bool {
    exists|j: int|
        0 <= j < layers.len() && layer_id_code(#[trigger] layers[j]) == code && !(layers[j] == LayerId::CeilingShadow
            && world_z != center_z)
}

/// The chunk layers the camera needs: every wanted layer of every covered
/// chunk at every drawn level.
pub open spec fn active_key_spec(
    viewport: ViewportIntent,
    chunk_edge: u32,
    levels: Seq<i32>,
    layers: Seq<LayerId>,
    k: (i32, i32, i32, u8),
) -> bool {
    let w = key_window(viewport, chunk_edge);
    &&& levels.contains(k.2)
    &&& w.0 <= k.0 <= w.1
    &&& w.2 <= k.1 <= w.3
    &&& layer_wanted(layers, viewport.camera_center.z, k.2, k.3)
}

/// The viewport's box, shifted by half a chunk, stays in `i32`.
pub open spec fn viewport_fits(viewport: ViewportIntent, chunk_edge: u32) -> bool {
    let edge: int = if chunk_edge >= 1 { chunk_edge as int } else { 1 };
    let half = edge / 2;
    &&& chunk_edge <= i32::MAX
    &&& viewport.desired_bounds_min.x + half <= i32::MAX
    &&& viewport.desired_bounds_max.x + half <= i32::MAX
    &&& viewport.desired_bounds_min.y + half <= i32::MAX
    &&& viewport.desired_bounds_max.y + half <= i32::MAX
}

fn floor_div_i32(a: i32, e: i32) -> (r: i32)
    requires
        e > 0,
    ensures
        r == a as int / e as int,
{
    let q = crate::invalidation::floor_div(a as i64, e as i64);
    proof {
        let ai = a as int;
        let ei = e as int;
        vstd::arithmetic::div_mod::lemma_div_is_ordered(ai, i32::MAX as int, ei);
        vstd::arithmetic::div_mod::lemma_div_is_ordered(i32::MIN as int, ai, ei);
        assert(i32::MAX as int / ei <= i32::MAX) by (nonlinear_arith)
            requires
                ei >= 1,
        ;
        assert(i32::MIN as int / ei >= i32::MIN) by (nonlinear_arith)
            requires
                ei >= 1,
        ;
    }
    q as i32
}

/// Add the wanted layers of chunk `(x, y)` at `z`.
fn insert_wanted_layers(
    keys: &mut BTreeSet<(i32, i32, i32, u8)>,
    x: i32,
    y: i32,
    z: i32,
    center_z: i32,
    layers: &Vec<LayerId>,
)
    ensures
        forall|k: (i32, i32, i32, u8)| #[trigger]
            final(keys)@.contains(k) <==> old(keys)@.contains(k) || (k.0 == x && k.1 == y && k.2 == z
                && layer_wanted(layers@, center_z, z, k.3)),
{
    let n = layers.len();
    let mut j: usize = 0;
    while j < n
        invariant
            n == layers@.len(),
            j <= n,
            forall|k: (i32, i32, i32, u8)| #[trigger]
                keys@.contains(k) <==> old(keys)@.contains(k) || (k.0 == x && k.1 == y && k.2 == z && exists|t: int|
                    0 <= t < j && layer_id_code(#[trigger] layers@[t]) == k.3 && !(layers@[t] == LayerId::CeilingShadow
                        && z != center_z)),
        decreases n - j,
    {
        let layer = layers[j];
        let skip = match layer {
            LayerId::CeilingShadow => z != center_z,
            _ => false,
        };
        if !skip {
            keys.insert((x, y, z, layer_id_key(layer)));
        }
        proof {
            assert forall|k: (i32, i32, i32, u8)| #[trigger] keys@.contains(k) <==> old(keys)@.contains(k) || (k.0 == x
                && k.1 == y && k.2 == z && exists|t: int|
                0 <= t < j + 1 && layer_id_code(#[trigger] layers@[t]) == k.3 && !(layers@[t]
                    == LayerId::CeilingShadow && z != center_z)) by {
                if k.0 == x && k.1 == y && k.2 == z && layer_id_code(layers@[j as int]) == k.3 && !skip {
                    assert(keys@.contains(k));
                }
            }
        }
        j = j + 1;
    }
}

/// The chunk layers the camera needs, as cache keys.
pub fn active_runtime_keys(
    viewport: &ViewportIntent,
    chunk_edge: u32,
    rendered_z_levels: &Vec<i32>,
    active_layers: &Vec<LayerId>,
) -> (r: BTreeSet<(i32, i32, i32, u8)>)
    requires
        viewport_fits(*viewport, chunk_edge),
    ensures
        forall|k: (i32, i32, i32, u8)| #[trigger]
            r@.contains(k) <==> active_key_spec(*viewport, chunk_edge, rendered_z_levels@, active_layers@, k),
{
    let edge: i32 = if chunk_edge >= 1 { chunk_edge as i32 } else { 1 };
    let half = edge / 2;
    let min_x = floor_div_i32(viewport.desired_bounds_min.x + half, edge);
    let max_x = floor_div_i32(viewport.desired_bounds_max.x + half, edge);
    let min_y = floor_div_i32(viewport.desired_bounds_min.y + half, edge);
    let max_y = floor_div_i32(viewport.desired_bounds_max.y + half, edge);
    let center_z = viewport.camera_center.z;
    let ghost w = key_window(*viewport, chunk_edge);
    let ghost levels = rendered_z_levels@;
    let ghost layers = active_layers@;
    let mut keys: BTreeSet<(i32, i32, i32, u8)> = BTreeSet::new();
    let nz = rendered_z_levels.len();
    let mut iz: usize = 0;
    while iz < nz
        invariant
            nz == levels.len(),
            levels == rendered_z_levels@,
            layers == active_layers@,
            w == key_window(*viewport, chunk_edge),
            min_x == w.0 && max_x == w.1 && min_y == w.2 && max_y == w.3,
            center_z == viewport.camera_center.z,
            iz <= nz,
            forall|k: (i32, i32, i32, u8)| #[trigger]
                keys@.contains(k) <==> (exists|t: int| 0 <= t < iz && levels[t] == k.2) && w.0 <= k.0 <= w.1 && w.2
                    <= k.1 <= w.3 && layer_wanted(layers, center_z, k.2, k.3),
        decreases nz - iz,
    {
        let z = rendered_z_levels[iz];
        let ghost keys0 = keys@;
        let mut x: i64 = min_x as i64;
        while x <= max_x as i64
            invariant
                min_x <= x,
                x <= max_x as int + 1 || x == min_x,
                min_x == w.0 && max_x == w.1 && min_y == w.2 && max_y == w.3,
                layers == active_layers@,
                forall|k: (i32, i32, i32, u8)| #[trigger]
                    keys@.contains(k) <==> keys0.contains(k) || (k.2 == z && w.0 <= k.0 < x && w.2 <= k.1 <= w.3
                        && layer_wanted(layers, center_z, k.2, k.3)),
            decreases max_x as int + 1 - x,
        {
            let ghost keys1 = keys@;
            let mut y: i64 = min_y as i64;
            while y <= max_y as i64
                invariant
                    min_y <= y,
                    y <= max_y as int + 1 || y == min_y,
                    min_x <= x <= max_x,
                    min_x == w.0 && max_x == w.1 && min_y == w.2 && max_y == w.3,
                    layers == active_layers@,
                    forall|k: (i32, i32, i32, u8)| #[trigger]
                        keys@.contains(k) <==> keys1.contains(k) || (k.2 == z && k.0 == x && w.2 <= k.1 < y
                            && layer_wanted(layers, center_z, k.2, k.3)),
                decreases max_y as int + 1 - y,
            {
                insert_wanted_layers(&mut keys, x as i32, y as i32, z, center_z, active_layers);
                y = y + 1;
            }
            x = x + 1;
        }
        proof {
            assert forall|k: (i32, i32, i32, u8)| #[trigger] keys@.contains(k) <==> (exists|t: int|
                0 <= t < iz + 1 && levels[t] == k.2) && w.0 <= k.0 <= w.1 && w.2 <= k.1 <= w.3 && layer_wanted(
                layers,
                center_z,
                k.2,
                k.3,
            ) by {
                if k.2 == z && w.0 <= k.0 <= w.1 && w.2 <= k.1 <= w.3 && layer_wanted(layers, center_z, k.2, k.3) {
                    assert(levels[iz as int] == k.2);
                }
            }
        }
        iz = iz + 1;
    }
    proof {
        assert forall|k: (i32, i32, i32, u8)| #[trigger] keys@.contains(k) <==> active_key_spec(
            *viewport,
            chunk_edge,
            levels,
            layers,
            k,
        ) by {
            if levels.contains(k.2) {
                let t = choose|t: int| 0 <= t < levels.len() && levels[t] == k.2;
            }
        }
    }
    keys
}


#[verifier::external_type_specification]
#[verifier::external_body]
pub struct ExBincodeDecodeError(bincode::error::DecodeError);

/// The tile indices bincode reads from a runtime payload, `None` when the
/// bytes are not a valid encoding.
pub uninterp spec fn bincode_tile_indices(payload: Seq<u8>) -> Option<Seq<Option<u16>>>;

/// Calls `bincode::serde::decode_from_slice` with `bincode::config::standard()`
/// to read a `Vec<Option<u16>>`, dropping the count of bytes read. Claimed:
/// success and the list read depend on the bytes alone (`bincode_tile_indices`);
/// which bytes are valid, and what they decode to, is bincode's format and is
/// left unsaid.
#[verifier::external_body]
fn decode_tile_indices(payload: &[u8]) -> (r: Result<Vec<Option<u16>>, bincode::error::DecodeError>)
    ensures
        match r {
            Ok(v) => bincode_tile_indices(payload@) == Some(v@),
            Err(_) => bincode_tile_indices(payload@) is None,
        },
{
    match bincode::serde::decode_from_slice::<Vec<Option<u16>>, _>(payload, bincode::config::standard()) {
        Ok((tiles, _)) => Ok(tiles),
        Err(err) => Err(err),
    }
}

/// The chunk layer a cache key stands for.
pub open spec fn key_of_code(k: (i32, i32, i32, u8)) -> ChunkLayerKey {
    ChunkLayerKey { chunk: ChunkKey { x: k.0, y: k.1, z: k.2 }, layer: layer_of_code(k.3) }
}

fn key_from_code(k: (i32, i32, i32, u8)) -> (r: ChunkLayerKey)
    ensures
        r == key_of_code(k),
{
    ChunkLayerKey { chunk: ChunkKey { x: k.0, y: k.1, z: k.2 }, layer: layer_of_key(k.3) }
}

/// New tiles for one runtime chunk layer.
#[derive(Debug, Clone)]
pub struct RuntimeChunkUpdate {
    pub key: ChunkLayerKey,
    pub layer: TileLayer,
    pub tiles: Vec<Option<PatchTile>>,
}

/// What the renderer does this frame: remove the runtime chunk layers that
/// left the view, redraw the updated ones, and show them or not.
#[derive(Debug, Clone)]
pub struct RuntimePatchPlan {
    pub despawn: Vec<ChunkLayerKey>,
    pub updates: Vec<RuntimeChunkUpdate>,
    pub visible: bool,
}

/// Whether the camera needs chunk layer `k`.
pub open spec fn needed_key(
    viewport: ViewportIntent,
    view_z: i32,
    layers: TileLayerDebugState,
    chunk_edge: u32,
    k: (i32, i32, i32, u8),
) -> bool {
    active_key_spec(
        viewport,
        chunk_edge,
        rendered_levels_spec(view_z, layers.show_depth_stack),
        active_layers_spec(layers),
        k,
    )
}

/// Whether a cached layer is redrawn: it is needed, and it changed or the
/// renderer was just switched.
pub open spec fn patch_due(needed: bool, e: ChunkLayerCacheEntry, cutover_changed: bool) -> bool {
    needed && (e.dirty || cutover_changed)
}

/// A redrawn entry: no longer dirty, and materialized when its payload decoded.
pub open spec fn patched_entry(e: ChunkLayerCacheEntry) -> ChunkLayerCacheEntry {
    match bincode_tile_indices(e.payload@) {
        Some(_) => ChunkLayerCacheEntry { materialized: true, dirty: false, ..e },
        None => ChunkLayerCacheEntry { dirty: false, ..e },
    }
}

/// `u` redraws layer `k` from the tiles of entry `e`.
pub open spec fn update_for(u: RuntimeChunkUpdate, k: (i32, i32, i32, u8), e: ChunkLayerCacheEntry, view_z: i32, depth_stack: bool) -> bool {
    let layer = runtime_to_layer_spec(layer_of_code(k.3));
    let t = bincode_tile_indices(e.payload@).unwrap();
    &&& u.key == key_of_code(k)
    &&& u.layer == layer
    &&& u.tiles@.len() == t.len()
    &&& forall|i: int|
        0 <= i < t.len() ==> #[trigger] u.tiles@[i] == patch_tile_spec(t[i], layer, (k.2 - view_z) as i32, depth_stack)
}

proof fn lemma_rendered_level_range(view_z: i32, depth_stack: bool, z: i32)
    requires
        view_z - 5 >= i32::MIN,
        rendered_levels_spec(view_z, depth_stack).contains(z),
    ensures
        view_z - 5 <= z <= view_z,
{
    let s = rendered_levels_spec(view_z, depth_stack);
    let t = choose|t: int| 0 <= t < s.len() && s[t] == z;
}

/// Decide this frame's work on the runtime's chunk layers: without a
/// viewport, nothing. Otherwise the rendered layers the camera no longer
/// needs are removed, and every needed cached layer that changed (all of
/// them right after a switch) is decoded and redrawn; a layer that does not
/// decode is left undrawn and not retried until it changes.
pub fn apply_runtime_chunk_patches(
    cutover: &CutoverFlag,
    cutover_changed: bool,
    viewport_state: &RuntimeViewportIntentState,
    view_z: i32,
    tile_layer_debug_state: &TileLayerDebugState,
    chunk_edge: u32,
    rendered: &BTreeSet<(i32, i32, i32, u8)>,
    chunk_layer_cache: &mut ChunkLayerCacheMap,
) -> (r: Option<RuntimePatchPlan>)
    requires
        viewport_state.current is Some ==> viewport_fits(viewport_state.current.unwrap(), chunk_edge),
        view_z - 5 >= i32::MIN,
    ensures
        r is None <==> viewport_state.current is None,
        r is None ==> final(chunk_layer_cache).entries@ == old(chunk_layer_cache).entries@,
        r matches Some(plan) ==> {
            let vp = viewport_state.current.unwrap();
            let layers = *tile_layer_debug_state;
            let old_entries = old(chunk_layer_cache).entries@;
            let new_entries = final(chunk_layer_cache).entries@;
            &&& plan.visible == cutover.enabled
            &&& new_entries.dom() == old_entries.dom()
            &&& forall|k: (i32, i32, i32, u8)| #[trigger]
                new_entries.contains_key(k) ==> new_entries[k] == if patch_due(
                    needed_key(vp, view_z, layers, chunk_edge, k),
                    old_entries[k],
                    cutover_changed,
                ) {
                    patched_entry(old_entries[k])
                } else {
                    old_entries[k]
                }
            &&& exists|ds: Seq<(i32, i32, i32, u8)>| #[trigger] ds.no_duplicates() && ds.to_set() == rendered@.filter(
                |k: (i32, i32, i32, u8)| !needed_key(vp, view_z, layers, chunk_edge, k),
            ) && plan.despawn@ == ds.map_values(|k: (i32, i32, i32, u8)| key_of_code(k))
            &&& exists|ks: Seq<(i32, i32, i32, u8)>| #[trigger] ks.no_duplicates() && ks.to_set() == old_entries.dom().filter(
                |k: (i32, i32, i32, u8)|
                    patch_due(needed_key(vp, view_z, layers, chunk_edge, k), old_entries[k], cutover_changed)
                        && bincode_tile_indices(old_entries[k].payload@) is Some,
            ) && plan.updates@.len() == ks.len() && forall|i: int|
                0 <= i < ks.len() ==> update_for(
                    #[trigger] plan.updates@[i],
                    ks[i],
                    old_entries[ks[i]],
                    view_z,
                    layers.show_depth_stack,
                )
        },
{
    let viewport = match viewport_state.current {
        Some(v) => v,
        None => {
            return None;
        },
    };
    let ghost layers_state = *tile_layer_debug_state;
    let edge = if chunk_edge >= 1 { chunk_edge } else { 1 };
    let levels = rendered_z_levels(view_z, tile_layer_debug_state.show_depth_stack);
    let layers = active_layers(tile_layer_debug_state);
    let active = active_runtime_keys(&viewport, edge, &levels, &layers);
    proof {
        assert forall|k: (i32, i32, i32, u8)| #[trigger] active@.contains(k) <==> needed_key(
            viewport,
            view_z,
            layers_state,
            chunk_edge,
            k,
        ) by {
            assert(key_window(viewport, edge) == key_window(viewport, chunk_edge));
        }
    }

    let mut despawn: Vec<ChunkLayerKey> = Vec::new();
    let ghost mut ds: Seq<(i32, i32, i32, u8)> = Seq::empty();
    let ghost mut done: Set<(i32, i32, i32, u8)> = Set::empty();
    for k in it: rendered.iter()
        invariant
            forall|q: (i32, i32, i32, u8)| #[trigger] active@.contains(q) <==> needed_key(viewport, view_z, layers_state, chunk_edge, q),
            forall|i: int| 0 <= i < it.seq().len() ==> rendered@.contains(*#[trigger] it.seq()[i]),
            forall|q: (i32, i32, i32, u8)| #[trigger] done.contains(q) ==> rendered@.contains(q),
            forall|q: (i32, i32, i32, u8)| #[trigger]
                rendered@.contains(q) ==> done.contains(q) || exists|i: int|
                    it.index() <= i < it.seq().len() && *it.seq()[i] == q,
            forall|i: int| it.index() <= i < it.seq().len() ==> !done.contains(*#[trigger] it.seq()[i]),
            forall|i: int, j: int| 0 <= i < j < it.seq().len() ==> *it.seq()[i] != *it.seq()[j],
            ds.no_duplicates(),
            forall|q: (i32, i32, i32, u8)| ds.contains(q) <==> done.contains(q) && !needed_key(viewport, view_z, layers_state, chunk_edge, q),
            despawn@ == ds.map_values(|q: (i32, i32, i32, u8)| key_of_code(q)),
    {
        let ghost n = it.index();
        let key = *k;
        let ghost prev = ds;
        let is_active = active.contains(&key);
        if !is_active {
            despawn.push(key_from_code(key));
            proof {
                ds = ds.push(key);
                assert(despawn@ =~= ds.map_values(|q: (i32, i32, i32, u8)| key_of_code(q)));
                assert(!prev.contains(key));
                assert forall|a: int, b: int| 0 <= a < b < ds.len() implies ds[a] != ds[b] by {
                    if b == prev.len() {
                        assert(prev.contains(prev[a]));
                    }
                }
            }
        }
        proof {
            let done0 = done;
            done = done.insert(key);
            assert forall|q: (i32, i32, i32, u8)| ds.contains(q) <==> done.contains(q) && !needed_key(viewport, view_z, layers_state, chunk_edge, q) by {
                if q == key {
                    if !needed_key(viewport, view_z, layers_state, chunk_edge, q) {
                        assert(ds[prev.len() as int] == key);
                    } else {
                        assert(!prev.contains(key));
                        assert(ds == prev);
                    }
                } else {
                    if ds.contains(q) {
                        let j = choose|j: int| 0 <= j < ds.len() && ds[j] == q;
                        assert(prev.contains(q) || j == prev.len());
                        if j < prev.len() {
                            assert(prev[j] == q);
                        }
                    }
                    if done0.contains(q) && !needed_key(viewport, view_z, layers_state, chunk_edge, q) {
                        assert(prev.contains(q));
                        let j = choose|j: int| 0 <= j < prev.len() && prev[j] == q;
                        assert(ds[j] == q);
                    }
                }
            }
            assert forall|q: (i32, i32, i32, u8)| #[trigger] rendered@.contains(q) implies done.contains(q) || exists|i: int|
                n + 1 <= i < it.seq().len() && *it.seq()[i] == q by {
                if !done.contains(q) {
                    let i = choose|i: int| n <= i < it.seq().len() && *it.seq()[i] == q;
                    assert(i != n);
                }
            }
            assert forall|i: int| n + 1 <= i < it.seq().len() implies !done.contains(*#[trigger] it.seq()[i]) by {
                assert(*it.seq()[i] != *it.seq()[n]);
            }
        }
    }
    proof {
        assert(done =~= rendered@);
        assert(ds.to_set() =~= rendered@.filter(|q: (i32, i32, i32, u8)| !needed_key(viewport, view_z, layers_state, chunk_edge, q)));
    }

    let ghost m0 = chunk_layer_cache.entries@;
    let mut keys: Vec<(i32, i32, i32, u8)> = Vec::new();
    for k in it: chunk_layer_cache.entries.keys()
        invariant
            chunk_layer_cache.entries@ == m0,
            keys@.len() == it.index(),
            forall|i: int| 0 <= i < it.index() ==> keys@[i] == *it.seq()[i],
            forall|i: int| 0 <= i < it.seq().len() ==> m0.dom().contains(*#[trigger] it.seq()[i]),
            forall|q: (i32, i32, i32, u8)| #[trigger]
                m0.dom().contains(q) ==> exists|i: int| 0 <= i < it.seq().len() && *it.seq()[i] == q,
            forall|i: int, j: int| 0 <= i < j < it.seq().len() ==> *it.seq()[i] != *it.seq()[j],
    {
        keys.push(*k);
    }
    let depth_stack = tile_layer_debug_state.show_depth_stack;
    let mut updates: Vec<RuntimeChunkUpdate> = Vec::new();
    let ghost mut ks: Seq<(i32, i32, i32, u8)> = Seq::empty();
    let n = keys.len();
    let mut i: usize = 0;
    while i < n
        invariant
            n == keys@.len(),
            i <= n,
            depth_stack == layers_state.show_depth_stack,
            view_z - 5 >= i32::MIN,
            forall|q: (i32, i32, i32, u8)| #[trigger] active@.contains(q) <==> needed_key(viewport, view_z, layers_state, chunk_edge, q),
            forall|q: (i32, i32, i32, u8)| #[trigger] needed_key(viewport, view_z, layers_state, chunk_edge, q) ==> rendered_levels_spec(view_z, depth_stack).contains(q.2),
            chunk_layer_cache.entries@.dom() == m0.dom(),
            forall|q: (i32, i32, i32, u8)| #[trigger] m0.dom().contains(q) ==> exists|t: int| 0 <= t < n && keys@[t] == q,
            forall|t: int| 0 <= t < n ==> m0.dom().contains(#[trigger] keys@[t]),
            forall|s: int, t: int| 0 <= s < t < n ==> keys@[s] != keys@[t],
            forall|t: int|
                0 <= t < i ==> chunk_layer_cache.entries@[#[trigger] keys@[t]] == if patch_due(needed_key(viewport, view_z, layers_state, chunk_edge, keys@[t]), m0[keys@[t]], cutover_changed) {
                    patched_entry(m0[keys@[t]])
                } else {
                    m0[keys@[t]]
                },
            forall|t: int| i <= t < n ==> chunk_layer_cache.entries@[#[trigger] keys@[t]] == m0[keys@[t]],
            ks.no_duplicates(),
            forall|q: (i32, i32, i32, u8)|
                ks.contains(q) <==> (exists|t: int| 0 <= t < i && keys@[t] == q) && patch_due(needed_key(viewport, view_z, layers_state, chunk_edge, q), m0[q], cutover_changed) && bincode_tile_indices(
                    m0[q].payload@,
                ) is Some,
            updates@.len() == ks.len(),
            forall|j: int| 0 <= j < ks.len() ==> update_for(#[trigger] updates@[j], ks[j], m0[ks[j]], view_z, depth_stack),
        decreases n - i,
    {
        let key = keys[i];
        let ghost prev = ks;
        let ghost e0 = m0[key];
        let ghost m_before = chunk_layer_cache.entries@;
        let mut pushed = false;
        proof {
            assert(chunk_layer_cache.entries@[keys@[i as int]] == m0[keys@[i as int]]);
            assert(m0.dom().contains(keys@[i as int]));
        }
        let is_active = active.contains(&key);
        proof {
            assert(is_active == needed_key(viewport, view_z, layers_state, chunk_edge, key));
        }
        if is_active {
            match chunk_layer_cache.entries.remove(&key) {
                Some(mut entry) => {
                    proof {
                        assert(entry == e0);
                    }
                    if entry.dirty || cutover_changed {
                        match decode_tile_indices(entry.payload.as_slice()) {
                            Ok(indices) => {
                                let layer = runtime_to_layer(layer_of_key(key.3));
                                proof {
                                    lemma_rendered_level_range(view_z, depth_stack, key.2);
                                }
                                let tiles = tile_indices_to_tile_data(indices, layer, key.2 - view_z, depth_stack);
                                updates.push(RuntimeChunkUpdate { key: key_from_code(key), layer, tiles });
                                pushed = true;
                                proof {
                                    ks = ks.push(key);
                                    assert(!prev.contains(key)) by {
                                        if prev.contains(key) {
                                            let t = choose|t: int| 0 <= t < i && keys@[t] == key;
                                            assert(keys@[t] != keys@[i as int]);
                                        }
                                    }
                                    assert forall|a: int, b: int| 0 <= a < b < ks.len() implies ks[a] != ks[b] by {
                                        if b == prev.len() {
                                            assert(prev.contains(prev[a]));
                                        }
                                    }
                                    assert(update_for(updates@[prev.len() as int], key, m0[key], view_z, depth_stack));
                                }
                                entry.materialized = true;
                                entry.dirty = false;
                                proof {
                                    assert(entry == patched_entry(e0));
                                    assert(patch_due(needed_key(viewport, view_z, layers_state, chunk_edge, key), m0[key], cutover_changed));
                                    assert(pushed);
                                }
                            },
                            Err(_) => {
                                entry.dirty = false;
                                proof {
                                    assert(entry == patched_entry(e0));
                                    assert(bincode_tile_indices(m0[key].payload@) is None);
                                    assert(!pushed);
                                }
                            },
                        }
                    }
                    chunk_layer_cache.entries.insert(key, entry);
                },
                None => {},
            }
        }
        proof {
            assert(pushed <==> patch_due(needed_key(viewport, view_z, layers_state, chunk_edge, key), m0[key], cutover_changed) && bincode_tile_indices(m0[key].payload@) is Some);
            assert(chunk_layer_cache.entries@[key] == if patch_due(needed_key(viewport, view_z, layers_state, chunk_edge, key), m0[key], cutover_changed) {
                patched_entry(m0[key])
            } else {
                m0[key]
            });
            assert(chunk_layer_cache.entries@.dom() =~= m0.dom());
            assert forall|t: int| 0 <= t < n && t != i implies chunk_layer_cache.entries@[#[trigger] keys@[t]]
                == m_before[keys@[t]] by {
                assert(keys@[t] != key);
            }
            assert(!prev.contains(key)) by {
                if prev.contains(key) {
                    let t = choose|t: int| 0 <= t < i && keys@[t] == key;
                    assert(keys@[t] != keys@[i as int]);
                }
            }
            if !pushed {
                assert(ks == prev);
            }
            assert forall|q: (i32, i32, i32, u8)|
                ks.contains(q) <==> (exists|t: int| 0 <= t < i + 1 && keys@[t] == q) && patch_due(needed_key(viewport, view_z, layers_state, chunk_edge, q), m0[q], cutover_changed) && bincode_tile_indices(
                    m0[q].payload@,
                ) is Some by {
                if q == key {
                    if pushed {
                        assert(ks[prev.len() as int] == q);
                    }
                    assert(keys@[i as int] == q);
                } else {
                    if ks.contains(q) {
                        let j = choose|j: int| 0 <= j < ks.len() && ks[j] == q;
                        if j < prev.len() {
                            assert(prev[j] == q);
                            assert(prev.contains(q));
                            let t = choose|t: int| 0 <= t < i && keys@[t] == q;
                            assert(0 <= t < i + 1 && keys@[t] == q);
                        } else {
                            assert(pushed);
                            assert(ks[j] == key);
                        }
                    }
                    if (exists|t: int| 0 <= t < i + 1 && keys@[t] == q) && patch_due(needed_key(viewport, view_z, layers_state, chunk_edge, q), m0[q], cutover_changed) && bincode_tile_indices(
                        m0[q].payload@,
                    ) is Some {
                        let t = choose|t: int| 0 <= t < i + 1 && keys@[t] == q;
                        assert(t < i);
                        assert(prev.contains(q));
                        let j = choose|j: int| 0 <= j < prev.len() && prev[j] == q;
                        assert(ks[j] == q);
                    }
                }
            }
        }
        i = i + 1;
    }
    proof {
        assert forall|q: (i32, i32, i32, u8)| #[trigger]
            chunk_layer_cache.entries@.contains_key(q) implies chunk_layer_cache.entries@[q] == if patch_due(needed_key(viewport, view_z, layers_state, chunk_edge, q), m0[q], cutover_changed) {
            patched_entry(m0[q])
        } else {
            m0[q]
        } by {
            let t = choose|t: int| 0 <= t < n && keys@[t] == q;
        }
        assert(ks.to_set() =~= m0.dom().filter(
            |q: (i32, i32, i32, u8)| patch_due(needed_key(viewport, view_z, layers_state, chunk_edge, q), m0[q], cutover_changed) && bincode_tile_indices(m0[q].payload@) is Some,
        )) by {
            assert forall|q: (i32, i32, i32, u8)| m0.dom().contains(q) && patch_due(needed_key(viewport, view_z, layers_state, chunk_edge, q), m0[q], cutover_changed) && bincode_tile_indices(
                m0[q].payload@,
            ) is Some implies ks.contains(q) by {
                let t = choose|t: int| 0 <= t < n && keys@[t] == q;
            }
        }
    }
    Some(RuntimePatchPlan { despawn, updates, visible: cutover.enabled })
}

} // verus!
