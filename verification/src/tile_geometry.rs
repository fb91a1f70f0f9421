//! Per-chunk tile geometry of the tilemap layers (floor, edge shadows,
//! ceiling shadows, remembered-fog overlay), its cache, and the idle-time
//! pre-building of neighbouring z-levels.
//!
//! Geometry is the atlas index of every tile of a chunk level, tile
//! `(lx, ly)` at index `ly * edge + lx`; tint and fog colour are applied
//! when the geometry is read.

use std::collections::{BTreeMap, BTreeSet};
use vstd::prelude::*;
use vstd::std_specs::btree::group_btree_axioms;
use vstd::laws_cmp::group_laws_cmp;
use vstd::arithmetic::div_mod::lemma_fundamental_div_mod_converse;

use crate::coords::{
    IVec2, TerrainBlocks, TerrainData, Z_LEVELS_BELOW_RENDERED, known_block, terrain_block_for_shadow,
    topmost_solid_spec, topmost_solid_z_in_column,
};
use crate::geometry::{BlockType, Vec3i};
use crate::invalidation::{
    block_change_cells, chunk_of_xy, chunk_of_xy_spec, fog_change_cells, neighbour_chunk, TileLayer, TileLayerDebugState,
    TilemapInvalidation, ViewMode, layer_index, layer_key,
};

verus! {

broadcast use {
    group_btree_axioms,
    group_laws_cmp,
    crate::ordered::lemma_member_of_pair_listing,
};

/// Atlas index of the stone floor tile.
pub const STONE_TILE_INDEX: u16 = 5;

pub fn stone_tile_index() -> (r: u16)
    ensures
        r == STONE_TILE_INDEX,
{
    STONE_TILE_INDEX
}

/// Topmost solid level per tile column, for the columns a rebuild reads.
pub type TopmostMap = BTreeMap<(i32, i32), Option<i32>>;

/// The chunk column and its one-tile border have `i32` tile coordinates.
pub open spec fn chunk_fits(c: IVec2, chunk_edge: u32) -> bool {
    let e = chunk_edge as int;
    let h = e / 2;
    &&& 1 <= chunk_edge <= 0x4000
    &&& i32::MIN <= c.x * e - h - 1
    &&& c.x * e + e - h <= i32::MAX
    &&& i32::MIN <= c.y * e - h - 1
    &&& c.y * e + e - h <= i32::MAX
}

/// First tile column of a chunk column along one axis.
pub open spec fn chunk_origin(c: i32, chunk_edge: u32) -> int {
    c * (chunk_edge as int) - (chunk_edge as int) / 2
}

/// A tile column is covered by a chunk column or its one-tile border.
pub open spec fn in_bordered_chunk(c: IVec2, chunk_edge: u32, wx: int, wy: int) -> bool {
    &&& chunk_origin(c.x, chunk_edge) - 1 <= wx <= chunk_origin(c.x, chunk_edge) + chunk_edge
    &&& chunk_origin(c.y, chunk_edge) - 1 <= wy <= chunk_origin(c.y, chunk_edge) + chunk_edge
}

/// The topmost level a map records for a tile column (unrecorded: none).
pub open spec fn topmost_at(m: Map<(i32, i32), Option<i32>>, wx: int, wy: int) -> Option<i32> {
    if m.contains_key((wx as i32, wy as i32)) {
        m[(wx as i32, wy as i32)]
    } else {
        None
    }
}

/// The topmost solid level of a tile column, read from the map.
pub fn topmost_from_cache(wx: i32, wy: i32, cache: &TopmostMap) -> (r: Option<i32>)
    ensures
        r == topmost_at(cache@, wx as int, wy as int),
{
    match cache.get(&(wx, wy)) {
        Some(v) => *v,
        None => None,
    }
}

/// Topmost levels for every tile column of the given chunk columns and
/// their one-tile borders, scanning down from `view_z`.
pub fn build_topmost_cache(
    chunk_xys: &Vec<IVec2>,
    view_z: i32,
    chunk_edge: u32,
    blocks: &TerrainBlocks,
    unknown_is_solid: bool,
) -> (r: TopmostMap)
    requires
        forall|i: int| 0 <= i < chunk_xys@.len() ==> chunk_fits(#[trigger] chunk_xys@[i], chunk_edge),
        1 <= chunk_edge <= 0x4000,
        view_z - Z_LEVELS_BELOW_RENDERED >= i32::MIN,
    ensures
        forall|k: (i32, i32)|
            r@.contains_key(k) <==> exists|i: int|
                0 <= i < chunk_xys@.len() && #[trigger] in_bordered_chunk(chunk_xys@[i], chunk_edge, k.0 as int, k.1 as int),
        forall|k: (i32, i32)|
            #[trigger] r@.contains_key(k) ==> r@[k] == topmost_solid_spec(blocks@, k.0, k.1, view_z, unknown_is_solid, 0),
{
    let mut cache: TopmostMap = BTreeMap::new();
    let edge = chunk_edge as i32;
    let half = edge / 2;
    let n = chunk_xys.len();
    let mut ci: usize = 0;
    while ci < n
        invariant
            n == chunk_xys@.len(),
            ci <= n,
            edge == chunk_edge,
            half == edge / 2,
            1 <= chunk_edge <= 0x4000,
            view_z - Z_LEVELS_BELOW_RENDERED >= i32::MIN,
            forall|i: int| 0 <= i < chunk_xys@.len() ==> chunk_fits(#[trigger] chunk_xys@[i], chunk_edge),
            forall|k: (i32, i32)|
                cache@.contains_key(k) <==> exists|i: int|
                    0 <= i < ci && #[trigger] in_bordered_chunk(chunk_xys@[i], chunk_edge, k.0 as int, k.1 as int),
            forall|k: (i32, i32)|
                #[trigger] cache@.contains_key(k) ==> cache@[k] == topmost_solid_spec(blocks@, k.0, k.1, view_z, unknown_is_solid, 0),
        decreases n - ci,
    {
        let c = chunk_xys[ci];
        proof {
            assert(chunk_fits(chunk_xys@[ci as int], chunk_edge));
            assert(0 <= c.x * edge - half - 1 - i32::MIN) by (nonlinear_arith)
                requires
                    i32::MIN <= c.x * (chunk_edge as int) - (chunk_edge as int) / 2 - 1,
                    edge == chunk_edge,
                    half == edge / 2,
            ;
        }
        let min_wx: i64 = (c.x as i64) * (edge as i64) - (half as i64) - 1;
        let max_wx: i64 = (c.x as i64) * (edge as i64) + (edge as i64) - (half as i64);
        let min_wy: i64 = (c.y as i64) * (edge as i64) - (half as i64) - 1;
        let max_wy: i64 = (c.y as i64) * (edge as i64) + (edge as i64) - (half as i64);
        proof {
            assert(min_wx == chunk_origin(c.x, chunk_edge) - 1);
            assert(max_wx == chunk_origin(c.x, chunk_edge) + chunk_edge);
            assert(min_wy == chunk_origin(c.y, chunk_edge) - 1);
            assert(max_wy == chunk_origin(c.y, chunk_edge) + chunk_edge);
        }
        let mut wx: i64 = min_wx;
        while wx <= max_wx
            invariant
                n == chunk_xys@.len(),
                ci < n,
                c == chunk_xys@[ci as int],
                chunk_fits(c, chunk_edge),
                min_wx == chunk_origin(c.x, chunk_edge) - 1,
                max_wx == chunk_origin(c.x, chunk_edge) + chunk_edge,
                min_wy == chunk_origin(c.y, chunk_edge) - 1,
                max_wy == chunk_origin(c.y, chunk_edge) + chunk_edge,
                i32::MIN <= min_wx,
                max_wx <= i32::MAX,
                i32::MIN <= min_wy,
                max_wy <= i32::MAX,
                min_wx <= wx <= max_wx + 1,
                view_z - Z_LEVELS_BELOW_RENDERED >= i32::MIN,
                forall|k: (i32, i32)|
                    cache@.contains_key(k) <==> (exists|i: int|
                        0 <= i < ci && #[trigger] in_bordered_chunk(chunk_xys@[i], chunk_edge, k.0 as int, k.1 as int))
                        || (min_wx <= k.0 < wx && min_wy <= k.1 <= max_wy),
                forall|k: (i32, i32)|
                    #[trigger] cache@.contains_key(k) ==> cache@[k] == topmost_solid_spec(blocks@, k.0, k.1, view_z, unknown_is_solid, 0),
            decreases max_wx + 1 - wx,
        {
            let mut wy: i64 = min_wy;
            while wy <= max_wy
                invariant
                    n == chunk_xys@.len(),
                    ci < n,
                    c == chunk_xys@[ci as int],
                    min_wx <= wx <= max_wx,
                    i32::MIN <= min_wx,
                    max_wx <= i32::MAX,
                    i32::MIN <= min_wy,
                    max_wy <= i32::MAX,
                    min_wy <= wy <= max_wy + 1,
                    view_z - Z_LEVELS_BELOW_RENDERED >= i32::MIN,
                    min_wx == chunk_origin(c.x, chunk_edge) - 1,
                    max_wx == chunk_origin(c.x, chunk_edge) + chunk_edge,
                    min_wy == chunk_origin(c.y, chunk_edge) - 1,
                    max_wy == chunk_origin(c.y, chunk_edge) + chunk_edge,
                    forall|k: (i32, i32)|
                        cache@.contains_key(k) <==> (exists|i: int|
                            0 <= i < ci && #[trigger] in_bordered_chunk(chunk_xys@[i], chunk_edge, k.0 as int, k.1 as int))
                            || (min_wx <= k.0 < wx && min_wy <= k.1 <= max_wy)
                            || (k.0 == wx && min_wy <= k.1 < wy),
                    forall|k: (i32, i32)|
                        #[trigger] cache@.contains_key(k) ==> cache@[k] == topmost_solid_spec(blocks@, k.0, k.1, view_z, unknown_is_solid, 0),
                decreases max_wy + 1 - wy,
            {
                let key = (wx as i32, wy as i32);
                if !cache.contains_key(&key) {
                    let t = topmost_solid_z_in_column(wx as i32, wy as i32, view_z, blocks, unknown_is_solid);
                    cache.insert(key, t);
                }
                wy = wy + 1;
            }
            wx = wx + 1;
        }
        proof {
            assert forall|k: (i32, i32)|
                cache@.contains_key(k) <==> exists|i: int|
                    0 <= i < ci + 1 && #[trigger] in_bordered_chunk(chunk_xys@[i], chunk_edge, k.0 as int, k.1 as int) by {
                if in_bordered_chunk(chunk_xys@[ci as int], chunk_edge, k.0 as int, k.1 as int) {
                    assert(cache@.contains_key(k));
                }
            }
        }
        ci = ci + 1;
    }
    cache
}

/// Tile column of local tile `(lx, ly)` of chunk column `c`.
pub open spec fn tile_column(c: IVec2, chunk_edge: u32, lx: int, ly: int) -> (int, int) {
    (chunk_origin(c.x, chunk_edge) + lx, chunk_origin(c.y, chunk_edge) + ly)
}

/// Floor geometry of one tile: the stone tile where the column's topmost
/// solid level is this level.
pub open spec fn floor_tile(m: Map<(i32, i32), Option<i32>>, c: IVec2, world_z: i32, chunk_edge: u32, lx: int, ly: int) -> Option<u16> {
    let (wx, wy) = tile_column(c, chunk_edge, lx, ly);
    if topmost_at(m, wx, wy) == Some(world_z) {
        Some(STONE_TILE_INDEX)
    } else {
        None
    }
}

/// Corner `(dx, dy)` of a dual-grid tile is floor at this level.
pub open spec fn corner_floor(m: Map<(i32, i32), Option<i32>>, c: IVec2, world_z: i32, chunk_edge: u32, lx: int, ly: int, dx: int, dy: int) -> bool {
    let (wx, wy) = tile_column(c, chunk_edge, lx, ly);
    topmost_at(m, wx + dx, wy + dy) == Some(world_z)
}

/// The four-corner mask of a dual-grid tile under a corner predicate.
pub open spec fn corner_mask(a: bool, b: bool, cc: bool, d: bool) -> int {
    (if a { 1int } else { 0 }) + (if b { 2int } else { 0 }) + (if cc { 4int } else { 0 }) + (if d { 8int } else { 0 })
}

/// Edge-shadow geometry of one tile: the atlas frame of its corner mask,
/// except for the empty and the full mask.
pub open spec fn edge_shadow_tile(m: Map<(i32, i32), Option<i32>>, c: IVec2, world_z: i32, chunk_edge: u32, lx: int, ly: int) -> Option<u16> {
    let mask = corner_mask(
        corner_floor(m, c, world_z, chunk_edge, lx, ly, 0, 0),
        corner_floor(m, c, world_z, chunk_edge, lx, ly, 1, 0),
        corner_floor(m, c, world_z, chunk_edge, lx, ly, 0, 1),
        corner_floor(m, c, world_z, chunk_edge, lx, ly, 1, 1),
    );
    if 0 < mask < 15 {
        Some((mask - 1) as u16)
    } else {
        None
    }
}

/// Corner `(dx, dy)` is floor at this level under a solid block one level up.
pub open spec fn corner_ceiling(blocks: Map<(i32, i32, i32), BlockType>, unknown_is_solid: bool, m: Map<(i32, i32), Option<i32>>, c: IVec2, world_z: i32, chunk_edge: u32, lx: int, ly: int, dx: int, dy: int) -> bool {
    let (wx, wy) = tile_column(c, chunk_edge, lx, ly);
    &&& topmost_at(m, wx + dx, wy + dy) == Some(world_z)
    &&& known_block(
        blocks,
        Vec3i { x: (wx + dx) as i32, y: (wy + dy) as i32, z: (world_z + 1) as i32 },
        if unknown_is_solid { BlockType::SolidStone } else { BlockType::Air },
    ) == BlockType::SolidStone
}

/// Ceiling-shadow geometry of one tile: the atlas frame of its corner mask
/// unless it is empty.
pub open spec fn ceiling_shadow_tile(blocks: Map<(i32, i32, i32), BlockType>, unknown_is_solid: bool, m: Map<(i32, i32), Option<i32>>, c: IVec2, world_z: i32, chunk_edge: u32, lx: int, ly: int) -> Option<u16> {
    let mask = corner_mask(
        corner_ceiling(blocks, unknown_is_solid, m, c, world_z, chunk_edge, lx, ly, 0, 0),
        corner_ceiling(blocks, unknown_is_solid, m, c, world_z, chunk_edge, lx, ly, 1, 0),
        corner_ceiling(blocks, unknown_is_solid, m, c, world_z, chunk_edge, lx, ly, 0, 1),
        corner_ceiling(blocks, unknown_is_solid, m, c, world_z, chunk_edge, lx, ly, 1, 1),
    );
    if mask != 0 {
        Some((mask - 1) as u16)
    } else {
        None
    }
}

/// Fog geometry of one tile: the remembered-fog overlay on floor tiles that
/// are not currently visible.
pub open spec fn fog_tile(m: Map<(i32, i32), Option<i32>>, visible: Set<(i32, i32, i32)>, c: IVec2, world_z: i32, chunk_edge: u32, lx: int, ly: int) -> bool {
    let (wx, wy) = tile_column(c, chunk_edge, lx, ly);
    topmost_at(m, wx, wy) == Some(world_z) && !visible.contains((wx as i32, wy as i32, world_z))
}

/// Tile index `i` of a chunk is local tile `(i % edge, i / edge)`.
proof fn lemma_tile_index(ly: int, lx: int, e: int)
    requires
        e >= 1,
        0 <= lx < e,
        0 <= ly,
    ensures
        (ly * e + lx) % e == lx,
        (ly * e + lx) / e == ly,
{
    lemma_fundamental_div_mod_converse(ly * e + lx, e, ly, lx);
}

/// Which of the per-tile geometries a builder computes.
#[derive(Debug, Clone, Copy, PartialEq, Eq, Structural)]
pub enum GeometryKind {
    Floor,
    EdgeShadow,
    CeilingShadow { unknown_is_solid: bool },
}

/// The geometry of one tile of kind `kind`.
pub open spec fn geometry_tile(kind: GeometryKind, blocks: Map<(i32, i32, i32), BlockType>, m: Map<(i32, i32), Option<i32>>, c: IVec2, world_z: i32, chunk_edge: u32, lx: int, ly: int) -> Option<u16> {
    match kind {
        GeometryKind::Floor => floor_tile(m, c, world_z, chunk_edge, lx, ly),
        GeometryKind::EdgeShadow => edge_shadow_tile(m, c, world_z, chunk_edge, lx, ly),
        GeometryKind::CeilingShadow { unknown_is_solid } => ceiling_shadow_tile(blocks, unknown_is_solid, m, c, world_z, chunk_edge, lx, ly),
    }
}

/// A chunk's geometry: `edge * edge` tiles, row-major.
pub open spec fn is_chunk_geometry(g: Seq<Option<u16>>, kind: GeometryKind, blocks: Map<(i32, i32, i32), BlockType>, m: Map<(i32, i32), Option<i32>>, c: IVec2, world_z: i32, chunk_edge: u32) -> bool {
    &&& g.len() == chunk_edge * chunk_edge
    &&& forall|i: int| 0 <= i < g.len() ==> #[trigger] g[i] == geometry_tile(kind, blocks, m, c, world_z, chunk_edge, i % (chunk_edge as int), i / (chunk_edge as int))
}

/// Whether corner `(wx + dx, wy + dy)` is floor at this level.
fn corner_is_floor(cache: &TopmostMap, wx: i32, wy: i32, world_z: i32) -> (r: bool)
    ensures
        r == (topmost_at(cache@, wx as int, wy as int) == Some(world_z)),
{
    match topmost_from_cache(wx, wy, cache) {
        Some(z) => z == world_z,
        None => false,
    }
}

/// Whether corner `(wx, wy)` is floor under a solid block one level up.
fn corner_is_ceiling(cache: &TopmostMap, blocks: &TerrainBlocks, unknown_is_solid: bool, wx: i32, wy: i32, world_z: i32) -> (r: bool)
    requires
        world_z < i32::MAX,
    ensures
        r == (topmost_at(cache@, wx as int, wy as int) == Some(world_z) && known_block(
            blocks@,
            Vec3i { x: wx, y: wy, z: (world_z + 1) as i32 },
            if unknown_is_solid { BlockType::SolidStone } else { BlockType::Air },
        ) == BlockType::SolidStone),
{
    corner_is_floor(cache, wx, wy, world_z) && terrain_block_for_shadow(
        Vec3i::new(wx, wy, world_z + 1),
        blocks,
        unknown_is_solid,
    ) == BlockType::SolidStone
}

/// The geometry of one tile.
fn tile_geometry(kind: GeometryKind, blocks: &TerrainBlocks, cache: &TopmostMap, c: IVec2, world_z: i32, chunk_edge: u32, lx: u32, ly: u32) -> (r: Option<u16>)
    requires
        chunk_fits(c, chunk_edge),
        lx < chunk_edge,
        ly < chunk_edge,
        world_z < i32::MAX,
    ensures
        r == geometry_tile(kind, blocks@, cache@, c, world_z, chunk_edge, lx as int, ly as int),
{
    let e = chunk_edge as i64;
    let wx64 = (c.x as i64) * e - e / 2 + (lx as i64);
    let wy64 = (c.y as i64) * e - e / 2 + (ly as i64);
    proof {
        assert(wx64 == chunk_origin(c.x, chunk_edge) + lx);
        assert(wy64 == chunk_origin(c.y, chunk_edge) + ly);
    }
    let wx = wx64 as i32;
    let wy = wy64 as i32;
    match kind {
        GeometryKind::Floor => {
            if corner_is_floor(cache, wx, wy, world_z) {
                Some(stone_tile_index())
            } else {
                None
            }
        },
        GeometryKind::EdgeShadow => {
            let a = corner_is_floor(cache, wx, wy, world_z);
            let b = corner_is_floor(cache, wx + 1, wy, world_z);
            let d = corner_is_floor(cache, wx, wy + 1, world_z);
            let f = corner_is_floor(cache, wx + 1, wy + 1, world_z);
            let mask: u8 = (if a { 1u8 } else { 0u8 }) + (if b { 2u8 } else { 0u8 }) + (if d { 4u8 } else { 0u8 }) + (if f { 8u8 } else { 0u8 });
            if mask > 0 && mask < 15 {
                Some((mask - 1) as u16)
            } else {
                None
            }
        },
        GeometryKind::CeilingShadow { unknown_is_solid } => {
            let a = corner_is_ceiling(cache, blocks, unknown_is_solid, wx, wy, world_z);
            let b = corner_is_ceiling(cache, blocks, unknown_is_solid, wx + 1, wy, world_z);
            let d = corner_is_ceiling(cache, blocks, unknown_is_solid, wx, wy + 1, world_z);
            let f = corner_is_ceiling(cache, blocks, unknown_is_solid, wx + 1, wy + 1, world_z);
            let mask: u8 = (if a { 1u8 } else { 0u8 }) + (if b { 2u8 } else { 0u8 }) + (if d { 4u8 } else { 0u8 }) + (if f { 8u8 } else { 0u8 });
            if mask != 0 {
                Some((mask - 1) as u16)
            } else {
                None
            }
        },
    }
}

/// Build a chunk level's geometry of the given kind.
pub fn build_geometry(kind: GeometryKind, chunk_xy: IVec2, world_z: i32, chunk_edge: u32, blocks: &TerrainBlocks, topmost_cache: &TopmostMap) -> (r: Vec<Option<u16>>)
    requires
        chunk_fits(chunk_xy, chunk_edge),
        world_z < i32::MAX,
    ensures
        is_chunk_geometry(r@, kind, blocks@, topmost_cache@, chunk_xy, world_z, chunk_edge),
{
    let mut geom: Vec<Option<u16>> = Vec::new();
    let mut ly: u32 = 0;
    while ly < chunk_edge
        invariant
            chunk_fits(chunk_xy, chunk_edge),
            world_z < i32::MAX,
            ly <= chunk_edge,
            geom@.len() == ly * chunk_edge,
            forall|i: int| 0 <= i < geom@.len() ==> #[trigger] geom@[i] == geometry_tile(kind, blocks@, topmost_cache@, chunk_xy, world_z, chunk_edge, i % (chunk_edge as int), i / (chunk_edge as int)),
        decreases chunk_edge - ly,
    {
        let mut lx: u32 = 0;
        while lx < chunk_edge
            invariant
                chunk_fits(chunk_xy, chunk_edge),
                world_z < i32::MAX,
                ly < chunk_edge,
                lx <= chunk_edge,
                geom@.len() == ly * chunk_edge + lx,
                forall|i: int| 0 <= i < geom@.len() ==> #[trigger] geom@[i] == geometry_tile(kind, blocks@, topmost_cache@, chunk_xy, world_z, chunk_edge, i % (chunk_edge as int), i / (chunk_edge as int)),
            decreases chunk_edge - lx,
        {
            let t = tile_geometry(kind, blocks, topmost_cache, chunk_xy, world_z, chunk_edge, lx, ly);
            proof {
                lemma_tile_index(ly as int, lx as int, chunk_edge as int);
            }
            geom.push(t);
            lx = lx + 1;
        }
        proof {
            assert((ly + 1) * chunk_edge == ly * chunk_edge + chunk_edge) by (nonlinear_arith);
        }
        ly = ly + 1;
    }
    geom
}

/// Floor geometry of a chunk level.
pub fn build_floor_geometry(chunk_xy: IVec2, world_z: i32, chunk_edge: u32, topmost_cache: &TopmostMap) -> (r: Vec<Option<u16>>)
    requires
        chunk_fits(chunk_xy, chunk_edge),
        world_z < i32::MAX,
    ensures
        is_chunk_geometry(r@, GeometryKind::Floor, Map::empty(), topmost_cache@, chunk_xy, world_z, chunk_edge),
{
    let none: TerrainBlocks = BTreeMap::new();
    build_geometry(GeometryKind::Floor, chunk_xy, world_z, chunk_edge, &none, topmost_cache)
}

/// Edge-shadow geometry of a chunk level.
pub fn build_edge_shadow_geometry(chunk_xy: IVec2, world_z: i32, chunk_edge: u32, topmost_cache: &TopmostMap) -> (r: Vec<Option<u16>>)
    requires
        chunk_fits(chunk_xy, chunk_edge),
        world_z < i32::MAX,
    ensures
        is_chunk_geometry(r@, GeometryKind::EdgeShadow, Map::empty(), topmost_cache@, chunk_xy, world_z, chunk_edge),
{
    let none: TerrainBlocks = BTreeMap::new();
    build_geometry(GeometryKind::EdgeShadow, chunk_xy, world_z, chunk_edge, &none, topmost_cache)
}

/// Ceiling-shadow geometry of a chunk level.
pub fn build_ceiling_shadow_geometry(chunk_xy: IVec2, world_z: i32, chunk_edge: u32, blocks: &TerrainBlocks, unknown_is_solid: bool, topmost_cache: &TopmostMap) -> (r: Vec<Option<u16>>)
    requires
        chunk_fits(chunk_xy, chunk_edge),
        world_z < i32::MAX,
    ensures
        is_chunk_geometry(r@, GeometryKind::CeilingShadow { unknown_is_solid }, blocks@, topmost_cache@, chunk_xy, world_z, chunk_edge),
{
    build_geometry(GeometryKind::CeilingShadow { unknown_is_solid }, chunk_xy, world_z, chunk_edge, blocks, topmost_cache)
}

/// Fog geometry of a chunk level: which tiles carry the remembered-fog
/// overlay.
pub fn build_fog_geometry(chunk_xy: IVec2, world_z: i32, chunk_edge: u32, topmost_cache: &TopmostMap, visible: &BTreeSet<(i32, i32, i32)>) -> (r: Vec<bool>)
    requires
        chunk_fits(chunk_xy, chunk_edge),
    ensures
        r@.len() == chunk_edge * chunk_edge,
        forall|i: int| 0 <= i < r@.len() ==> #[trigger] r@[i] == fog_tile(topmost_cache@, visible@, chunk_xy, world_z, chunk_edge, i % (chunk_edge as int), i / (chunk_edge as int)),
{
    let mut geom: Vec<bool> = Vec::new();
    let e = chunk_edge as i64;
    let mut ly: u32 = 0;
    while ly < chunk_edge
        invariant
            chunk_fits(chunk_xy, chunk_edge),
            e == chunk_edge,
            ly <= chunk_edge,
            geom@.len() == ly * chunk_edge,
            forall|i: int| 0 <= i < geom@.len() ==> #[trigger] geom@[i] == fog_tile(topmost_cache@, visible@, chunk_xy, world_z, chunk_edge, i % (chunk_edge as int), i / (chunk_edge as int)),
        decreases chunk_edge - ly,
    {
        let mut lx: u32 = 0;
        while lx < chunk_edge
            invariant
                chunk_fits(chunk_xy, chunk_edge),
                e == chunk_edge,
                ly < chunk_edge,
                lx <= chunk_edge,
                geom@.len() == ly * chunk_edge + lx,
                forall|i: int| 0 <= i < geom@.len() ==> #[trigger] geom@[i] == fog_tile(topmost_cache@, visible@, chunk_xy, world_z, chunk_edge, i % (chunk_edge as int), i / (chunk_edge as int)),
            decreases chunk_edge - lx,
        {
            let wx64 = (chunk_xy.x as i64) * e - e / 2 + (lx as i64);
            let wy64 = (chunk_xy.y as i64) * e - e / 2 + (ly as i64);
            proof {
                assert(wx64 == chunk_origin(chunk_xy.x, chunk_edge) + lx);
                assert(wy64 == chunk_origin(chunk_xy.y, chunk_edge) + ly);
                lemma_tile_index(ly as int, lx as int, chunk_edge as int);
            }
            let wx = wx64 as i32;
            let wy = wy64 as i32;
            let fogged = corner_is_floor(topmost_cache, wx, wy, world_z) && !visible.contains(&(wx, wy, world_z));
            geom.push(fogged);
            lx = lx + 1;
        }
        proof {
            assert((ly + 1) * chunk_edge == ly * chunk_edge + chunk_edge) by (nonlinear_arith);
        }
        ly = ly + 1;
    }
    geom
}

/// Topmost levels of every tile column, scanning down from `view_z`.
pub open spec fn topmost_everywhere(blocks: Map<(i32, i32, i32), BlockType>, view_z: i32, unknown_is_solid: bool) -> Map<(i32, i32), Option<i32>> {
    Map::new(|k: (i32, i32)| true, |k: (i32, i32)| topmost_solid_spec(blocks, k.0, k.1, view_z, unknown_is_solid, 0))
}

/// Two topmost maps agree on a chunk column and its border.
pub open spec fn agree_on_chunk(m1: Map<(i32, i32), Option<i32>>, m2: Map<(i32, i32), Option<i32>>, c: IVec2, chunk_edge: u32) -> bool {
    forall|wx: int, wy: int| #[trigger] in_bordered_chunk(c, chunk_edge, wx, wy) ==> topmost_at(m1, wx, wy) == topmost_at(m2, wx, wy)
}

/// A chunk's geometry reads the topmost map only over the chunk and its
/// border.
pub proof fn lemma_geometry_reads_border(
    g: Seq<Option<u16>>,
    kind: GeometryKind,
    blocks: Map<(i32, i32, i32), BlockType>,
    m1: Map<(i32, i32), Option<i32>>,
    m2: Map<(i32, i32), Option<i32>>,
    c: IVec2,
    world_z: i32,
    chunk_edge: u32,
)
    requires
        1 <= chunk_edge,
        agree_on_chunk(m1, m2, c, chunk_edge),
        is_chunk_geometry(g, kind, blocks, m1, c, world_z, chunk_edge),
    ensures
        is_chunk_geometry(g, kind, blocks, m2, c, world_z, chunk_edge),
{
    let e = chunk_edge as int;
    assert forall|i: int| 0 <= i < g.len() implies #[trigger] g[i] == geometry_tile(kind, blocks, m2, c, world_z, chunk_edge, i % e, i / e) by {
        let lx = i % e;
        let ly = i / e;
        assert(0 <= lx < e);
        assert(0 <= ly < e) by (nonlinear_arith)
            requires
                0 <= i < e * e,
                ly == i / e,
                e >= 1,
        ;
        let (wx, wy) = tile_column(c, chunk_edge, lx, ly);
        assert(in_bordered_chunk(c, chunk_edge, wx, wy));
        assert(in_bordered_chunk(c, chunk_edge, wx + 1, wy));
        assert(in_bordered_chunk(c, chunk_edge, wx, wy + 1));
        assert(in_bordered_chunk(c, chunk_edge, wx + 1, wy + 1));
    }
}

/// Cached tile data: geometry per `(chunk_x, chunk_y, z, layer)` and the
/// remembered-fog overlay per `(chunk_x, chunk_y, z)`.
pub struct TileDataCache {
    pub geometry: BTreeMap<(i32, i32, i32, u8), Vec<Option<u16>>>,
    pub fog: BTreeMap<(i32, i32, i32), Vec<bool>>,
}

impl TileDataCache {
    pub fn new() -> (r: TileDataCache)
        ensures
            r.geometry@ == Map::<(i32, i32, i32, u8), Vec<Option<u16>>>::empty(),
            r.fog@ == Map::<(i32, i32, i32), Vec<bool>>::empty(),
    {
        TileDataCache { geometry: BTreeMap::new(), fog: BTreeMap::new() }
    }

    /// Forget the geometry and fog of one chunk level.
    fn remove_chunk_z(&mut self, c: IVec2, z: i32)
        ensures
            final(self).geometry@ == old(self).geometry@.remove_keys(
                Set::new(|k: (i32, i32, i32, u8)| k.0 == c.x && k.1 == c.y && k.2 == z && k.3 < 3),
            ),
            final(self).fog@ == old(self).fog@.remove((c.x, c.y, z)),
    {
        self.geometry.remove(&(c.x, c.y, z, 0u8));
        self.geometry.remove(&(c.x, c.y, z, 1u8));
        self.geometry.remove(&(c.x, c.y, z, 2u8));
        self.fog.remove(&(c.x, c.y, z));
        proof {
            assert(self.geometry@ =~= old(self).geometry@.remove_keys(
                Set::new(|k: (i32, i32, i32, u8)| k.0 == c.x && k.1 == c.y && k.2 == z && k.3 < 3),
            ));
        }
    }

    /// Forget the cached geometry and fog of every chunk level a block
    /// change at `p` touches.
    pub fn invalidate_block(&mut self, p: Vec3i, chunk_edge: u32)
        requires
            1 <= chunk_edge <= i32::MAX,
            i32::MIN < p.x < i32::MAX,
            i32::MIN < p.y < i32::MAX,
            i32::MIN < p.z,
        ensures
            final(self).geometry@ == old(self).geometry@.remove_keys(
                Set::new(|k: (i32, i32, i32, u8)| k.3 < 3 && block_change_cells(p, chunk_edge).contains((k.0, k.1, k.2))),
            ),
            final(self).fog@ == old(self).fog@.remove_keys(block_change_cells(p, chunk_edge)),
    {
        let ghost g0 = self.geometry@;
        let ghost f0 = self.fog@;
        let c = chunk_of_xy(p, chunk_edge);
        self.remove_chunk_z(c, p.z);
        self.remove_chunk_z(c, p.z - 1);
        let offsets: [(i32, i32); 8] = [(1, 0), (-1, 0), (0, 1), (0, -1), (1, 1), (1, -1), (-1, 1), (-1, -1)];
        let mut i: usize = 0;
        while i < 8
            invariant
                0 <= i <= 8,
                offsets@ == seq![(1i32, 0i32), (-1i32, 0i32), (0i32, 1i32), (0i32, -1i32), (1i32, 1i32), (1i32, -1i32), (-1i32, 1i32), (-1i32, -1i32)],
                1 <= chunk_edge <= i32::MAX,
                i32::MIN < p.x < i32::MAX,
                i32::MIN < p.y < i32::MAX,
                i32::MIN < p.z,
                c == chunk_of_xy_spec(p, chunk_edge),
                forall|k: (i32, i32, i32)| #[trigger] self.fog@.contains_key(k) <==> f0.contains_key(k) && !((k.2 == p.z
                    || k.2 == p.z - 1) && ((k.0 == c.x && k.1 == c.y) || exists|t: int|
                    0 <= t < i && #[trigger] neighbour_chunk(p, chunk_edge, t) != c && neighbour_chunk(p, chunk_edge, t).x
                        == k.0 && neighbour_chunk(p, chunk_edge, t).y == k.1)),
                forall|k: (i32, i32, i32)| #[trigger] self.fog@.contains_key(k) ==> self.fog@[k] == f0[k],
                forall|k: (i32, i32, i32, u8)| #[trigger] self.geometry@.contains_key(k) <==> g0.contains_key(k) && !(k.3 < 3
                    && (k.2 == p.z || k.2 == p.z - 1) && ((k.0 == c.x && k.1 == c.y) || exists|t: int|
                    0 <= t < i && #[trigger] neighbour_chunk(p, chunk_edge, t) != c && neighbour_chunk(p, chunk_edge, t).x
                        == k.0 && neighbour_chunk(p, chunk_edge, t).y == k.1)),
                forall|k: (i32, i32, i32, u8)| #[trigger] self.geometry@.contains_key(k) ==> self.geometry@[k] == g0[k],
            decreases 8 - i,
        {
            let (dx, dy) = offsets[i];
            let neighbor = Vec3i::new(p.x + dx, p.y + dy, p.z);
            let nc = chunk_of_xy(neighbor, chunk_edge);
            proof {
                assert(nc == neighbour_chunk(p, chunk_edge, i as int));
            }
            if nc.x != c.x || nc.y != c.y {
                self.remove_chunk_z(nc, p.z);
                self.remove_chunk_z(nc, p.z - 1);
            }
            i = i + 1;
        }
        proof {
            assert(self.fog@ =~= f0.remove_keys(block_change_cells(p, chunk_edge)));
            assert(self.geometry@ =~= g0.remove_keys(
                Set::new(|k: (i32, i32, i32, u8)| k.3 < 3 && block_change_cells(p, chunk_edge).contains((k.0, k.1, k.2))),
            ));
        }
    }

    /// Forget the cached fog of every chunk level a change of what the
    /// viewer sees at `p` touches (geometry does not depend on it).
    pub fn invalidate_fog(&mut self, p: Vec3i, chunk_edge: u32)
        requires
            1 <= chunk_edge <= i32::MAX,
            i32::MIN < p.x < i32::MAX,
            i32::MIN < p.y < i32::MAX,
            i32::MIN < p.z,
        ensures
            final(self).geometry@ == old(self).geometry@,
            final(self).fog@ == old(self).fog@.remove_keys(fog_change_cells(p, chunk_edge)),
    {
        let ghost f0 = self.fog@;
        let c = chunk_of_xy(p, chunk_edge);
        self.fog.remove(&(c.x, c.y, p.z));
        self.fog.remove(&(c.x, c.y, p.z - 1));
        let offsets: [(i32, i32); 8] = [(1, 0), (-1, 0), (0, 1), (0, -1), (1, 1), (1, -1), (-1, 1), (-1, -1)];
        let mut i: usize = 0;
        while i < 8
            invariant
                0 <= i <= 8,
                offsets@ == seq![(1i32, 0i32), (-1i32, 0i32), (0i32, 1i32), (0i32, -1i32), (1i32, 1i32), (1i32, -1i32), (-1i32, 1i32), (-1i32, -1i32)],
                1 <= chunk_edge <= i32::MAX,
                i32::MIN < p.x < i32::MAX,
                i32::MIN < p.y < i32::MAX,
                i32::MIN < p.z,
                c == chunk_of_xy_spec(p, chunk_edge),
                self.geometry@ == old(self).geometry@,
                forall|k: (i32, i32, i32)| #[trigger] self.fog@.contains_key(k) <==> f0.contains_key(k) && !(((k.0 == c.x
                    && k.1 == c.y) && (k.2 == p.z || k.2 == p.z - 1)) || (k.2 == p.z && exists|t: int|
                    0 <= t < i && #[trigger] neighbour_chunk(p, chunk_edge, t) != c && neighbour_chunk(p, chunk_edge, t).x
                        == k.0 && neighbour_chunk(p, chunk_edge, t).y == k.1)),
                forall|k: (i32, i32, i32)| #[trigger] self.fog@.contains_key(k) ==> self.fog@[k] == f0[k],
            decreases 8 - i,
        {
            let (dx, dy) = offsets[i];
            let neighbor = Vec3i::new(p.x + dx, p.y + dy, p.z);
            let nc = chunk_of_xy(neighbor, chunk_edge);
            proof {
                assert(nc == neighbour_chunk(p, chunk_edge, i as int));
            }
            if nc.x != c.x || nc.y != c.y {
                self.fog.remove(&(nc.x, nc.y, p.z));
            }
            i = i + 1;
        }
        proof {
            assert(self.fog@ =~= f0.remove_keys(fog_change_cells(p, chunk_edge)));
        }
    }
}

/// The levels the player may scroll to next: one and two above and below.
pub open spec fn upcoming_levels(view_z: i32) -> Seq<i32> {
    seq![(view_z + 1) as i32, (view_z - 1) as i32, (view_z + 2) as i32, (view_z - 2) as i32]
}

/// How much idle-time geometry building one frame may do.
pub const PRE_BUILD_BUDGET: usize = 16;

/// The geometry kind of a pre-built layer, given the view mode.
pub open spec fn prebuilt_kind(layer: u8, entity_mode: bool) -> GeometryKind {
    if layer == 2 {
        GeometryKind::CeilingShadow { unknown_is_solid: entity_mode }
    } else if layer == 1 {
        GeometryKind::EdgeShadow
    } else {
        GeometryKind::Floor
    }
}

/// Whether unknown voxels count as solid for a pre-built layer's topmost scan.
pub open spec fn prebuilt_unknown_solid(layer: u8, entity_mode: bool) -> bool {
    layer != 0 && entity_mode
}

/// The layer is one the pre-builder fills (floor, edge or ceiling shadow)
/// and the debug menu shows it.
pub open spec fn prebuilt_layer_enabled(layer: u8, layers: TileLayerDebugState) -> bool {
    (layer == 0 && layers.show_floor) || (layer == 1 && layers.show_edge_shadow) || (layer == 2
        && layers.show_ceiling_shadow)
}

/// A correct pre-built entry: a shown geometry layer of a visible chunk at
/// an upcoming level, holding exactly that layer's geometry at that level.
pub open spec fn valid_prebuilt(
    k: (i32, i32, i32, u8),
    g: Seq<Option<u16>>,
    blocks: Map<(i32, i32, i32), BlockType>,
    chunk_edge: u32,
    entity_mode: bool,
    layers: TileLayerDebugState,
    visible: Set<(i32, i32)>,
    view_z: i32,
) -> bool {
    &&& visible.contains((k.0, k.1))
    &&& upcoming_levels(view_z).contains(k.2)
    &&& prebuilt_layer_enabled(k.3, layers)
    &&& is_chunk_geometry(
        g,
        prebuilt_kind(k.3, entity_mode),
        if k.3 == 2 { blocks } else { Map::empty() },
        topmost_everywhere(blocks, k.2, prebuilt_unknown_solid(k.3, entity_mode)),
        IVec2 { x: k.0, y: k.1 },
        k.2,
        chunk_edge,
    )
}

/// A topmost map built for `chunks` agrees with the full map on each of them.
proof fn lemma_built_topmost_agrees(
    m1: Map<(i32, i32), Option<i32>>,
    chunks: Seq<IVec2>,
    i: int,
    blocks: Map<(i32, i32, i32), BlockType>,
    view_z: i32,
    unknown_is_solid: bool,
    chunk_edge: u32,
)
    requires
        0 <= i < chunks.len(),
        chunk_fits(chunks[i], chunk_edge),
        forall|k: (i32, i32)|
            m1.contains_key(k) <==> exists|j: int|
                0 <= j < chunks.len() && #[trigger] in_bordered_chunk(chunks[j], chunk_edge, k.0 as int, k.1 as int),
        forall|k: (i32, i32)|
            #[trigger] m1.contains_key(k) ==> m1[k] == topmost_solid_spec(blocks, k.0, k.1, view_z, unknown_is_solid, 0),
    ensures
        agree_on_chunk(m1, topmost_everywhere(blocks, view_z, unknown_is_solid), chunks[i], chunk_edge),
{
    let c = chunks[i];
    assert forall|wx: int, wy: int| #[trigger] in_bordered_chunk(c, chunk_edge, wx, wy) implies topmost_at(m1, wx, wy)
        == topmost_at(topmost_everywhere(blocks, view_z, unknown_is_solid), wx, wy) by {
        let k = (wx as i32, wy as i32);
        assert(k.0 as int == wx && k.1 as int == wy);
        assert(in_bordered_chunk(chunks[i], chunk_edge, k.0 as int, k.1 as int));
        assert(m1.contains_key(k));
    }
}

/// Every shown pre-built layer of chunk column `c` at level `z` is cached.
pub open spec fn complete_at(
    cache: Map<(i32, i32, i32, u8), Vec<Option<u16>>>,
    c: (i32, i32),
    z: i32,
    layers: TileLayerDebugState,
) -> bool {
    forall|l: u8| #[trigger] prebuilt_layer_enabled(l, layers) ==> cache.contains_key((c.0, c.1, z, l))
}

/// All three geometry layers of chunk column `c` at level `z` are cached.
pub open spec fn all_geometry_cached(cache: Map<(i32, i32, i32, u8), Vec<Option<u16>>>, c: (i32, i32), z: i32) -> bool {
    cache.contains_key((c.0, c.1, z, 0u8)) && cache.contains_key((c.0, c.1, z, 1u8)) && cache.contains_key((c.0, c.1, z, 2u8))
}

/// The frame-to-frame relation of the geometry cache under pre-building.
pub open spec fn prebuild_step(
    old_cache: Map<(i32, i32, i32, u8), Vec<Option<u16>>>,
    new_cache: Map<(i32, i32, i32, u8), Vec<Option<u16>>>,
    added: Set<(i32, i32, i32, u8)>,
    blocks: Map<(i32, i32, i32), BlockType>,
    chunk_edge: u32,
    entity_mode: bool,
    layers: TileLayerDebugState,
    visible: Set<(i32, i32)>,
    view_z: i32,
) -> bool {
    &&& added.finite()
    &&& forall|k: (i32, i32, i32, u8)| #[trigger] new_cache.contains_key(k) <==> old_cache.contains_key(k) || added.contains(k)
    &&& forall|k: (i32, i32, i32, u8)| #[trigger] added.contains(k) ==> !old_cache.contains_key(k)
    &&& forall|k: (i32, i32, i32, u8)| #[trigger] old_cache.contains_key(k) ==> new_cache[k] == old_cache[k]
    &&& forall|k: (i32, i32, i32, u8)| #[trigger] added.contains(k) ==> valid_prebuilt(k, new_cache[k]@, blocks, chunk_edge, entity_mode, layers, visible, view_z)
}

/// The camera follows an entity.
pub open spec fn entity_mode_of(view_mode: ViewMode) -> bool {
    view_mode == ViewMode::Entity
}

/// The blocks the tile builders read: the filtered blocks when following an
/// entity, all blocks otherwise.
pub open spec fn render_blocks_spec(terrain: &TerrainData, view_mode: ViewMode) -> Map<(i32, i32, i32), BlockType> {
    if view_mode == ViewMode::Entity {
        terrain.blocks@
    } else {
        terrain.source_blocks@
    }
}

/// Build pre-built layer `l` (floor, edge shadow, ceiling shadow) of a
/// chunk level from the two topmost maps.
fn build_layer(
    l: u8,
    c: IVec2,
    z: i32,
    chunk_edge: u32,
    blocks: &TerrainBlocks,
    entity_mode: bool,
    topmost_false: &TopmostMap,
    topmost_true: &TopmostMap,
) -> (r: Vec<Option<u16>>)
    requires
        chunk_fits(c, chunk_edge),
        z < i32::MAX,
        l <= 2,
    ensures
        is_chunk_geometry(
            r@,
            prebuilt_kind(l, entity_mode),
            if l == 2 { blocks@ } else { Map::empty() },
            if l == 0 { topmost_false@ } else { topmost_true@ },
            c,
            z,
            chunk_edge,
        ),
{
    if l == 0 {
        build_floor_geometry(c, z, chunk_edge, topmost_false)
    } else if l == 1 {
        build_edge_shadow_geometry(c, z, chunk_edge, topmost_true)
    } else {
        build_ceiling_shadow_geometry(c, z, chunk_edge, blocks, entity_mode, topmost_true)
    }
}

/// A layer built from maps that agree with the full topmost maps on its
/// chunk is the layer a pre-built entry must hold.
proof fn lemma_layer_valid(
    l: u8,
    g: Seq<Option<u16>>,
    c: IVec2,
    z: i32,
    chunk_edge: u32,
    blocks: Map<(i32, i32, i32), BlockType>,
    entity_mode: bool,
    topmost_false: Map<(i32, i32), Option<i32>>,
    topmost_true: Map<(i32, i32), Option<i32>>,
)
    requires
        1 <= chunk_edge,
        agree_on_chunk(topmost_false, topmost_everywhere(blocks, z, false), c, chunk_edge),
        agree_on_chunk(topmost_true, topmost_everywhere(blocks, z, entity_mode), c, chunk_edge),
        is_chunk_geometry(
            g,
            prebuilt_kind(l, entity_mode),
            if l == 2 { blocks } else { Map::empty() },
            if l == 0 { topmost_false } else { topmost_true },
            c,
            z,
            chunk_edge,
        ),
    ensures
        is_chunk_geometry(
            g,
            prebuilt_kind(l, entity_mode),
            if l == 2 { blocks } else { Map::empty() },
            topmost_everywhere(blocks, z, prebuilt_unknown_solid(l, entity_mode)),
            c,
            z,
            chunk_edge,
        ),
{
    if l == 0 {
        lemma_geometry_reads_border(g, prebuilt_kind(l, entity_mode), Map::empty(), topmost_false, topmost_everywhere(blocks, z, false), c, z, chunk_edge);
    } else {
        lemma_geometry_reads_border(g, prebuilt_kind(l, entity_mode), if l == 2 { blocks } else { Map::empty() }, topmost_true, topmost_everywhere(blocks, z, entity_mode), c, z, chunk_edge);
    }
}

/// Inserting a correct pre-built entry under a new key extends the step.
proof fn lemma_prebuild_insert(
    old_cache: Map<(i32, i32, i32, u8), Vec<Option<u16>>>,
    before: Map<(i32, i32, i32, u8), Vec<Option<u16>>>,
    added: Set<(i32, i32, i32, u8)>,
    key: (i32, i32, i32, u8),
    geom: Vec<Option<u16>>,
    blocks: Map<(i32, i32, i32), BlockType>,
    chunk_edge: u32,
    entity_mode: bool,
    layers: TileLayerDebugState,
    visible: Set<(i32, i32)>,
    view_z: i32,
)
    requires
        prebuild_step(old_cache, before, added, blocks, chunk_edge, entity_mode, layers, visible, view_z),
        !before.contains_key(key),
        valid_prebuilt(key, geom@, blocks, chunk_edge, entity_mode, layers, visible, view_z),
    ensures
        prebuild_step(old_cache, before.insert(key, geom), added.insert(key), blocks, chunk_edge, entity_mode, layers, visible, view_z),
        added.insert(key).len() == added.len() + 1,
{
    let after = before.insert(key, geom);
    let a2 = added.insert(key);
    assert forall|k: (i32, i32, i32, u8)| #[trigger] a2.contains(k) implies valid_prebuilt(k, after[k]@, blocks, chunk_edge, entity_mode, layers, visible, view_z) by {
        if k != key {
            assert(added.contains(k));
            assert(before.contains_key(k));
            assert(after[k] == before[k]);
        }
    }
    assert forall|k: (i32, i32, i32, u8)| #[trigger] old_cache.contains_key(k) implies after[k] == old_cache[k] by {
        assert(before.contains_key(k));
        assert(k != key);
    }
}

/// A chunk level stays complete when the cache grows.
proof fn lemma_insert_keeps_complete(
    before: Map<(i32, i32, i32, u8), Vec<Option<u16>>>,
    key: (i32, i32, i32, u8),
    geom: Vec<Option<u16>>,
    c: (i32, i32),
    z: i32,
    layers: TileLayerDebugState,
)
    ensures
        complete_at(before, c, z, layers) ==> complete_at(before.insert(key, geom), c, z, layers),
        all_geometry_cached(before, c, z) ==> all_geometry_cached(before.insert(key, geom), c, z),
{
}

/// When nothing is pending, fill the geometry cache for the levels the
/// player may scroll to next (one and two above and below), at most
/// [`PRE_BUILD_BUDGET`] chunk layers per call.
pub fn pre_build_adjacent_z_levels(
    invalidation: &TilemapInvalidation,
    view_z: i32,
    chunk_edge: u32,
    terrain: &TerrainData,
    view_mode: ViewMode,
    layers: &TileLayerDebugState,
    tile_cache: &mut TileDataCache,
)
    requires
        chunk_edge != 0 ==> forall|c: (i32, i32)| #[trigger] invalidation@.visible_chunks_xy.contains(c) ==> chunk_fits(
            IVec2 { x: c.0, y: c.1 },
            chunk_edge,
        ),
        view_z + 3 <= i32::MAX,
        view_z - 2 - Z_LEVELS_BELOW_RENDERED >= i32::MIN,
    ensures
        final(tile_cache).fog@ == old(tile_cache).fog@,
        !(invalidation@.dirty.is_empty() && !invalidation@.view_invalidated && !invalidation@.viewport_changed && chunk_edge != 0)
            ==> final(tile_cache).geometry@ == old(tile_cache).geometry@,
        exists|added: Set<(i32, i32, i32, u8)>| #[trigger] prebuild_step(
            old(tile_cache).geometry@,
            final(tile_cache).geometry@,
            added,
            render_blocks_spec(terrain, view_mode),
            chunk_edge,
            entity_mode_of(view_mode),
            *layers,
            invalidation@.visible_chunks_xy,
            view_z,
        ) && added.len() <= PRE_BUILD_BUDGET && (added.len() < PRE_BUILD_BUDGET && invalidation@.dirty.is_empty()
            && !invalidation@.view_invalidated && !invalidation@.viewport_changed && chunk_edge != 0 ==> forall|c: (i32, i32), z: i32|
            invalidation@.visible_chunks_xy.contains(c) && upcoming_levels(view_z).contains(z) ==> #[trigger] complete_at(
            final(tile_cache).geometry@,
            c,
            z,
            *layers,
        )),
{
    let ghost old_geom = tile_cache.geometry@;
    let ghost blocks_spec = render_blocks_spec(terrain, view_mode);
    let entity_mode = view_mode == ViewMode::Entity;
    proof {
        assert(prebuild_step(
            old(tile_cache).geometry@,
            tile_cache.geometry@,
            Set::empty(),
            render_blocks_spec(terrain, view_mode),
            chunk_edge,
            entity_mode_of(view_mode),
            *layers,
            invalidation@.visible_chunks_xy,
            view_z,
        ));
        assert(Set::<(i32, i32, i32, u8)>::empty().len() == 0);
    }
    if !invalidation.is_empty() || invalidation.viewport_changed() {
        return;
    }
    if chunk_edge == 0 {
        return;
    }
    let render_blocks: &TerrainBlocks = if entity_mode {
        &terrain.blocks
    } else {
        &terrain.source_blocks
    };
    let ghost vis = invalidation@.visible_chunks_xy;
    let mut visible: Vec<IVec2> = Vec::new();
    for c in it: invalidation.visible_chunks().iter()
        invariant
            vis == invalidation@.visible_chunks_xy,
            forall|i: int| 0 <= i < it.seq().len() ==> vis.contains(*#[trigger] it.seq()[i]),
            forall|p: (i32, i32)| #[trigger]
                vis.contains(p) ==> exists|i: int| 0 <= i < it.seq().len() && *it.seq()[i] == p,
            visible@.len() == it.index(),
            forall|i: int| #![trigger visible@[i]] #![trigger it.seq()[i]] 0 <= i < it.index() ==> visible@[i] == (IVec2 { x: it.seq()[i].0, y: it.seq()[i].1 }),
    {
        visible.push(IVec2 { x: c.0, y: c.1 });
    }
    proof {
        assert forall|i: int| 0 <= i < visible@.len() implies vis.contains(#[trigger] visible@[i].key()) by {}
        assert forall|p: (i32, i32)| #[trigger] vis.contains(p) implies exists|i: int| 0 <= i < visible@.len() && visible@[i].key() == p by {}
    }
    if visible.len() == 0 {
        proof {
            assert forall|c: (i32, i32), z: i32|
                vis.contains(c) && upcoming_levels(view_z).contains(z) implies #[trigger] complete_at(tile_cache.geometry@, c, z, *layers) by {
                let i = choose|i: int| 0 <= i < visible@.len() && visible@[i].key() == c;
            }
        }
        return;
    }
    proof {
        assert(vis.contains(visible@[0].key()));
    }
    let upcoming: [i32; 4] = [view_z + 1, view_z - 1, view_z + 2, view_z - 2];
    let ghost up = upcoming_levels(view_z);
    let mut added: Ghost<Set<(i32, i32, i32, u8)>> = Ghost(Set::empty());
    let mut built: usize = 0;
    let mut zi: usize = 0;
    while zi < 4
        invariant
            zi <= 4,
            upcoming@ == up,
            up == upcoming_levels(view_z),
            1 <= chunk_edge <= 0x4000,
            invalidation@.dirty.is_empty() && !invalidation@.view_invalidated && !invalidation@.viewport_changed,
            view_z + 3 <= i32::MAX,
            view_z - 2 - Z_LEVELS_BELOW_RENDERED >= i32::MIN,
            vis == invalidation@.visible_chunks_xy,
            forall|i: int| 0 <= i < visible@.len() ==> vis.contains(#[trigger] visible@[i].key()),
            forall|p: (i32, i32)| #[trigger] vis.contains(p) ==> exists|i: int| 0 <= i < visible@.len() && visible@[i].key() == p,
            forall|c: (i32, i32)| #[trigger] vis.contains(c) ==> chunk_fits(IVec2 { x: c.0, y: c.1 }, chunk_edge),
            blocks_spec == render_blocks@,
            entity_mode == (view_mode == ViewMode::Entity),
            blocks_spec == render_blocks_spec(terrain, view_mode),
            tile_cache.fog@ == old(tile_cache).fog@,
            old_geom == old(tile_cache).geometry@,
            prebuild_step(old_geom, tile_cache.geometry@, added@, blocks_spec, chunk_edge, entity_mode, *layers, vis, view_z),
            added@.len() == built,
            built < PRE_BUILD_BUDGET,
            forall|c: (i32, i32), j: int| 0 <= j < zi && vis.contains(c) ==> #[trigger] complete_at(tile_cache.geometry@, c, up[j], *layers),
        decreases 4 - zi,
    {
        let z = upcoming[zi];
        proof {
            assert(view_z - 2 <= z <= view_z + 2);
        }
        let mut miss: Vec<IVec2> = Vec::new();
        let mut vi: usize = 0;
        while vi < visible.len()
            invariant
                vi <= visible@.len(),
                forall|i: int| 0 <= i < visible@.len() ==> vis.contains(#[trigger] visible@[i].key()),
                forall|i: int| 0 <= i < miss@.len() ==> vis.contains(#[trigger] miss@[i].key()),
                forall|i: int| 0 <= i < vi ==> all_geometry_cached(tile_cache.geometry@, #[trigger] visible@[i].key(), z)
                    || miss@.contains(visible@[i]),
            decreases visible@.len() - vi,
        {
            let c = visible[vi];
            let ghost miss_before = miss@;
            if !tile_cache.geometry.contains_key(&(c.x, c.y, z, 0u8))
                || !tile_cache.geometry.contains_key(&(c.x, c.y, z, 1u8))
                || !tile_cache.geometry.contains_key(&(c.x, c.y, z, 2u8)) {
                miss.push(c);
                proof {
                    assert(miss@[miss@.len() - 1] == c);
                    assert forall|i: int| 0 <= i < vi implies all_geometry_cached(tile_cache.geometry@, #[trigger] visible@[i].key(), z)
                        || miss@.contains(visible@[i]) by {
                        if miss_before.contains(visible@[i]) {
                            let k = choose|k: int| 0 <= k < miss_before.len() && miss_before[k] == visible@[i];
                            assert(miss@[k] == visible@[i]);
                        }
                    }
                }
            }
            vi = vi + 1;
        }
        if miss.len() == 0 {
            proof {
                assert forall|c: (i32, i32), j: int| 0 <= j < zi + 1 && vis.contains(c) implies #[trigger] complete_at(tile_cache.geometry@, c, up[j], *layers) by {
                    if j == zi {
                        let i = choose|i: int| 0 <= i < visible@.len() && visible@[i].key() == c;
                        assert(all_geometry_cached(tile_cache.geometry@, visible@[i].key(), z) || miss@.contains(visible@[i]));
                    }
                }
            }
            zi = zi + 1;
            continue;
        }
        proof {
            assert forall|i: int| 0 <= i < miss@.len() implies chunk_fits(#[trigger] miss@[i], chunk_edge) by {
                assert(vis.contains(miss@[i].key()));
            }
        }
        let topmost_false = build_topmost_cache(&miss, z, chunk_edge, render_blocks, false);
        let topmost_true = if entity_mode {
            build_topmost_cache(&miss, z, chunk_edge, render_blocks, true)
        } else {
            topmost_false.clone()
        };
        let mut mi: usize = 0;
        while mi < miss.len()
            invariant
                mi <= miss@.len(),
                blocks_spec == render_blocks_spec(terrain, view_mode),
                entity_mode == (view_mode == ViewMode::Entity),
                vis == invalidation@.visible_chunks_xy,
                1 <= chunk_edge <= 0x4000,
                view_z - 2 <= z <= view_z + 2,
                invalidation@.dirty.is_empty() && !invalidation@.view_invalidated && !invalidation@.viewport_changed,
                upcoming@ == up,
                up == upcoming_levels(view_z),
                z == up[zi as int],
                zi < 4,
                view_z + 3 <= i32::MAX,
                forall|i: int| 0 <= i < miss@.len() ==> vis.contains(#[trigger] miss@[i].key()),
                forall|i: int| 0 <= i < miss@.len() ==> chunk_fits(#[trigger] miss@[i], chunk_edge),
                forall|k: (i32, i32)|
                    topmost_false@.contains_key(k) <==> exists|j: int|
                        0 <= j < miss@.len() && #[trigger] in_bordered_chunk(miss@[j], chunk_edge, k.0 as int, k.1 as int),
                forall|k: (i32, i32)|
                    #[trigger] topmost_false@.contains_key(k) ==> topmost_false@[k] == topmost_solid_spec(blocks_spec, k.0, k.1, z, false, 0),
                forall|k: (i32, i32)|
                    topmost_true@.contains_key(k) <==> exists|j: int|
                        0 <= j < miss@.len() && #[trigger] in_bordered_chunk(miss@[j], chunk_edge, k.0 as int, k.1 as int),
                forall|k: (i32, i32)|
                    #[trigger] topmost_true@.contains_key(k) ==> topmost_true@[k] == topmost_solid_spec(blocks_spec, k.0, k.1, z, entity_mode, 0),
                blocks_spec == render_blocks@,
                tile_cache.fog@ == old(tile_cache).fog@,
                old_geom == old(tile_cache).geometry@,
                prebuild_step(old_geom, tile_cache.geometry@, added@, blocks_spec, chunk_edge, entity_mode, *layers, vis, view_z),
                added@.len() == built,
                built < PRE_BUILD_BUDGET,
                forall|i: int| 0 <= i < mi ==> #[trigger] complete_at(tile_cache.geometry@, miss@[i].key(), z, *layers),
                forall|c: (i32, i32), j: int| 0 <= j < zi && vis.contains(c) ==> #[trigger] complete_at(tile_cache.geometry@, c, up[j], *layers),
                forall|i: int| 0 <= i < visible@.len() ==> all_geometry_cached(tile_cache.geometry@, #[trigger] visible@[i].key(), z)
                    || miss@.contains(visible@[i]),
            decreases miss@.len() - mi,
        {
            let c = miss[mi];
            let ghost ci = mi as int;
            proof {
                lemma_built_topmost_agrees(topmost_false@, miss@, ci, blocks_spec, z, false, chunk_edge);
                lemma_built_topmost_agrees(topmost_true@, miss@, ci, blocks_spec, z, entity_mode, chunk_edge);
            }
            let mut l: u8 = 0;
            while l < 3
                invariant
                    l <= 3,
                blocks_spec == render_blocks_spec(terrain, view_mode),
                entity_mode == (view_mode == ViewMode::Entity),
                vis == invalidation@.visible_chunks_xy,
                    1 <= chunk_edge <= 0x4000,
                    view_z - 2 <= z <= view_z + 2,
                    invalidation@.dirty.is_empty() && !invalidation@.view_invalidated && !invalidation@.viewport_changed,
                    mi < miss@.len(),
                    c == miss@[ci],
                    ci == mi,
                    z == up[zi as int],
                    up == upcoming_levels(view_z),
                    zi < 4,
                    view_z + 3 <= i32::MAX,
                    vis.contains(c.key()),
                    chunk_fits(c, chunk_edge),
                    agree_on_chunk(topmost_false@, topmost_everywhere(blocks_spec, z, false), c, chunk_edge),
                    agree_on_chunk(topmost_true@, topmost_everywhere(blocks_spec, z, entity_mode), c, chunk_edge),
                    blocks_spec == render_blocks@,
                    tile_cache.fog@ == old(tile_cache).fog@,
                    old_geom == old(tile_cache).geometry@,
                    prebuild_step(old_geom, tile_cache.geometry@, added@, blocks_spec, chunk_edge, entity_mode, *layers, vis, view_z),
                    added@.len() == built,
                    built < PRE_BUILD_BUDGET,
                    forall|t: u8| t < l && #[trigger] prebuilt_layer_enabled(t, *layers) ==> tile_cache.geometry@.contains_key((c.x, c.y, z, t)),
                    forall|i: int| 0 <= i < mi ==> #[trigger] complete_at(tile_cache.geometry@, miss@[i].key(), z, *layers),
                    forall|cc: (i32, i32), j: int| 0 <= j < zi && vis.contains(cc) ==> #[trigger] complete_at(tile_cache.geometry@, cc, up[j], *layers),
                    forall|i: int| 0 <= i < visible@.len() ==> all_geometry_cached(tile_cache.geometry@, #[trigger] visible@[i].key(), z)
                        || miss@.contains(visible@[i]),
                decreases 3 - l,
            {
                let enabled = if l == 0 {
                    layers.show_floor
                } else if l == 1 {
                    layers.show_edge_shadow
                } else {
                    layers.show_ceiling_shadow
                };
                let key = (c.x, c.y, z, l);
                if enabled && !tile_cache.geometry.contains_key(&key) {
                    let geom = self::build_layer(l, c, z, chunk_edge, render_blocks, entity_mode, &topmost_false, &topmost_true);
                    let ghost before = tile_cache.geometry@;
                    proof {
                        self::lemma_layer_valid(l, geom@, c, z, chunk_edge, blocks_spec, entity_mode, topmost_false@, topmost_true@);
                        assert(upcoming_levels(view_z)[zi as int] == z);
                        assert(prebuilt_layer_enabled(l, *layers));
                        assert(valid_prebuilt(key, geom@, blocks_spec, chunk_edge, entity_mode, *layers, vis, view_z));
                        lemma_prebuild_insert(old_geom, before, added@, key, geom, blocks_spec, chunk_edge, entity_mode, *layers, vis, view_z);
                    }
                    tile_cache.geometry.insert(key, geom);
                    proof {
                        assert forall|i: int| 0 <= i < mi implies #[trigger] complete_at(tile_cache.geometry@, miss@[i].key(), z, *layers) by {
                            lemma_insert_keeps_complete(before, key, geom, miss@[i].key(), z, *layers);
                        }
                        assert forall|cc: (i32, i32), j: int| 0 <= j < zi && vis.contains(cc) implies #[trigger] complete_at(tile_cache.geometry@, cc, up[j], *layers) by {
                            lemma_insert_keeps_complete(before, key, geom, cc, up[j], *layers);
                        }
                        assert forall|i: int| 0 <= i < visible@.len() implies all_geometry_cached(tile_cache.geometry@, #[trigger] visible@[i].key(), z)
                            || miss@.contains(visible@[i]) by {
                            lemma_insert_keeps_complete(before, key, geom, visible@[i].key(), z, *layers);
                        }
                        added@ = added@.insert(key);
                    }
                    if built >= PRE_BUILD_BUDGET - 1 {
                        proof {
                            assert(prebuild_step(
                                old(tile_cache).geometry@,
                                tile_cache.geometry@,
                                added@,
                                render_blocks_spec(terrain, view_mode),
                                chunk_edge,
                                entity_mode_of(view_mode),
                                *layers,
                                invalidation@.visible_chunks_xy,
                                view_z,
                            ));
                        }
                        return;
                    }
                    built = built + 1;
                }
                l = l + 1;
            }
            proof {
                assert(complete_at(tile_cache.geometry@, miss@[mi as int].key(), z, *layers));
            }
            mi = mi + 1;
        }
        proof {
            assert forall|c: (i32, i32), j: int| 0 <= j < zi + 1 && vis.contains(c) implies #[trigger] complete_at(tile_cache.geometry@, c, up[j], *layers) by {
                if j == zi {
                    let i = choose|i: int| 0 <= i < visible@.len() && visible@[i].key() == c;
                    if !all_geometry_cached(tile_cache.geometry@, visible@[i].key(), z) {
                        let k = choose|k: int| 0 <= k < miss@.len() && miss@[k] == visible@[i];
                        assert(complete_at(tile_cache.geometry@, miss@[k].key(), z, *layers));
                    }
                }
            }
        }
        zi = zi + 1;
    }
}

} // verus!
