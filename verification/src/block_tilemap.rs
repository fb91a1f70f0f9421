//! One pass of the block-based tilemap: when the terrain or the fog
//! changed, which chunk layers to create, rebuild and remove around the
//! camera, and the tiles each gets.

use std::collections::{BTreeMap, BTreeSet};
use vstd::prelude::*;
use vstd::std_specs::btree::group_btree_axioms;
use vstd::laws_cmp::group_laws_cmp;

use crate::block_tiles::{
    BlockLayer, block_tile, build_ceiling_shadow_tile_data, build_chunk_tile_data, build_edge_shadow_tile_data,
    build_fog_tile_data, chunk_has_edge, fog_tile_spec, lists_chunk_tiles, tile_chunk_fits, tile_x, tile_y,
};
use crate::client_world::{FogData, TerrainConfig};
use crate::coords::{IVec2, TerrainBlocks, TerrainData, grid_fits};
use crate::geometry::{BlockType, Vec3u};
use crate::invalidation::{InvalidationModel, TileLayerDebugState, TilemapInvalidation, ViewMode};
use crate::render_patches::PatchTile;
use crate::tilemap::{active_chunks_xy, active_columns_spec, rendered_levels_spec, rendered_z_levels};

verus! {

broadcast use {
    group_btree_axioms,
    group_laws_cmp,
    crate::ordered::lemma_member_of_quad_listing,
    crate::ordered::lemma_member_of_pair_listing,
    crate::ordered::lemma_increasing_quads_distinct,
};

/// What a pass builds tiles from.
pub struct TileSources {
    pub blocks: Map<(i32, i32, i32), BlockType>,
    pub visible: Set<(i32, i32, i32)>,
    pub remembered: Set<(i32, i32, i32)>,
    pub view_z: i32,
    pub entity_mode: bool,
    pub depth_stack: bool,
    pub chunk_edge: u32,
}

/// The tile at `(lx, ly)` of chunk layer `k` (layers by order key: floor,
/// edge shadow, ceiling shadow, fog).
pub open spec fn layer_tile(s: TileSources, k: (i32, i32, i32, u8), lx: int, ly: int) -> Option<PatchTile> {
    let c = IVec2 { x: k.0, y: k.1 };
    let x = tile_x(c, s.chunk_edge, lx);
    let y = tile_y(c, s.chunk_edge, ly);
    if k.3 == 0 {
        block_tile(
            BlockLayer::Stone { z_offset: (k.2 - s.view_z) as i32, apply_depth_tint: s.depth_stack },
            s.blocks,
            x,
            y,
            k.2 as int,
        )
    } else if k.3 == 1 {
        block_tile(BlockLayer::Edge { unknown_is_solid: s.entity_mode }, s.blocks, x, y, k.2 as int)
    } else if k.3 == 2 {
        block_tile(BlockLayer::Ceiling { unknown_is_solid: s.entity_mode }, s.blocks, x, y, k.2 as int)
    } else {
        fog_tile_spec(s.visible, s.remembered, s.blocks, x, y, k.2, s.view_z)
    }
}

/// `tiles` are the tiles of chunk layer `k`.
pub open spec fn layer_tiles_ok(s: TileSources, k: (i32, i32, i32, u8), tiles: Seq<Option<PatchTile>>) -> bool {
    &&& tiles.len() == s.chunk_edge * s.chunk_edge
    &&& forall|i: int|
        0 <= i < tiles.len() ==> #[trigger] tiles[i] == layer_tile(
            s,
            k,
            i % (s.chunk_edge as int),
            i / (s.chunk_edge as int),
        )
}

/// Column `c` has an edge-shadow tile at level `z`.
pub open spec fn has_edge_at(s: TileSources, c: (i32, i32), z: int) -> bool {
    exists|lx: int, ly: int|
        0 <= lx < s.chunk_edge && 0 <= ly < s.chunk_edge && #[trigger] block_tile(
            BlockLayer::Edge { unknown_is_solid: s.entity_mode },
            s.blocks,
            tile_x(IVec2 { x: c.0, y: c.1 }, s.chunk_edge, lx),
            tile_y(IVec2 { x: c.0, y: c.1 }, s.chunk_edge, ly),
            z,
        ) is Some
}

/// The state a pass decides from.
pub struct TilemapPass {
    pub sources: TileSources,
    pub terrain_rebuild: bool,
    pub fog_rebuild: bool,
    pub show_floor: bool,
    pub show_edge_shadow: bool,
    pub show_ceiling_shadow: bool,
    pub show_fog: bool,
    pub levels: Seq<i32>,
    pub columns: Set<(i32, i32)>,
    pub existing: Set<(i32, i32, i32, u8)>,
}

/// Whether a missing chunk layer is created: a floor or edge shadow at each
/// drawn level (an edge shadow not under a drawn level with edges of its
/// own), a ceiling shadow at the view level (with the edge shadows), fog at
/// each drawn level.
pub open spec fn spawn_wanted(p: TilemapPass, k: (i32, i32, i32, u8)) -> bool {
    &&& p.columns.contains((k.0, k.1))
    &&& p.levels.contains(k.2)
    &&& !p.existing.contains(k)
    &&& if k.3 == 0 {
        p.terrain_rebuild && p.show_floor
    } else if k.3 == 1 {
        p.terrain_rebuild && p.show_edge_shadow && !(p.levels.contains((k.2 + 1) as i32) && has_edge_at(
            p.sources,
            (k.0, k.1),
            k.2 + 1,
        ))
    } else if k.3 == 2 {
        p.terrain_rebuild && p.show_edge_shadow && k.2 == p.sources.view_z
    } else if k.3 == 3 {
        (p.terrain_rebuild || p.fog_rebuild) && p.show_fog
    } else {
        false
    }
}

/// Whether an existing chunk layer is kept: its column and level are still
/// drawn and its layer is still shown there.
pub open spec fn kept(p: TilemapPass, k: (i32, i32, i32, u8)) -> bool {
    &&& p.columns.contains((k.0, k.1))
    &&& p.levels.contains(k.2)
    &&& if k.3 == 0 {
        p.show_floor
    } else if k.3 == 1 {
        p.show_edge_shadow
    } else if k.3 == 2 {
        p.show_ceiling_shadow && k.2 == p.sources.view_z
    } else {
        p.show_fog && p.levels.contains(k.2)
    }
    &&& (!p.fog_rebuild || k.3 != 3 || p.show_fog)
}

/// Whether an existing chunk layer gets new tiles this pass.
pub open spec fn needs_update(p: TilemapPass, k: (i32, i32, i32, u8)) -> bool {
    if k.3 == 0 {
        p.terrain_rebuild && p.show_floor
    } else if k.3 == 1 {
        p.terrain_rebuild && p.show_edge_shadow
    } else if k.3 == 2 {
        p.terrain_rebuild && p.show_ceiling_shadow
    } else {
        (p.terrain_rebuild || p.fog_rebuild) && p.show_fog
    }
}

/// The sources a pass's exec arguments stand for.
pub open spec fn sources_of(
    blocks: TerrainBlocks,
    fog: FogData,
    view_z: i32,
    entity_mode: bool,
    depth_stack: bool,
    chunk_edge: u32,
) -> TileSources {
    TileSources {
        blocks: blocks@,
        visible: fog.visible@,
        remembered: fog.memory@.dom(),
        view_z,
        entity_mode,
        depth_stack,
        chunk_edge,
    }
}

/// The tiles of chunk layer `k`.
fn build_layer_tiles(
    k: (i32, i32, i32, u8),
    blocks: &TerrainBlocks,
    fog: &FogData,
    view_z: i32,
    entity_mode: bool,
    depth_stack: bool,
    chunk_edge: u32,
) -> (r: Vec<Option<PatchTile>>)
    requires
        tile_chunk_fits(IVec2 { x: k.0, y: k.1 }, chunk_edge),
        k.2 < i32::MAX,
        i32::MIN <= k.2 - view_z <= i32::MAX,
    ensures
        layer_tiles_ok(sources_of(*blocks, *fog, view_z, entity_mode, depth_stack, chunk_edge), k, r@),
{
    let ghost s = sources_of(*blocks, *fog, view_z, entity_mode, depth_stack, chunk_edge);
    let c = IVec2 { x: k.0, y: k.1 };
    if k.3 == 0 {
        build_chunk_tile_data(c, k.2, chunk_edge, blocks, k.2 - view_z, depth_stack)
    } else if k.3 == 1 {
        build_edge_shadow_tile_data(c, k.2, chunk_edge, blocks, entity_mode)
    } else if k.3 == 2 {
        build_ceiling_shadow_tile_data(c, k.2, chunk_edge, blocks, entity_mode)
    } else {
        build_fog_tile_data(c, k.2, view_z, chunk_edge, blocks, fog)
    }
}


/// The exec arguments of a pass stand for `p`.
pub open spec fn pass_matches(
    p: TilemapPass,
    blocks: TerrainBlocks,
    fog: FogData,
    view_z: i32,
    entity_mode: bool,
    depth_stack: bool,
    chunk_edge: u32,
    levels: Seq<i32>,
    existing: Set<(i32, i32, i32, u8)>,
) -> bool {
    &&& p.sources == sources_of(blocks, fog, view_z, entity_mode, depth_stack, chunk_edge)
    &&& p.levels == levels
    &&& p.existing == existing
}

/// Every drawn level lies in `view_z - 5 ..= view_z`, below `i32::MAX`.
pub open spec fn levels_near(levels: Seq<i32>, view_z: i32) -> bool {
    &&& view_z < i32::MAX
    &&& forall|t: int| 0 <= t < levels.len() ==> view_z - 5 <= #[trigger] levels[t] <= view_z
}

/// Every value of `m` holds the tiles of its key.
pub open spec fn tiles_ok(s: TileSources, m: Map<(i32, i32, i32, u8), Vec<Option<PatchTile>>>) -> bool {
    forall|k: (i32, i32, i32, u8)| #[trigger] m.contains_key(k) ==> layer_tiles_ok(s, k, m[k]@)
}

fn contains_level(levels: &Vec<i32>, z: i32) -> (r: bool)
    ensures
        r == levels@.contains(z),
{
    let n = levels.len();
    let mut i: usize = 0;
    while i < n
        invariant
            n == levels@.len(),
            i <= n,
            forall|t: int| 0 <= t < i ==> levels@[t] != z,
        decreases n - i,
    {
        if levels[i] == z {
            return true;
        }
        i = i + 1;
    }
    false
}

/// Create the missing wanted layers of column `c` at level `z`.
fn spawn_level(
    c: (i32, i32),
    z: i32,
    p: Ghost<TilemapPass>,
    terrain_rebuild: bool,
    fog_rebuild: bool,
    show_floor: bool,
    show_edge_shadow: bool,
    show_fog: bool,
    levels: &Vec<i32>,
    existing: &BTreeSet<(i32, i32, i32, u8)>,
    blocks: &TerrainBlocks,
    fog: &FogData,
    view_z: i32,
    entity_mode: bool,
    depth_stack: bool,
    chunk_edge: u32,
    spawn: &mut BTreeMap<(i32, i32, i32, u8), Vec<Option<PatchTile>>>,
)
    requires
        pass_matches(p@, *blocks, *fog, view_z, entity_mode, depth_stack, chunk_edge, levels@, existing@),
        p@.terrain_rebuild == terrain_rebuild,
        p@.fog_rebuild == fog_rebuild,
        p@.show_floor == show_floor,
        p@.show_edge_shadow == show_edge_shadow,
        p@.show_fog == show_fog,
        p@.columns.contains(c),
        levels@.contains(z),
        levels_near(levels@, view_z),
        tile_chunk_fits(IVec2 { x: c.0, y: c.1 }, chunk_edge),
        tiles_ok(p@.sources, old(spawn)@),
    ensures
        tiles_ok(p@.sources, final(spawn)@),
        forall|k: (i32, i32, i32, u8)| #[trigger]
            final(spawn)@.contains_key(k) <==> old(spawn)@.contains_key(k) || (k.0 == c.0 && k.1 == c.1 && k.2 == z
                && spawn_wanted(p@, k)),
{
    let ghost s = p@.sources;
    proof {
        let t = choose|t: int| 0 <= t < levels@.len() && levels@[t] == z;
        assert(view_z - 5 <= levels@[t] <= view_z);
    }
    let k0 = (c.0, c.1, z, 0u8);
    let k1 = (c.0, c.1, z, 1u8);
    let k2 = (c.0, c.1, z, 2u8);
    let k3 = (c.0, c.1, z, 3u8);
    let mut want0 = false;
    let mut want1 = false;
    let mut want2 = false;
    let mut want3 = false;
    if terrain_rebuild {
        if show_floor && !existing.contains(&k0) {
            let tiles = build_layer_tiles(k0, blocks, fog, view_z, entity_mode, depth_stack, chunk_edge);
            spawn.insert(k0, tiles);
            want0 = true;
        }
        if show_edge_shadow {
            if !existing.contains(&k1) {
                let above = z + 1;
                let edge_above = if contains_level(levels, above) {
                    chunk_has_edge(IVec2 { x: c.0, y: c.1 }, above, chunk_edge, blocks, entity_mode)
                } else {
                    false
                };
                if !edge_above {
                    let tiles = build_layer_tiles(k1, blocks, fog, view_z, entity_mode, depth_stack, chunk_edge);
                    spawn.insert(k1, tiles);
                    want1 = true;
                }
            }
            if z == view_z && !existing.contains(&k2) {
                let tiles = build_layer_tiles(k2, blocks, fog, view_z, entity_mode, depth_stack, chunk_edge);
                spawn.insert(k2, tiles);
                want2 = true;
            }
        }
    }
    if (terrain_rebuild || fog_rebuild) && show_fog && !existing.contains(&k3) {
        let tiles = build_layer_tiles(k3, blocks, fog, view_z, entity_mode, depth_stack, chunk_edge);
        spawn.insert(k3, tiles);
        want3 = true;
    }
    proof {
        assert(want0 == spawn_wanted(p@, k0));
        assert(want1 == spawn_wanted(p@, k1));
        assert(want2 == spawn_wanted(p@, k2));
        assert(want3 == spawn_wanted(p@, k3));
        assert forall|k: (i32, i32, i32, u8)| #[trigger]
            spawn@.contains_key(k) <==> old(spawn)@.contains_key(k) || (k.0 == c.0 && k.1 == c.1 && k.2 == z
                && spawn_wanted(p@, k)) by {
            if k.0 == c.0 && k.1 == c.1 && k.2 == z && k.3 > 3 {
                assert(!spawn_wanted(p@, k));
            }
        }
    }
}

/// Create the missing wanted layers of column `c` at every drawn level.
fn spawn_column(
    c: (i32, i32),
    p: Ghost<TilemapPass>,
    terrain_rebuild: bool,
    fog_rebuild: bool,
    show_floor: bool,
    show_edge_shadow: bool,
    show_fog: bool,
    levels: &Vec<i32>,
    existing: &BTreeSet<(i32, i32, i32, u8)>,
    blocks: &TerrainBlocks,
    fog: &FogData,
    view_z: i32,
    entity_mode: bool,
    depth_stack: bool,
    chunk_edge: u32,
    spawn: &mut BTreeMap<(i32, i32, i32, u8), Vec<Option<PatchTile>>>,
)
    requires
        pass_matches(p@, *blocks, *fog, view_z, entity_mode, depth_stack, chunk_edge, levels@, existing@),
        p@.terrain_rebuild == terrain_rebuild,
        p@.fog_rebuild == fog_rebuild,
        p@.show_floor == show_floor,
        p@.show_edge_shadow == show_edge_shadow,
        p@.show_fog == show_fog,
        p@.columns.contains(c),
        levels_near(levels@, view_z),
        tile_chunk_fits(IVec2 { x: c.0, y: c.1 }, chunk_edge),
        tiles_ok(p@.sources, old(spawn)@),
    ensures
        tiles_ok(p@.sources, final(spawn)@),
        forall|k: (i32, i32, i32, u8)| #[trigger]
            final(spawn)@.contains_key(k) <==> old(spawn)@.contains_key(k) || (k.0 == c.0 && k.1 == c.1
                && spawn_wanted(p@, k)),
{
    let n = levels.len();
    let mut j: usize = 0;
    while j < n
        invariant
            n == levels@.len(),
            j <= n,
            pass_matches(p@, *blocks, *fog, view_z, entity_mode, depth_stack, chunk_edge, levels@, existing@),
            p@.terrain_rebuild == terrain_rebuild,
            p@.fog_rebuild == fog_rebuild,
            p@.show_floor == show_floor,
            p@.show_edge_shadow == show_edge_shadow,
            p@.show_fog == show_fog,
            p@.columns.contains(c),
            levels_near(levels@, view_z),
            tile_chunk_fits(IVec2 { x: c.0, y: c.1 }, chunk_edge),
            tiles_ok(p@.sources, spawn@),
            forall|k: (i32, i32, i32, u8)| #[trigger]
                spawn@.contains_key(k) <==> old(spawn)@.contains_key(k) || (k.0 == c.0 && k.1 == c.1 && (exists|t: int|
                    0 <= t < j && levels@[t] == k.2) && spawn_wanted(p@, k)),
        decreases n - j,
    {
        let z = levels[j];
        spawn_level(
            c,
            z,
            p,
            terrain_rebuild,
            fog_rebuild,
            show_floor,
            show_edge_shadow,
            show_fog,
            levels,
            existing,
            blocks,
            fog,
            view_z,
            entity_mode,
            depth_stack,
            chunk_edge,
            spawn,
        );
        proof {
            assert forall|k: (i32, i32, i32, u8)| #[trigger]
                spawn@.contains_key(k) <==> old(spawn)@.contains_key(k) || (k.0 == c.0 && k.1 == c.1 && (exists|t: int|
                    0 <= t < j + 1 && levels@[t] == k.2) && spawn_wanted(p@, k)) by {
                if k.2 == z {
                    assert(levels@[j as int] == k.2);
                }
                if (exists|t: int| 0 <= t < j + 1 && levels@[t] == k.2) && k.2 != z {
                    let t = choose|t: int| 0 <= t < j + 1 && levels@[t] == k.2;
                    assert(t < j);
                }
            }
        }
        j = j + 1;
    }
}


/// Drawn tiles of a chunk layer.
pub open spec fn drawn_count(tiles: Seq<Option<PatchTile>>) -> nat
    decreases tiles.len(),
{
    if tiles.len() == 0 {
        0
    } else {
        drawn_count(tiles.drop_last()) + if tiles.last() is Some {
            1nat
        } else {
            0nat
        }
    }
}

/// Drawn tiles over the layers `ks` of `m`.
pub open spec fn drawn_total(ks: Seq<(i32, i32, i32, u8)>, m: Map<(i32, i32, i32, u8), Vec<Option<PatchTile>>>) -> nat
    decreases ks.len(),
{
    if ks.len() == 0 {
        0
    } else {
        drawn_total(ks.drop_last(), m) + drawn_count(m[ks.last()]@)
    }
}

/// A count, saturated at `usize::MAX`.
pub open spec fn sat_usize(n: int) -> usize {
    if n > usize::MAX {
        usize::MAX
    } else {
        n as usize
    }
}

proof fn lemma_drawn_total_frame(
    ks: Seq<(i32, i32, i32, u8)>,
    m1: Map<(i32, i32, i32, u8), Vec<Option<PatchTile>>>,
    m2: Map<(i32, i32, i32, u8), Vec<Option<PatchTile>>>,
)
    requires
        forall|i: int| 0 <= i < ks.len() ==> m1[#[trigger] ks[i]] == m2[ks[i]],
    ensures
        drawn_total(ks, m1) == drawn_total(ks, m2),
    decreases ks.len(),
{
    if ks.len() > 0 {
        lemma_drawn_total_frame(ks.drop_last(), m1, m2);
        assert(m1[ks[ks.len() - 1]] == m2[ks[ks.len() - 1]]);
    }
}

fn count_drawn(tiles: &Vec<Option<PatchTile>>) -> (r: usize)
    ensures
        r == drawn_count(tiles@),
{
    let n = tiles.len();
    let mut c: usize = 0;
    let mut i: usize = 0;
    while i < n
        invariant
            n == tiles@.len(),
            i <= n,
            c <= i,
            c == drawn_count(tiles@.subrange(0, i as int)),
        decreases n - i,
    {
        proof {
            assert(tiles@.subrange(0, i + 1).drop_last() =~= tiles@.subrange(0, i as int));
        }
        if tiles[i].is_some() {
            c = c + 1;
        }
        i = i + 1;
    }
    proof {
        assert(tiles@.subrange(0, n as int) =~= tiles@);
    }
    c
}


/// Which drawn chunk layers are removed, and the new tiles of those rebuilt,
/// with the drawn tiles among them (saturated).
fn rebuild_existing(
    p: Ghost<TilemapPass>,
    xy: &BTreeSet<(i32, i32)>,
    levels: &Vec<i32>,
    existing: &BTreeSet<(i32, i32, i32, u8)>,
    blocks: &TerrainBlocks,
    fog_view: &FogData,
    view_z: i32,
    entity_mode: bool,
    depth_stack: bool,
    chunk_edge: u32,
    terrain_rebuild: bool,
    fog_rebuild: bool,
    show_floor: bool,
    show_edge_shadow: bool,
    show_ceiling_shadow: bool,
    show_fog: bool,
    world_chunks: Ghost<Vec3u>,
) -> (r: (BTreeSet<(i32, i32, i32, u8)>, BTreeMap<(i32, i32, i32, u8), Vec<Option<PatchTile>>>, usize))
    requires
        pass_matches(p@, *blocks, *fog_view, view_z, entity_mode, depth_stack, chunk_edge, levels@, existing@),
        p@.terrain_rebuild == terrain_rebuild,
        p@.fog_rebuild == fog_rebuild,
        p@.show_floor == show_floor,
        p@.show_edge_shadow == show_edge_shadow,
        p@.show_ceiling_shadow == show_ceiling_shadow,
        p@.show_fog == show_fog,
        p@.columns == xy@,
        levels_near(levels@, view_z),
        pass_fits(p@, world_chunks@, chunk_edge, view_z),
    ensures
        forall|q: (i32, i32, i32, u8)| #[trigger] r.0@.contains(q) <==> existing@.contains(q) && !kept(p@, q),
        forall|q: (i32, i32, i32, u8)| #[trigger] r.1@.contains_key(q) <==> existing@.contains(q) && needs_update(p@, q),
        tiles_ok(p@.sources, r.1@),
        exists|ks: Seq<(i32, i32, i32, u8)>| #[trigger] ks.no_duplicates() && ks.to_set() == r.1@.dom()
            && r.2 == sat_usize(drawn_total(ks, r.1@) as int),
{
    let ghost p = p@;
    let mut despawn: BTreeSet<(i32, i32, i32, u8)> = BTreeSet::new();
    let mut update: BTreeMap<(i32, i32, i32, u8), Vec<Option<PatchTile>>> = BTreeMap::new();
    let mut drawn: usize = 0;
    let ghost mut ks: Seq<(i32, i32, i32, u8)> = Seq::empty();
    let ghost mut seen: Set<(i32, i32, i32, u8)> = Set::empty();
    for k in it: existing.iter()
        invariant
            pass_matches(p, *blocks, *fog_view, view_z, entity_mode, depth_stack, chunk_edge, levels@, existing@),
            p.terrain_rebuild == terrain_rebuild,
            p.fog_rebuild == fog_rebuild,
            p.show_floor == show_floor,
            p.show_edge_shadow == show_edge_shadow,
            p.show_ceiling_shadow == show_ceiling_shadow,
            p.show_fog == show_fog,
            p.columns == xy@,
            levels_near(levels@, view_z),
            pass_fits(p, world_chunks@, chunk_edge, view_z),
            forall|i: int| 0 <= i < it.seq().len() ==> existing@.contains(*#[trigger] it.seq()[i]),
            forall|q: (i32, i32, i32, u8)| #[trigger] seen.contains(q) ==> existing@.contains(q),
            forall|q: (i32, i32, i32, u8)| #[trigger]
                existing@.contains(q) ==> seen.contains(q) || exists|i: int| it.index() <= i < it.seq().len() && *it.seq()[i] == q,
            forall|i: int| it.index() <= i < it.seq().len() ==> !seen.contains(*#[trigger] it.seq()[i]),
            forall|i: int, j: int| 0 <= i < j < it.seq().len() ==> *it.seq()[i] != *it.seq()[j],
            forall|q: (i32, i32, i32, u8)| #[trigger] despawn@.contains(q) <==> seen.contains(q) && !kept(p, q),
            forall|q: (i32, i32, i32, u8)| #[trigger] update@.contains_key(q) <==> seen.contains(q) && needs_update(p, q),
            tiles_ok(p.sources, update@),
            ks.no_duplicates(),
            forall|q: (i32, i32, i32, u8)| ks.contains(q) <==> update@.contains_key(q),
            drawn == sat_usize(drawn_total(ks, update@) as int),
    {
        let key = *k;
        let ghost n = it.index();
        proof {
            assert(existing@.contains(key));
            assert(!seen.contains(key));
        }
        let in_xy = xy.contains(&(key.0, key.1));
        let in_z = contains_level(&levels, key.2);
        let layer_ok = if key.3 == 0 {
            show_floor
        } else if key.3 == 1 {
            show_edge_shadow
        } else if key.3 == 2 {
            show_ceiling_shadow && key.2 == view_z
        } else {
            show_fog && in_z
        };
        let fog_ok = !fog_rebuild || key.3 != 3 || show_fog;
        if !(in_xy && in_z && layer_ok && fog_ok) {
            despawn.insert(key);
        }
        let needs = if key.3 == 0 {
            terrain_rebuild && show_floor
        } else if key.3 == 1 {
            terrain_rebuild && show_edge_shadow
        } else if key.3 == 2 {
            terrain_rebuild && show_ceiling_shadow
        } else {
            (terrain_rebuild || fog_rebuild) && show_fog
        };
        if needs {
            let tiles = build_layer_tiles(key, blocks, fog_view, view_z, entity_mode, depth_stack, chunk_edge);
            let d = count_drawn(&tiles);
            let ghost before = update@;
            let ghost prev = ks;
            update.insert(key, tiles);
            proof {
                assert(!prev.contains(key));
                ks = ks.push(key);
                assert(ks.drop_last() =~= prev);
                assert forall|i: int| 0 <= i < prev.len() implies before[#[trigger] prev[i]] == update@[prev[i]] by {
                    assert(prev.contains(prev[i]));
                }
                lemma_drawn_total_frame(prev, before, update@);
                assert forall|a: int, b: int| 0 <= a < b < ks.len() implies ks[a] != ks[b] by {
                    if b == prev.len() {
                        assert(prev.contains(prev[a]));
                    }
                }
                assert forall|q: (i32, i32, i32, u8)| ks.contains(q) <==> update@.contains_key(q) by {
                    if q == key {
                        assert(ks[prev.len() as int] == key);
                    } else if ks.contains(q) {
                        let j = choose|j: int| 0 <= j < ks.len() && ks[j] == q;
                        assert(j < prev.len());
                        assert(prev[j] == q);
                        assert(prev.contains(q));
                        assert(before.contains_key(q));
                    } else if update@.contains_key(q) {
                        assert(before.contains_key(q));
                        assert(prev.contains(q));
                        let j = choose|j: int| 0 <= j < prev.len() && prev[j] == q;
                        assert(ks[j] == q);
                    }
                }
            }
            drawn = drawn.saturating_add(d);
        }
        proof {
            seen = seen.insert(key);
            assert forall|q: (i32, i32, i32, u8)| #[trigger] existing@.contains(q) implies seen.contains(q) || exists|i: int|
                n + 1 <= i < it.seq().len() && *it.seq()[i] == q by {
                if !seen.contains(q) {
                    let i = choose|i: int| n <= i < it.seq().len() && *it.seq()[i] == q;
                    assert(i != n);
                }
            }
            assert forall|i: int| n + 1 <= i < it.seq().len() implies !seen.contains(*#[trigger] it.seq()[i]) by {
                assert(*it.seq()[i] != *it.seq()[n]);
            }
        }
    }
    proof {
        assert(seen =~= existing@);
        assert(ks.to_set() =~= update@.dom());
    }
    (despawn, update, drawn)
}


/// Create the missing wanted layers of every active column.
fn spawn_all(
    p: Ghost<TilemapPass>,
    xy: &BTreeSet<(i32, i32)>,
    levels: &Vec<i32>,
    existing: &BTreeSet<(i32, i32, i32, u8)>,
    blocks: &TerrainBlocks,
    fog_view: &FogData,
    view_z: i32,
    entity_mode: bool,
    depth_stack: bool,
    chunk_edge: u32,
    terrain_rebuild: bool,
    fog_rebuild: bool,
    show_floor: bool,
    show_edge_shadow: bool,
    show_fog: bool,
    world_chunks: Ghost<Vec3u>,
) -> (r: BTreeMap<(i32, i32, i32, u8), Vec<Option<PatchTile>>>)
    requires
        pass_matches(p@, *blocks, *fog_view, view_z, entity_mode, depth_stack, chunk_edge, levels@, existing@),
        p@.terrain_rebuild == terrain_rebuild,
        p@.fog_rebuild == fog_rebuild,
        p@.show_floor == show_floor,
        p@.show_edge_shadow == show_edge_shadow,
        p@.show_fog == show_fog,
        p@.columns == xy@,
        levels_near(levels@, view_z),
        pass_fits(p@, world_chunks@, chunk_edge, view_z),
    ensures
        forall|k: (i32, i32, i32, u8)| #[trigger] r@.contains_key(k) <==> spawn_wanted(p@, k),
        tiles_ok(p@.sources, r@),
{
    let ghost p = p@;
    let mut spawn: BTreeMap<(i32, i32, i32, u8), Vec<Option<PatchTile>>> = BTreeMap::new();
    let ghost mut done: Set<(i32, i32)> = Set::empty();
    for c in it: xy.iter()
        invariant
            pass_matches(p, *blocks, *fog_view, view_z, entity_mode, depth_stack, chunk_edge, levels@, existing@),
            p.terrain_rebuild == terrain_rebuild,
            p.fog_rebuild == fog_rebuild,
            p.show_floor == show_floor,
            p.show_edge_shadow == show_edge_shadow,
            p.show_fog == show_fog,
            p.columns == xy@,
            levels_near(levels@, view_z),
            pass_fits(p, world_chunks@, chunk_edge, view_z),
            forall|i: int| 0 <= i < it.seq().len() ==> xy@.contains(*#[trigger] it.seq()[i]),
            forall|q: (i32, i32)| #[trigger] done.contains(q) ==> xy@.contains(q),
            forall|q: (i32, i32)| #[trigger]
                xy@.contains(q) ==> done.contains(q) || exists|i: int| it.index() <= i < it.seq().len() && *it.seq()[i] == q,
            tiles_ok(p.sources, spawn@),
            forall|k: (i32, i32, i32, u8)| #[trigger]
                spawn@.contains_key(k) <==> done.contains((k.0, k.1)) && spawn_wanted(p, k),
    {
        let ghost n = it.index();
        let col = *c;
        spawn_column(
            col,
            Ghost(p),
            terrain_rebuild,
            fog_rebuild,
            show_floor,
            show_edge_shadow,
            show_fog,
            &levels,
            existing,
            blocks,
            fog_view,
            view_z,
            entity_mode,
            depth_stack,
            chunk_edge,
            &mut spawn,
        );
        proof {
            done = done.insert(col);
            assert forall|q: (i32, i32)| #[trigger] xy@.contains(q) implies done.contains(q) || exists|i: int|
                n + 1 <= i < it.seq().len() && *it.seq()[i] == q by {
                if !done.contains(q) {
                    let i = choose|i: int| n <= i < it.seq().len() && *it.seq()[i] == q;
                    assert(i != n);
                }
            }
        }
    }
    proof {
        assert(done =~= xy@);
    }

    spawn
}

/// The pass's chunk count.
fn pass_chunk_count(
    p: Ghost<TilemapPass>,
    columns: usize,
    level_count: usize,
    terrain_rebuild: bool,
    fog_rebuild: bool,
    show_floor: bool,
    show_edge_shadow: bool,
    show_ceiling_shadow: bool,
    show_fog: bool,
) -> (r: usize)
    requires
        columns == p@.columns.len(),
        level_count == p@.levels.len(),
        p@.terrain_rebuild == terrain_rebuild,
        p@.fog_rebuild == fog_rebuild,
        p@.show_floor == show_floor,
        p@.show_edge_shadow == show_edge_shadow,
        p@.show_ceiling_shadow == show_ceiling_shadow,
        p@.show_fog == show_fog,
        chunk_count_spec(p@) <= usize::MAX,
    ensures
        r == chunk_count_spec(p@),
{
    let ghost p = p@;
    let mut chunk_count: usize = 0;
    proof {
        assert(0 <= columns * level_count) by (nonlinear_arith);
    }
    if terrain_rebuild {
        if show_floor {
            chunk_count = chunk_count + columns * level_count;
        }
        if show_edge_shadow {
            chunk_count = chunk_count + columns * level_count;
        }
        if show_ceiling_shadow {
            chunk_count = chunk_count + columns;
        }
    }
    if (terrain_rebuild || fog_rebuild) && show_fog {
        chunk_count = chunk_count + columns * level_count;
    }
    chunk_count
}

/// What a pass asks the renderer to do: create `spawn` (keys not yet
/// drawn), give `update` (drawn keys) new tiles, remove `despawn`; with
/// the pass's chunk count and the drawn tiles among the updates.
#[derive(Debug, Clone)]
pub struct TilemapProjection {
    pub spawn: BTreeMap<(i32, i32, i32, u8), Vec<Option<PatchTile>>>,
    pub update: BTreeMap<(i32, i32, i32, u8), Vec<Option<PatchTile>>>,
    pub despawn: BTreeSet<(i32, i32, i32, u8)>,
    pub chunk_count: usize,
    pub non_empty_tile_count: usize,
}

/// The pass the arguments describe.
pub open spec fn pass_of(
    replay_active: bool,
    streamed: Option<Set<(i32, i32, i32)>>,
    view_z: i32,
    view_mode: ViewMode,
    layers: TileLayerDebugState,
    config: TerrainConfig,
    terrain: TerrainData,
    fog: FogData,
    terrain_rebuild: bool,
    fog_rebuild: bool,
    existing: Set<(i32, i32, i32, u8)>,
) -> TilemapPass {
    let entity = view_mode == ViewMode::Entity;
    TilemapPass {
        sources: sources_of(
            if entity { terrain.blocks } else { terrain.source_blocks },
            fog,
            view_z,
            entity,
            layers.show_depth_stack,
            config.chunk_edge,
        ),
        terrain_rebuild,
        fog_rebuild,
        show_floor: layers.show_floor,
        show_edge_shadow: layers.show_edge_shadow,
        show_ceiling_shadow: layers.show_ceiling_shadow,
        show_fog: entity && layers.show_fog_shadow,
        levels: rendered_levels_spec(view_z, layers.show_depth_stack),
        columns: Set::new(|c: (i32, i32)| active_columns_spec(replay_active, config.world_chunks, streamed, c)),
        existing,
    }
}

/// The pass's chunk count: floors and edge shadows at every drawn level of
/// every column, one ceiling shadow per column, and fog at every drawn level.
pub open spec fn chunk_count_spec(p: TilemapPass) -> int {
    let per = p.columns.len() * p.levels.len();
    (if p.terrain_rebuild {
        (if p.show_floor { per } else { 0 }) + (if p.show_edge_shadow { per } else { 0 }) + (if p.show_ceiling_shadow {
            p.columns.len() as int
        } else {
            0
        })
    } else {
        0
    }) + (if (p.terrain_rebuild || p.fog_rebuild) && p.show_fog {
        per
    } else {
        0
    })
}

/// The pass can be carried out in `i32` and `usize`.
pub open spec fn pass_fits(p: TilemapPass, world_chunks: Vec3u, chunk_edge: u32, view_z: i32) -> bool {
    &&& grid_fits(world_chunks)
    &&& view_z - 5 >= i32::MIN
    &&& view_z < i32::MAX
    &&& forall|c: (i32, i32)| #[trigger] p.columns.contains(c) ==> tile_chunk_fits(IVec2 { x: c.0, y: c.1 }, chunk_edge)
    &&& forall|k: (i32, i32, i32, u8)| #[trigger]
        p.existing.contains(k) ==> k.3 <= 3 && tile_chunk_fits(IVec2 { x: k.0, y: k.1 }, chunk_edge) && k.2 < i32::MAX
            && i32::MIN <= k.2 - view_z <= i32::MAX
    &&& chunk_count_spec(p) <= usize::MAX
}

pub open spec fn opt_set(s: Option<&BTreeSet<(i32, i32, i32)>>) -> Option<Set<(i32, i32, i32)>> {
    match s {
        Some(t) => Some(t@),
        None => None,
    }
}

/// One pass of the block-based tilemap. A change of view level, view mode
/// or shown layers makes both terrain and fog dirty and invalidates the
/// view. With nothing dirty, or no chunk edge, nothing is done. Otherwise
/// the missing wanted chunk layers are created, the drawn layers that are
/// no longer wanted removed, the drawn layers of dirty kinds rebuilt, and
/// both dirty marks cleared.
pub fn project_world_to_tilemap(
    replay_active: bool,
    streamed: Option<&BTreeSet<(i32, i32, i32)>>,
    view_z: i32,
    view_z_changed: bool,
    view_mode: ViewMode,
    view_mode_changed: bool,
    tile_layer_debug_state: &TileLayerDebugState,
    layers_changed: bool,
    config: &TerrainConfig,
    terrain: &TerrainData,
    terrain_dirty: &mut bool,
    fog: &mut FogData,
    existing: &BTreeSet<(i32, i32, i32, u8)>,
    invalidation: &mut TilemapInvalidation,
) -> (r: Option<TilemapProjection>)
    requires
        ({
            let changed = view_z_changed || view_mode_changed || layers_changed;
            let tr = *old(terrain_dirty) || changed;
            let fr = old(fog).dirty || changed;
            (tr || fr) && config.chunk_edge != 0 ==> pass_fits(
                pass_of(
                    replay_active,
                    opt_set(streamed),
                    view_z,
                    view_mode,
                    *tile_layer_debug_state,
                    *config,
                    *terrain,
                    *old(fog),
                    tr,
                    fr,
                    existing@,
                ),
                config.world_chunks,
                config.chunk_edge,
                view_z,
            )
        }),
    ensures
        final(fog).visible@ == old(fog).visible@,
        final(fog).memory@ == old(fog).memory@,
        ({
            let changed = view_z_changed || view_mode_changed || layers_changed;
            let tr = *old(terrain_dirty) || changed;
            let fr = old(fog).dirty || changed;
            let p = pass_of(
                replay_active,
                opt_set(streamed),
                view_z,
                view_mode,
                *tile_layer_debug_state,
                *config,
                *terrain,
                *old(fog),
                tr,
                fr,
                existing@,
            );
            &&& final(invalidation)@ == if changed {
                InvalidationModel { view_invalidated: true, ..old(invalidation)@ }
            } else {
                old(invalidation)@
            }
            &&& (!tr && !fr) || config.chunk_edge == 0 ==> r is None && *final(terrain_dirty) == tr
                && final(fog).dirty == fr
            &&& (tr || fr) && config.chunk_edge != 0 ==> (r matches Some(plan) && {
                &&& !*final(terrain_dirty)
                &&& !final(fog).dirty
                &&& forall|k: (i32, i32, i32, u8)| #[trigger]
                    plan.spawn@.contains_key(k) <==> spawn_wanted(p, k)
                &&& tiles_ok(p.sources, plan.spawn@)
                &&& forall|k: (i32, i32, i32, u8)| #[trigger]
                    plan.update@.contains_key(k) <==> existing@.contains(k) && needs_update(p, k)
                &&& tiles_ok(p.sources, plan.update@)
                &&& forall|k: (i32, i32, i32, u8)| #[trigger]
                    plan.despawn@.contains(k) <==> existing@.contains(k) && !kept(p, k)
                &&& plan.chunk_count == chunk_count_spec(p)
                &&& exists|ks: Seq<(i32, i32, i32, u8)>| #[trigger] ks.no_duplicates() && ks.to_set() == plan.update@.dom()
                    && plan.non_empty_tile_count == sat_usize(drawn_total(ks, plan.update@) as int)
            })
        }),
{
    let changed = view_z_changed || view_mode_changed || layers_changed;
    if changed {
        *terrain_dirty = true;
        fog.dirty = true;
        invalidation.invalidate_view();
    }
    if !*terrain_dirty && !fog.dirty {
        return None;
    }
    let terrain_rebuild = *terrain_dirty;
    let fog_rebuild = fog.dirty;
    let chunk_edge = config.chunk_edge;
    if chunk_edge == 0 {
        return None;
    }
    let ghost p = pass_of(
        replay_active,
        opt_set(streamed),
        view_z,
        view_mode,
        *tile_layer_debug_state,
        *config,
        *terrain,
        *fog,
        terrain_rebuild,
        fog_rebuild,
        existing@,
    );
    let xy = active_chunks_xy(replay_active, config.world_chunks, streamed);
    proof {
        assert(xy@ =~= p.columns);
    }
    let entity_mode = view_mode == ViewMode::Entity;
    let blocks = if entity_mode { &terrain.blocks } else { &terrain.source_blocks };
    let show_floor = tile_layer_debug_state.show_floor;
    let show_edge_shadow = tile_layer_debug_state.show_edge_shadow;
    let show_ceiling_shadow = tile_layer_debug_state.show_ceiling_shadow;
    let show_fog = entity_mode && tile_layer_debug_state.show_fog_shadow;
    let depth_stack = tile_layer_debug_state.show_depth_stack;
    let levels = rendered_z_levels(view_z, depth_stack);
    proof {
        assert(levels_near(levels@, view_z));
    }
    let fog_view: &FogData = fog;

    let spawn = spawn_all(
        Ghost(p),
        &xy,
        &levels,
        existing,
        blocks,
        fog_view,
        view_z,
        entity_mode,
        depth_stack,
        chunk_edge,
        terrain_rebuild,
        fog_rebuild,
        show_floor,
        show_edge_shadow,
        show_fog,
        Ghost(config.world_chunks),
    );
    let (despawn, update, drawn) = rebuild_existing(
        Ghost(p),
        &xy,
        &levels,
        existing,
        blocks,
        fog_view,
        view_z,
        entity_mode,
        depth_stack,
        chunk_edge,
        terrain_rebuild,
        fog_rebuild,
        show_floor,
        show_edge_shadow,
        show_ceiling_shadow,
        show_fog,
        Ghost(config.world_chunks),
    );
    let chunk_count = pass_chunk_count(
        Ghost(p),
        xy.len(),
        levels.len(),
        terrain_rebuild,
        fog_rebuild,
        show_floor,
        show_edge_shadow,
        show_ceiling_shadow,
        show_fog,
    );
    *terrain_dirty = false;
    fog.dirty = false;
    Some(TilemapProjection { spawn, update, despawn, chunk_count, non_empty_tile_count: drawn })
}

} // verus!
