//! Tile layers of one chunk level read straight from the client's blocks:
//! stone floors, dual-grid edge and ceiling shadows, and the remembered-fog
//! overlay.

use vstd::prelude::*;
use vstd::std_specs::btree::group_btree_axioms;
use vstd::laws_cmp::group_laws_cmp;

use crate::client_world::FogData;
use crate::coords::{IVec2, TerrainBlocks, get_depth_tint_tile_color, known_block, terrain_block, terrain_block_for_shadow, tile_tint_spec};
use crate::geometry::{BlockType, Vec3i};
use crate::render_patches::{PatchTile, PatchTint};
use crate::tile_geometry::stone_tile_index;

verus! {

broadcast use {group_btree_axioms, group_laws_cmp};

/// The chunk's tiles, and the corner one beyond, have `i32` coordinates, and
/// its tile count fits `u32`.
pub open spec fn tile_chunk_fits(c: IVec2, chunk_edge: u32) -> bool {
    let e = chunk_edge as int;
    let h = e / 2;
    &&& e * e <= u32::MAX
    &&& i32::MIN <= c.x * e - h
    &&& c.x * e + e <= i32::MAX
    &&& i32::MIN <= c.y * e - h
    &&& c.y * e + e <= i32::MAX
}

/// World column of tile `(lx, ly)` of chunk column `c` (chunks are centred).
pub open spec fn tile_x(c: IVec2, chunk_edge: u32, lx: int) -> int {
    c.x * (chunk_edge as int) + lx - (chunk_edge as int) / 2
}

pub open spec fn tile_y(c: IVec2, chunk_edge: u32, ly: int) -> int {
    c.y * (chunk_edge as int) + ly - (chunk_edge as int) / 2
}

pub open spec fn at(x: int, y: int, z: int) -> Vec3i {
    Vec3i { x: x as i32, y: y as i32, z: z as i32 }
}

/// The block at a point is stone, unknown blocks reading as `unknown_is_solid`.
pub open spec fn solid_spec(blocks: Map<(i32, i32, i32), BlockType>, p: Vec3i, unknown_is_solid: bool) -> bool {
    known_block(blocks, p, if unknown_is_solid { BlockType::SolidStone } else { BlockType::Air })
        == BlockType::SolidStone
}

/// A dual-grid mask: bit 0 for `(x, y)`, bit 1 for `(x + 1, y)`, bit 2 for
/// `(x, y + 1)`, bit 3 for `(x + 1, y + 1)`.
pub open spec fn corner_mask(a: bool, b: bool, c: bool, d: bool) -> int {
    (if a { 1int } else { 0 }) + (if b { 2int } else { 0 }) + (if c { 4int } else { 0 }) + (if d { 8int } else { 0 })
}

/// The edge-shadow mask of the tile at `(x, y)`: which corners are stone at `z`.
pub open spec fn edge_mask(blocks: Map<(i32, i32, i32), BlockType>, x: int, y: int, z: int, unknown_is_solid: bool) -> int {
    corner_mask(
        solid_spec(blocks, at(x, y, z), unknown_is_solid),
        solid_spec(blocks, at(x + 1, y, z), unknown_is_solid),
        solid_spec(blocks, at(x, y + 1, z), unknown_is_solid),
        solid_spec(blocks, at(x + 1, y + 1, z), unknown_is_solid),
    )
}

/// A corner under a ceiling: stone at `z` and at `z + 1`.
pub open spec fn ceiling_corner(blocks: Map<(i32, i32, i32), BlockType>, x: int, y: int, z: int, unknown_is_solid: bool) -> bool {
    solid_spec(blocks, at(x, y, z + 1), unknown_is_solid) && solid_spec(blocks, at(x, y, z), unknown_is_solid)
}

pub open spec fn ceiling_mask(blocks: Map<(i32, i32, i32), BlockType>, x: int, y: int, z: int, unknown_is_solid: bool) -> int {
    corner_mask(
        ceiling_corner(blocks, x, y, z, unknown_is_solid),
        ceiling_corner(blocks, x + 1, y, z, unknown_is_solid),
        ceiling_corner(blocks, x, y + 1, z, unknown_is_solid),
        ceiling_corner(blocks, x + 1, y + 1, z, unknown_is_solid),
    )
}

/// Which block-based layer a tile belongs to.
#[derive(Debug, Clone, Copy, PartialEq, Eq, Structural)]
pub enum BlockLayer {
    /// Stone floor, shaded by depth when asked.
    Stone { z_offset: i32, apply_depth_tint: bool },
    Edge { unknown_is_solid: bool },
    Ceiling { unknown_is_solid: bool },
}

/// The tile at `(x, y, z)` of a block-based layer.
pub open spec fn block_tile(layer: BlockLayer, blocks: Map<(i32, i32, i32), BlockType>, x: int, y: int, z: int) -> Option<PatchTile> {
    match layer {
        BlockLayer::Stone { z_offset, apply_depth_tint } => if known_block(blocks, at(x, y, z), BlockType::Air)
            == BlockType::SolidStone {
            Some(
                PatchTile {
                    tileset_index: 5,
                    tint: if apply_depth_tint {
                        PatchTint::Depth(tile_tint_spec(z_offset))
                    } else {
                        PatchTint::Plain
                    },
                },
            )
        } else {
            None
        },
        BlockLayer::Edge { unknown_is_solid } => {
            let m = edge_mask(blocks, x, y, z, unknown_is_solid);
            if 0 < m < 15 {
                Some(PatchTile { tileset_index: (m - 1) as u16, tint: PatchTint::Plain })
            } else {
                None
            }
        },
        BlockLayer::Ceiling { unknown_is_solid } => {
            let m = ceiling_mask(blocks, x, y, z, unknown_is_solid);
            if m != 0 {
                Some(PatchTile { tileset_index: (m - 1) as u16, tint: PatchTint::Plain })
            } else {
                None
            }
        },
    }
}

/// The tile at `(x, y, world_z)` of the fog overlay: nothing where seen; at
/// the view level, the remembered tiles; below it, the stone ones.
pub open spec fn fog_tile_spec(
    visible: Set<(i32, i32, i32)>,
    remembered: Set<(i32, i32, i32)>,
    blocks: Map<(i32, i32, i32), BlockType>,
    x: int,
    y: int,
    world_z: i32,
    current_z: i32,
) -> Option<PatchTile> {
    let p = at(x, y, world_z as int);
    let fog = Some(PatchTile { tileset_index: 0, tint: PatchTint::RememberedFog });
    if visible.contains(p.key()) {
        None
    } else if world_z == current_z {
        if remembered.contains(p.key()) {
            fog
        } else {
            None
        }
    } else if known_block(blocks, p, BlockType::Air) == BlockType::SolidStone {
        fog
    } else {
        None
    }
}

/// `tiles` lists one value per tile of a chunk level, row by row.
pub open spec fn lists_chunk_tiles(tiles: Seq<Option<PatchTile>>, chunk_edge: u32, f: spec_fn(int, int) -> Option<PatchTile>) -> bool {
    &&& tiles.len() == chunk_edge * chunk_edge
    &&& forall|i: int|
        0 <= i < tiles.len() ==> #[trigger] tiles[i] == f(i % (chunk_edge as int), i / (chunk_edge as int))
}

fn solid(blocks: &TerrainBlocks, x: i32, y: i32, z: i32, unknown_is_solid: bool) -> (r: bool)
    ensures
        r == solid_spec(blocks@, Vec3i { x, y, z }, unknown_is_solid),
{
    terrain_block_for_shadow(Vec3i { x, y, z }, blocks, unknown_is_solid) == BlockType::SolidStone
}

fn mask_of(a: bool, b: bool, c: bool, d: bool) -> (r: u8)
    ensures
        r == corner_mask(a, b, c, d),
{
    let mut mask: u8 = 0;
    if a {
        mask = mask + 1;
    }
    if b {
        mask = mask + 2;
    }
    if c {
        mask = mask + 4;
    }
    if d {
        mask = mask + 8;
    }
    mask
}

/// The tile at world `(x, y, z)` of a block-based layer.
fn block_tile_at(layer: BlockLayer, blocks: &TerrainBlocks, x: i32, y: i32, z: i32) -> (r: Option<PatchTile>)
    requires
        x < i32::MAX,
        y < i32::MAX,
        layer is Ceiling ==> z < i32::MAX,
    ensures
        r == block_tile(layer, blocks@, x as int, y as int, z as int),
{
    match layer {
        BlockLayer::Stone { z_offset, apply_depth_tint } => {
            if terrain_block(Vec3i { x, y, z }, blocks) == BlockType::SolidStone {
                let tint = if apply_depth_tint {
                    PatchTint::Depth(get_depth_tint_tile_color(z_offset))
                } else {
                    PatchTint::Plain
                };
                Some(PatchTile { tileset_index: stone_tile_index(), tint })
            } else {
                None
            }
        },
        BlockLayer::Edge { unknown_is_solid } => {
            let m = mask_of(
                solid(blocks, x, y, z, unknown_is_solid),
                solid(blocks, x + 1, y, z, unknown_is_solid),
                solid(blocks, x, y + 1, z, unknown_is_solid),
                solid(blocks, x + 1, y + 1, z, unknown_is_solid),
            );
            if m > 0 && m < 15 {
                Some(PatchTile { tileset_index: (m - 1) as u16, tint: PatchTint::Plain })
            } else {
                None
            }
        },
        BlockLayer::Ceiling { unknown_is_solid } => {
            let ca = solid(blocks, x, y, z + 1, unknown_is_solid) && solid(blocks, x, y, z, unknown_is_solid);
            let cb = solid(blocks, x + 1, y, z + 1, unknown_is_solid) && solid(blocks, x + 1, y, z, unknown_is_solid);
            let cc = solid(blocks, x, y + 1, z + 1, unknown_is_solid) && solid(blocks, x, y + 1, z, unknown_is_solid);
            let cd = solid(blocks, x + 1, y + 1, z + 1, unknown_is_solid) && solid(
                blocks,
                x + 1,
                y + 1,
                z,
                unknown_is_solid,
            );
            let m = mask_of(ca, cb, cc, cd);
            if m != 0 {
                Some(PatchTile { tileset_index: (m - 1) as u16, tint: PatchTint::Plain })
            } else {
                None
            }
        },
    }
}

proof fn lemma_tile_coords(c: IVec2, chunk_edge: u32, lx: int, ly: int)
    requires
        tile_chunk_fits(c, chunk_edge),
        0 <= lx < chunk_edge,
        0 <= ly < chunk_edge,
    ensures
        i32::MIN <= tile_x(c, chunk_edge, lx) < i32::MAX,
        i32::MIN <= tile_y(c, chunk_edge, ly) < i32::MAX,
        i32::MIN <= c.x * (chunk_edge as int) <= i32::MAX,
        i32::MIN <= c.y * (chunk_edge as int) <= i32::MAX,
{
}

proof fn lemma_row_index(ly: int, lx: int, e: int)
    requires
        e >= 1,
        0 <= lx < e,
        0 <= ly,
    ensures
        (ly * e + lx) % e == lx,
        (ly * e + lx) / e == ly,
{
    vstd::arithmetic::div_mod::lemma_fundamental_div_mod_converse(ly * e + lx, e, ly, lx);
}

/// The tiles of one block-based layer of chunk column `chunk_xy` at `world_z`.
fn build_block_layer(layer: BlockLayer, chunk_xy: IVec2, world_z: i32, chunk_edge: u32, blocks: &TerrainBlocks) -> (r: Vec<
    Option<PatchTile>,
>)
    requires
        tile_chunk_fits(chunk_xy, chunk_edge),
        layer is Ceiling ==> world_z < i32::MAX,
    ensures
        lists_chunk_tiles(
            r@,
            chunk_edge,
            |lx: int, ly: int|
                block_tile(layer, blocks@, tile_x(chunk_xy, chunk_edge, lx), tile_y(chunk_xy, chunk_edge, ly), world_z as int),
        ),
{
    let e = chunk_edge as i64;
    let half = e / 2;
    let mut tiles: Vec<Option<PatchTile>> = Vec::new();
    let mut ly: u32 = 0;
    while ly < chunk_edge
        invariant
            tile_chunk_fits(chunk_xy, chunk_edge),
            layer is Ceiling ==> world_z < i32::MAX,
            e == chunk_edge,
            half == e / 2,
            ly <= chunk_edge,
            tiles@.len() == ly * chunk_edge,
            forall|i: int| 0 <= i < tiles@.len() ==> #[trigger] tiles@[i] == block_tile(layer, blocks@, tile_x(chunk_xy, chunk_edge, i % (chunk_edge as int)), tile_y(chunk_xy, chunk_edge, i / (chunk_edge as int)), world_z as int),
        decreases chunk_edge - ly,
    {
        let mut lx: u32 = 0;
        while lx < chunk_edge
            invariant
                tile_chunk_fits(chunk_xy, chunk_edge),
                layer is Ceiling ==> world_z < i32::MAX,
                e == chunk_edge,
                half == e / 2,
                ly < chunk_edge,
                lx <= chunk_edge,
                tiles@.len() == ly * chunk_edge + lx,
                forall|i: int| 0 <= i < tiles@.len() ==> #[trigger] tiles@[i] == block_tile(layer, blocks@, tile_x(chunk_xy, chunk_edge, i % (chunk_edge as int)), tile_y(chunk_xy, chunk_edge, i / (chunk_edge as int)), world_z as int),
            decreases chunk_edge - lx,
        {
            proof {
                lemma_tile_coords(chunk_xy, chunk_edge, lx as int, ly as int);
                lemma_row_index(ly as int, lx as int, chunk_edge as int);
            }
            let x = ((chunk_xy.x as i64) * e + (lx as i64) - half) as i32;
            let y = ((chunk_xy.y as i64) * e + (ly as i64) - half) as i32;
            tiles.push(block_tile_at(layer, blocks, x, y, world_z));
            lx = lx + 1;
        }
        proof {
            assert((ly + 1) * chunk_edge == ly * chunk_edge + chunk_edge) by (nonlinear_arith);
        }
        ly = ly + 1;
    }
    proof {
        assert(tiles@.len() == chunk_edge * chunk_edge) by (nonlinear_arith)
            requires
                tiles@.len() == ly * chunk_edge,
                ly == chunk_edge,
        ;
    }
    tiles
}

/// Stone floor tiles of a chunk level, shaded for `z_offset` levels below
/// the view when `apply_depth_tint`.
pub fn build_chunk_tile_data(
    chunk_xy: IVec2,
    world_z: i32,
    chunk_edge: u32,
    blocks: &TerrainBlocks,
    z_offset: i32,
    apply_depth_tint: bool,
) -> (r: Vec<Option<PatchTile>>)
    requires
        tile_chunk_fits(chunk_xy, chunk_edge),
    ensures
        lists_chunk_tiles(
            r@,
            chunk_edge,
            |lx: int, ly: int|
                block_tile(
                    BlockLayer::Stone { z_offset, apply_depth_tint },
                    blocks@,
                    tile_x(chunk_xy, chunk_edge, lx),
                    tile_y(chunk_xy, chunk_edge, ly),
                    world_z as int,
                ),
        ),
{
    build_block_layer(BlockLayer::Stone { z_offset, apply_depth_tint }, chunk_xy, world_z, chunk_edge, blocks)
}

/// Dual-grid edge shadows of a chunk level: a tile wherever its four
/// corners are neither all stone nor all open; frame `mask - 1`.
pub fn build_edge_shadow_tile_data(
    chunk_xy: IVec2,
    world_z: i32,
    chunk_edge: u32,
    blocks: &TerrainBlocks,
    unknown_is_solid: bool,
) -> (r: Vec<Option<PatchTile>>)
    requires
        tile_chunk_fits(chunk_xy, chunk_edge),
    ensures
        lists_chunk_tiles(
            r@,
            chunk_edge,
            |lx: int, ly: int|
                block_tile(
                    BlockLayer::Edge { unknown_is_solid },
                    blocks@,
                    tile_x(chunk_xy, chunk_edge, lx),
                    tile_y(chunk_xy, chunk_edge, ly),
                    world_z as int,
                ),
        ),
{
    build_block_layer(BlockLayer::Edge { unknown_is_solid }, chunk_xy, world_z, chunk_edge, blocks)
}

/// Dual-grid ceiling shadows of a chunk level: a tile wherever a corner is
/// stone both at this level and the one above; frame `mask - 1`.
pub fn build_ceiling_shadow_tile_data(
    chunk_xy: IVec2,
    world_z: i32,
    chunk_edge: u32,
    blocks: &TerrainBlocks,
    unknown_is_solid: bool,
) -> (r: Vec<Option<PatchTile>>)
    requires
        tile_chunk_fits(chunk_xy, chunk_edge),
        world_z < i32::MAX,
    ensures
        lists_chunk_tiles(
            r@,
            chunk_edge,
            |lx: int, ly: int|
                block_tile(
                    BlockLayer::Ceiling { unknown_is_solid },
                    blocks@,
                    tile_x(chunk_xy, chunk_edge, lx),
                    tile_y(chunk_xy, chunk_edge, ly),
                    world_z as int,
                ),
        ),
{
    build_block_layer(BlockLayer::Ceiling { unknown_is_solid }, chunk_xy, world_z, chunk_edge, blocks)
}

/// Whether a chunk level has any edge-shadow tile.
pub fn chunk_has_edge(chunk_xy: IVec2, world_z: i32, chunk_edge: u32, blocks: &TerrainBlocks, unknown_is_solid: bool) -> (r:
    bool)
    requires
        tile_chunk_fits(chunk_xy, chunk_edge),
    ensures
        r == exists|lx: int, ly: int|
            0 <= lx < chunk_edge && 0 <= ly < chunk_edge && #[trigger] block_tile(
                BlockLayer::Edge { unknown_is_solid },
                blocks@,
                tile_x(chunk_xy, chunk_edge, lx),
                tile_y(chunk_xy, chunk_edge, ly),
                world_z as int,
            ) is Some,
{
    let layer = BlockLayer::Edge { unknown_is_solid };
    let e = chunk_edge as i64;
    let half = e / 2;
    let mut ly: u32 = 0;
    while ly < chunk_edge
        invariant
            tile_chunk_fits(chunk_xy, chunk_edge),
            layer == (BlockLayer::Edge { unknown_is_solid }),
            e == chunk_edge,
            half == e / 2,
            ly <= chunk_edge,
            forall|a: int, b: int|
                0 <= a < chunk_edge && 0 <= b < ly ==> #[trigger] block_tile(
                    layer,
                    blocks@,
                    tile_x(chunk_xy, chunk_edge, a),
                    tile_y(chunk_xy, chunk_edge, b),
                    world_z as int,
                ) is None,
        decreases chunk_edge - ly,
    {
        let mut lx: u32 = 0;
        while lx < chunk_edge
            invariant
                tile_chunk_fits(chunk_xy, chunk_edge),
                layer == (BlockLayer::Edge { unknown_is_solid }),
                e == chunk_edge,
                half == e / 2,
                ly < chunk_edge,
                lx <= chunk_edge,
                forall|a: int, b: int|
                    0 <= a < chunk_edge && 0 <= b < ly ==> #[trigger] block_tile(
                        layer,
                        blocks@,
                        tile_x(chunk_xy, chunk_edge, a),
                        tile_y(chunk_xy, chunk_edge, b),
                        world_z as int,
                    ) is None,
                forall|a: int|
                    0 <= a < lx ==> #[trigger] block_tile(
                        layer,
                        blocks@,
                        tile_x(chunk_xy, chunk_edge, a),
                        tile_y(chunk_xy, chunk_edge, ly as int),
                        world_z as int,
                    ) is None,
            decreases chunk_edge - lx,
        {
            proof {
                lemma_tile_coords(chunk_xy, chunk_edge, lx as int, ly as int);
            }
            let x = ((chunk_xy.x as i64) * e + (lx as i64) - half) as i32;
            let y = ((chunk_xy.y as i64) * e + (ly as i64) - half) as i32;
            if block_tile_at(layer, blocks, x, y, world_z).is_some() {
                proof {
                    assert(block_tile(
                        layer,
                        blocks@,
                        tile_x(chunk_xy, chunk_edge, lx as int),
                        tile_y(chunk_xy, chunk_edge, ly as int),
                        world_z as int,
                    ) is Some);
                }
                return true;
            }
            lx = lx + 1;
        }
        proof {
            assert forall|a: int, b: int|
                0 <= a < chunk_edge && 0 <= b < ly + 1 implies #[trigger] block_tile(
                layer,
                blocks@,
                tile_x(chunk_xy, chunk_edge, a),
                tile_y(chunk_xy, chunk_edge, b),
                world_z as int,
            ) is None by {
                if b == ly {
                    assert(block_tile(
                        layer,
                        blocks@,
                        tile_x(chunk_xy, chunk_edge, a),
                        tile_y(chunk_xy, chunk_edge, ly as int),
                        world_z as int,
                    ) is None);
                }
            }
        }
        ly = ly + 1;
    }
    false
}

/// The remembered-fog overlay of a chunk level seen from `current_z`.
pub fn build_fog_tile_data(
    chunk_xy: IVec2,
    world_z: i32,
    current_z: i32,
    chunk_edge: u32,
    blocks: &TerrainBlocks,
    fog: &FogData,
) -> (r: Vec<Option<PatchTile>>)
    requires
        tile_chunk_fits(chunk_xy, chunk_edge),
    ensures
        lists_chunk_tiles(
            r@,
            chunk_edge,
            |lx: int, ly: int|
                fog_tile_spec(
                    fog.visible@,
                    fog.memory@.dom(),
                    blocks@,
                    tile_x(chunk_xy, chunk_edge, lx),
                    tile_y(chunk_xy, chunk_edge, ly),
                    world_z,
                    current_z,
                ),
        ),
{
    let e = chunk_edge as i64;
    let half = e / 2;
    let mut tiles: Vec<Option<PatchTile>> = Vec::new();
    let mut ly: u32 = 0;
    while ly < chunk_edge
        invariant
            tile_chunk_fits(chunk_xy, chunk_edge),
            e == chunk_edge,
            half == e / 2,
            ly <= chunk_edge,
            tiles@.len() == ly * chunk_edge,
            forall|i: int| 0 <= i < tiles@.len() ==> #[trigger] tiles@[i] == fog_tile_spec(
            fog.visible@,
            fog.memory@.dom(),
            blocks@,
            tile_x(chunk_xy, chunk_edge, i % (chunk_edge as int)),
            tile_y(chunk_xy, chunk_edge, i / (chunk_edge as int)),
            world_z,
            current_z,
        ),
        decreases chunk_edge - ly,
    {
        let mut lx: u32 = 0;
        while lx < chunk_edge
            invariant
                tile_chunk_fits(chunk_xy, chunk_edge),
                e == chunk_edge,
                half == e / 2,
                ly < chunk_edge,
                lx <= chunk_edge,
                tiles@.len() == ly * chunk_edge + lx,
                forall|i: int| 0 <= i < tiles@.len() ==> #[trigger] tiles@[i] == fog_tile_spec(
            fog.visible@,
            fog.memory@.dom(),
            blocks@,
            tile_x(chunk_xy, chunk_edge, i % (chunk_edge as int)),
            tile_y(chunk_xy, chunk_edge, i / (chunk_edge as int)),
            world_z,
            current_z,
        ),
            decreases chunk_edge - lx,
        {
            proof {
                lemma_tile_coords(chunk_xy, chunk_edge, lx as int, ly as int);
                lemma_row_index(ly as int, lx as int, chunk_edge as int);
            }
            let x = ((chunk_xy.x as i64) * e + (lx as i64) - half) as i32;
            let y = ((chunk_xy.y as i64) * e + (ly as i64) - half) as i32;
            let key = (x, y, world_z);
            let tile = if fog.visible.contains(&key) {
                None
            } else if world_z == current_z {
                if fog.memory.contains_key(&key) {
                    Some(PatchTile { tileset_index: 0, tint: PatchTint::RememberedFog })
                } else {
                    None
                }
            } else if terrain_block(Vec3i { x, y, z: world_z }, blocks) == BlockType::SolidStone {
                Some(PatchTile { tileset_index: 0, tint: PatchTint::RememberedFog })
            } else {
                None
            };
            tiles.push(tile);
            lx = lx + 1;
        }
        proof {
            assert((ly + 1) * chunk_edge == ly * chunk_edge + chunk_edge) by (nonlinear_arith);
        }
        ly = ly + 1;
    }
    proof {
        assert(tiles@.len() == chunk_edge * chunk_edge) by (nonlinear_arith)
            requires
                tiles@.len() == ly * chunk_edge,
                ly == chunk_edge,
        ;
    }
    tiles
}

} // verus!
