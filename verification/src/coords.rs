//! Client-side grid arithmetic: which z-levels are drawn, where a chunk's
//! tiles sit in the world, the chunk grid, the streaming window and the
//! terrain queries the tile builders share.

use std::collections::{BTreeMap, BTreeSet};
use vstd::prelude::*;
use vstd::std_specs::btree::group_btree_axioms;
use vstd::laws_cmp::group_laws_cmp;

use crate::geometry::{BlockType, Vec3i, Vec3u};

verus! {

broadcast use {group_btree_axioms, group_laws_cmp, crate::ordered::lemma_member_of_pair_listing};

/// How many z-levels below the view level are drawn.
pub const Z_LEVELS_BELOW_RENDERED: i32 = 5;

/// A 2-D integer vector (a chunk column, or a tile column).
#[derive(Debug, Clone, Copy, PartialEq, Eq, Structural, Hash, PartialOrd, Ord, Default)]
pub struct IVec2 {
    pub x: i32,
    pub y: i32,
}

impl IVec2 {
    pub fn new(x: i32, y: i32) -> (r: IVec2)
        ensures
            r == (IVec2 { x, y }),
    {
        IVec2 { x, y }
    }

    pub open spec fn key(self) -> (i32, i32) {
        (self.x, self.y)
    }
}

/// The sparse terrain the client knows: absent voxels are unknown.
pub type TerrainBlocks = BTreeMap<(i32, i32, i32), BlockType>;

/// The terrain the client holds: everything the simulation sent, and the
/// filtered blocks entity mode renders (what is seen or remembered).
pub struct TerrainData {
    pub source_blocks: TerrainBlocks,
    pub blocks: TerrainBlocks,
}

/// Depth shading of a tile or sprite: `Level(0)` is full brightness, each
/// further level is darker and bluer, `Deepest` is everything beyond.
#[derive(Debug, Clone, Copy, PartialEq, Eq, Structural)]
pub enum DepthTint {
    Level(u8),
    Deepest,
}

/// One tile of a tilemap chunk: its atlas index, tint and visibility.
#[derive(Debug, Clone, Copy, PartialEq, Eq, Structural)]
pub struct TileSpec {
    pub tileset_index: u16,
    pub tint: DepthTint,
    pub visible: bool,
}

/// The view levels, top first: `view_z`, `view_z - 1`, ... down to
/// `view_z - Z_LEVELS_BELOW_RENDERED`.
pub fn z_levels_to_render(view_z_current: i32) -> (r: Vec<i32>)
    requires
        view_z_current - Z_LEVELS_BELOW_RENDERED >= i32::MIN,
    ensures
        r@ == Seq::new((Z_LEVELS_BELOW_RENDERED + 1) as nat, |k: int| (view_z_current - k) as i32),
{
    let mut out: Vec<i32> = Vec::new();
    let mut offset: i32 = 0;
    while offset <= Z_LEVELS_BELOW_RENDERED
        invariant
            0 <= offset <= Z_LEVELS_BELOW_RENDERED + 1,
            view_z_current - Z_LEVELS_BELOW_RENDERED >= i32::MIN,
            out@ == Seq::new(offset as nat, |k: int| (view_z_current - k) as i32),
        decreases Z_LEVELS_BELOW_RENDERED + 1 - offset,
    {
        out.push(view_z_current - offset);
        proof {
            assert(out@ =~= Seq::new((offset + 1) as nat, |k: int| (view_z_current - k) as i32));
        }
        offset = offset + 1;
    }
    out
}

/// Row-major index of a tile inside its chunk.
pub fn chunk_local_tile_index(local_x: u32, local_y: u32, chunk_edge: u32) -> (r: usize)
    requires
        local_y * chunk_edge + local_x <= usize::MAX,
    ensures
        r == local_y * chunk_edge + local_x,
{
    proof {
        assert(0 <= local_y * chunk_edge) by (nonlinear_arith);
        assert(local_y * chunk_edge <= local_y * chunk_edge + local_x);
    }
    (local_y as usize) * (chunk_edge as usize) + (local_x as usize)
}

/// An empty chunk: `chunk_edge²` absent tiles.
pub fn empty_chunk_tile_data(chunk_edge: u32) -> (r: Vec<Option<TileSpec>>)
    requires
        chunk_edge * chunk_edge <= usize::MAX,
    ensures
        r@.len() == chunk_edge * chunk_edge,
        forall|i: int| 0 <= i < r@.len() ==> r@[i] is None,
{
    let count = (chunk_edge as usize) * (chunk_edge as usize);
    let mut out: Vec<Option<TileSpec>> = Vec::new();
    let mut i: usize = 0;
    while i < count
        invariant
            i <= count,
            out@.len() == i,
            forall|k: int| 0 <= k < i ==> out@[k] is None,
        decreases count - i,
    {
        out.push(None);
        i = i + 1;
    }
    out
}

/// World coordinate of local tile `(x, y)` of a chunk at level `z`; chunks
/// are centred, so chunk `c` starts at `c * edge - edge / 2`.
pub open spec fn world_pos_in_chunk_spec(chunk_coord: Vec3i, chunk_edge: u32, x: u32, y: u32, z: i32) -> (int, int, int) {
    let half = (chunk_edge as int) / 2;
    (chunk_coord.x * chunk_edge + x - half, chunk_coord.y * chunk_edge + y - half, z as int)
}

pub fn world_pos_in_chunk(chunk_coord: Vec3i, chunk_edge: u32, x: u32, y: u32, z: i32) -> (r: Vec3i)
    requires
        chunk_edge <= i32::MAX,
        x <= i32::MAX,
        y <= i32::MAX,
        i32::MIN <= chunk_coord.x * chunk_edge <= i32::MAX,
        i32::MIN <= chunk_coord.y * chunk_edge <= i32::MAX,
        i32::MIN <= chunk_coord.x * chunk_edge + x <= i32::MAX,
        i32::MIN <= chunk_coord.y * chunk_edge + y <= i32::MAX,
        i32::MIN <= world_pos_in_chunk_spec(chunk_coord, chunk_edge, x, y, z).0 <= i32::MAX,
        i32::MIN <= world_pos_in_chunk_spec(chunk_coord, chunk_edge, x, y, z).1 <= i32::MAX,
    ensures
        (r.x as int, r.y as int, r.z as int) == world_pos_in_chunk_spec(chunk_coord, chunk_edge, x, y, z),
{
    let edge_i = chunk_edge as i32;
    let half = edge_i / 2;
    let bx = chunk_coord.x * edge_i;
    let by = chunk_coord.y * edge_i;
    Vec3i::new(bx + (x as i32) - half, by + (y as i32) - half, z)
}

/// Depth shading of a tile `z_offset` levels from the view level (the
/// view level itself and the five below it have their own shades).
pub open spec fn tile_tint_spec(z_offset: i32) -> DepthTint {
    if -5 <= z_offset <= 0 {
        DepthTint::Level((-z_offset) as u8)
    } else {
        DepthTint::Deepest
    }
}

pub fn get_depth_tint_tile_color(z_offset: i32) -> (r: DepthTint)
    ensures
        r == tile_tint_spec(z_offset),
{
    if -5 <= z_offset && z_offset <= 0 {
        DepthTint::Level((-z_offset) as u8)
    } else {
        DepthTint::Deepest
    }
}

/// Sprites may sit above or below the view level: shaded by distance.
pub open spec fn sprite_tint_spec(z_offset: i32) -> DepthTint {
    let d = if z_offset < 0 { -z_offset } else { z_offset as int };
    if d <= 5 {
        DepthTint::Level(d as u8)
    } else {
        DepthTint::Deepest
    }
}

pub fn get_depth_tint_sprite_color(z_offset: i32) -> (r: DepthTint)
    requires
        z_offset != i32::MIN,
    ensures
        r == sprite_tint_spec(z_offset),
{
    let d = if z_offset < 0 {
        -z_offset
    } else {
        z_offset
    };
    if d <= 5 {
        DepthTint::Level(d as u8)
    } else {
        DepthTint::Deepest
    }
}

/// The chunk grid of a world `world_chunks` chunks across, centred on the
/// origin: axis `a` runs over `-(n/2) .. n - n/2`.
pub open spec fn in_chunk_grid(world_chunks: Vec3u, c: (i32, i32, i32)) -> bool {
    &&& -(world_chunks.x / 2) <= c.0 < world_chunks.x - world_chunks.x / 2
    &&& -(world_chunks.y / 2) <= c.1 < world_chunks.y - world_chunks.y / 2
    &&& -(world_chunks.z / 2) <= c.2 < world_chunks.z - world_chunks.z / 2
}

/// Grid extents that fit `i32` coordinates.
pub open spec fn grid_fits(world_chunks: Vec3u) -> bool {
    world_chunks.x <= i32::MAX && world_chunks.y <= i32::MAX && world_chunks.z <= i32::MAX
}

/// Every chunk coordinate of the grid.
pub fn all_world_chunk_coords(world_chunks: Vec3u) -> (r: BTreeSet<(i32, i32, i32)>)
    requires
        grid_fits(world_chunks),
    ensures
        forall|c: (i32, i32, i32)| r@.contains(c) <==> in_chunk_grid(world_chunks, c),
{
    let mut result: BTreeSet<(i32, i32, i32)> = BTreeSet::new();
    let cx = (world_chunks.x as i32) / 2;
    let cy = (world_chunks.y as i32) / 2;
    let cz = (world_chunks.z as i32) / 2;
    let mut z: u32 = 0;
    while z < world_chunks.z
        invariant
            grid_fits(world_chunks),
            cx == world_chunks.x / 2,
            cy == world_chunks.y / 2,
            cz == world_chunks.z / 2,
            z <= world_chunks.z,
            forall|c: (i32, i32, i32)| #[trigger] result@.contains(c) <==> in_chunk_grid(world_chunks, c) && c.2 < z - cz,
        decreases world_chunks.z - z,
    {
        let mut y: u32 = 0;
        while y < world_chunks.y
            invariant
                grid_fits(world_chunks),
                cx == world_chunks.x / 2,
                cy == world_chunks.y / 2,
                cz == world_chunks.z / 2,
                z < world_chunks.z,
                y <= world_chunks.y,
                forall|c: (i32, i32, i32)| #[trigger] result@.contains(c) <==> in_chunk_grid(world_chunks, c) && (c.2 < z - cz || (c.2 == z - cz && c.1 < y - cy)),
            decreases world_chunks.y - y,
        {
            let mut x: u32 = 0;
            while x < world_chunks.x
                invariant
                    grid_fits(world_chunks),
                    cx == world_chunks.x / 2,
                    cy == world_chunks.y / 2,
                    cz == world_chunks.z / 2,
                    z < world_chunks.z,
                    y < world_chunks.y,
                    x <= world_chunks.x,
                    forall|c: (i32, i32, i32)| #[trigger] result@.contains(c) <==> in_chunk_grid(world_chunks, c) && (c.2 < z - cz || (c.2 == z - cz && c.1 < y - cy) || (c.2 == z - cz && c.1 == y - cy && c.0 < x - cx)),
                decreases world_chunks.x - x,
            {
                result.insert(((x as i32) - cx, (y as i32) - cy, (z as i32) - cz));
                x = x + 1;
            }
            y = y + 1;
        }
        z = z + 1;
    }
    result
}

/// What part of the world the camera shows: chunk columns and z-levels.
#[derive(Debug, Clone)]
pub struct RenderViewport {
    pub visible_chunks_xy: BTreeSet<(i32, i32)>,
    pub visible_z_levels: Vec<i32>,
    /// The camera moved since the tilemap was last rebuilt.
    pub viewport_changed: bool,
    /// Chunk columns that came into view with the last camera move.
    pub newly_visible_chunks_xy: BTreeSet<(i32, i32)>,
}

/// Smallest member of a non-empty sequence.
pub open spec fn seq_min(s: Seq<i32>) -> i32
    decreases s.len(),
{
    if s.len() <= 1 {
        s[0]
    } else {
        let m = seq_min(s.drop_last());
        if s.last() < m { s.last() } else { m }
    }
}

/// Largest member of a non-empty sequence.
pub open spec fn seq_max(s: Seq<i32>) -> i32
    decreases s.len(),
{
    if s.len() <= 1 {
        s[0]
    } else {
        let m = seq_max(s.drop_last());
        if s.last() > m { s.last() } else { m }
    }
}

/// `v - 1`, stopping at `i32::MIN`.
pub open spec fn sat_dec(v: i32) -> i32 {
    if v == i32::MIN { v } else { (v - 1) as i32 }
}

/// `v + 1`, stopping at `i32::MAX`.
pub open spec fn sat_inc(v: i32) -> i32 {
    if v == i32::MAX { v } else { (v + 1) as i32 }
}

/// The z-range the streaming window spans: one level beyond the visible
/// levels on each side (edge shadows read the level below, ceiling shadows
/// the level above); level 0 alone when nothing is visible.
pub open spec fn window_z_range(levels: Seq<i32>) -> (i32, i32) {
    if levels.len() == 0 {
        (sat_dec(0), sat_inc(0))
    } else {
        (sat_dec(seq_min(levels)), sat_inc(seq_max(levels)))
    }
}

/// Smallest and largest visible level.
fn min_max_levels(levels: &Vec<i32>) -> (r: (i32, i32))
    ensures
        levels@.len() == 0 ==> r == (0i32, 0i32),
        levels@.len() > 0 ==> r == (seq_min(levels@), seq_max(levels@)),
{
    let n = levels.len();
    if n == 0 {
        return (0, 0);
    }
    let mut lo = levels[0];
    let mut hi = levels[0];
    let mut i: usize = 1;
    while i < n
        invariant
            n == levels@.len(),
            1 <= i <= n,
            lo == seq_min(levels@.subrange(0, i as int)),
            hi == seq_max(levels@.subrange(0, i as int)),
        decreases n - i,
    {
        proof {
            assert(levels@.subrange(0, i as int + 1).drop_last() =~= levels@.subrange(0, i as int));
        }
        if levels[i] < lo {
            lo = levels[i];
        }
        if levels[i] > hi {
            hi = levels[i];
        }
        i = i + 1;
    }
    proof {
        assert(levels@.subrange(0, n as int) =~= levels@);
    }
    (lo, hi)
}

/// Chunks to keep streamed in: every visible chunk column, over the window's
/// z-range, that lies in the grid.
pub open spec fn streaming_window_spec(
    visible_xy: Set<(i32, i32)>,
    levels: Seq<i32>,
    world_chunks: Vec3u,
    c: (i32, i32, i32),
) -> bool {
    &&& visible_xy.contains((c.0, c.1))
    &&& window_z_range(levels).0 <= c.2 <= window_z_range(levels).1
    &&& in_chunk_grid(world_chunks, c)
}

/// The smallest member is at most every member and is one of them.
proof fn lemma_seq_min_bounds(s: Seq<i32>)
    requires
        s.len() > 0,
    ensures
        forall|j: int| 0 <= j < s.len() ==> seq_min(s) <= #[trigger] s[j],
        exists|j: int| 0 <= j < s.len() && seq_min(s) == #[trigger] s[j],
    decreases s.len(),
{
    if s.len() > 1 {
        let t = s.drop_last();
        lemma_seq_min_bounds(t);
        assert forall|j: int| 0 <= j < s.len() implies seq_min(s) <= #[trigger] s[j] by {
            if j < s.len() - 1 {
                assert(s[j] == t[j]);
            }
        }
        if s.last() < seq_min(t) {
            assert(seq_min(s) == s[s.len() - 1]);
        } else {
            let j = choose|j: int| 0 <= j < t.len() && seq_min(t) == #[trigger] t[j];
            assert(seq_min(s) == s[j]);
        }
    } else {
        assert(seq_min(s) == s[0]);
    }
}

/// The largest member is at least every member and is one of them.
proof fn lemma_seq_max_bounds(s: Seq<i32>)
    requires
        s.len() > 0,
    ensures
        forall|j: int| 0 <= j < s.len() ==> #[trigger] s[j] <= seq_max(s),
        exists|j: int| 0 <= j < s.len() && seq_max(s) == #[trigger] s[j],
    decreases s.len(),
{
    if s.len() > 1 {
        let t = s.drop_last();
        lemma_seq_max_bounds(t);
        assert forall|j: int| 0 <= j < s.len() implies #[trigger] s[j] <= seq_max(s) by {
            if j < s.len() - 1 {
                assert(s[j] == t[j]);
            }
        }
        if s.last() > seq_max(t) {
            assert(seq_max(s) == s[s.len() - 1]);
        } else {
            let j = choose|j: int| 0 <= j < t.len() && seq_max(t) == #[trigger] t[j];
            assert(seq_max(s) == s[j]);
        }
    } else {
        assert(seq_max(s) == s[0]);
    }
}

/// The streaming window holds a chunk of a visible column inside the grid
/// exactly when its level is within one of the visible levels' span: at or
/// above one level below the lowest visible level and at or below one level
/// above the highest (each clipped to `i32`); with no visible level, the
/// levels -1, 0 and 1.
pub proof fn lemma_streaming_window_levels(
    visible_xy: Set<(i32, i32)>,
    levels: Seq<i32>,
    world_chunks: Vec3u,
    c: (i32, i32, i32),
)
    requires
        visible_xy.contains((c.0, c.1)),
        in_chunk_grid(world_chunks, c),
    ensures
        levels.len() == 0 ==> (streaming_window_spec(visible_xy, levels, world_chunks, c) <==> -1 <= c.2 <= 1),
        levels.len() > 0 ==> (streaming_window_spec(visible_xy, levels, world_chunks, c) <==> (
        exists|j: int, k: int|
            0 <= j < levels.len() && 0 <= k < levels.len() && (#[trigger] levels[j] - 1 <= c.2 || levels[j]
                == i32::MIN) && (c.2 <= #[trigger] levels[k] + 1 || levels[k] == i32::MAX))),
{
    if levels.len() > 0 {
        lemma_seq_min_bounds(levels);
        lemma_seq_max_bounds(levels);
        let lo = seq_min(levels);
        let hi = seq_max(levels);
        if streaming_window_spec(visible_xy, levels, world_chunks, c) {
            let j = choose|j: int| 0 <= j < levels.len() && lo == #[trigger] levels[j];
            let k = choose|k: int| 0 <= k < levels.len() && hi == #[trigger] levels[k];
            assert((levels[j] - 1 <= c.2 || levels[j] == i32::MIN) && (c.2 <= levels[k] + 1 || levels[k]
                == i32::MAX));
        }
        if exists|j: int, k: int|
            0 <= j < levels.len() && 0 <= k < levels.len() && (#[trigger] levels[j] - 1 <= c.2 || levels[j]
                == i32::MIN) && (c.2 <= #[trigger] levels[k] + 1 || levels[k] == i32::MAX) {
            let (j, k) = choose|j: int, k: int|
                0 <= j < levels.len() && 0 <= k < levels.len() && (#[trigger] levels[j] - 1 <= c.2 || levels[j]
                    == i32::MIN) && (c.2 <= #[trigger] levels[k] + 1 || levels[k] == i32::MAX);
            assert(lo <= levels[j]);
            assert(levels[k] <= hi);
        }
    }
}

pub fn desired_streaming_window(viewport: &RenderViewport, world_chunks: Vec3u) -> (r: BTreeSet<
    (i32, i32, i32),
>)
    requires
        grid_fits(world_chunks),
    ensures
        forall|c: (i32, i32, i32)|
            r@.contains(c) <==> streaming_window_spec(
                viewport.visible_chunks_xy@,
                viewport.visible_z_levels@,
                world_chunks,
                c,
            ),
{
    let (lo, hi) = min_max_levels(&viewport.visible_z_levels);
    let z_min = if lo == i32::MIN {
        lo
    } else {
        lo - 1
    };
    let z_max = if hi == i32::MAX {
        hi
    } else {
        hi + 1
    };
    let mut window: BTreeSet<(i32, i32, i32)> = BTreeSet::new();
    let ghost vis = viewport.visible_chunks_xy@;
    for xy in it: viewport.visible_chunks_xy.iter()
        invariant
            grid_fits(world_chunks),
            vis == viewport.visible_chunks_xy@,
            (z_min, z_max) == window_z_range(viewport.visible_z_levels@),
            forall|i: int| 0 <= i < it.seq().len() ==> vis.contains(*#[trigger] it.seq()[i]),
            forall|p: (i32, i32)| #[trigger]
                vis.contains(p) ==> exists|i: int| 0 <= i < it.seq().len() && *it.seq()[i] == p,
            forall|c: (i32, i32, i32)| #[trigger] window@.contains(c) <==> (exists|k: int| 0 <= k < it.index() && *it.seq()[k] == (c.0, c.1)) && z_min <= c.2 <= z_max && in_chunk_grid(world_chunks, c),
    {
        let (cx, cy) = *xy;
        let mut z: i64 = z_min as i64;
        while z <= z_max as i64
            invariant
                grid_fits(world_chunks),
                z_min <= z <= z_max + 1,
                forall|c: (i32, i32, i32)| #[trigger] window@.contains(c) <==> ((exists|k: int| 0 <= k < it.index() && *it.seq()[k] == (c.0, c.1)) && z_min <= c.2 <= z_max && in_chunk_grid(world_chunks, c)) || ((c.0, c.1) == (cx, cy) && z_min <= c.2 < z && in_chunk_grid(world_chunks, c)),
            decreases z_max + 1 - z,
        {
            let zz = z as i32;
            if in_chunk_grid_exec(world_chunks, cx, cy, zz) {
                window.insert((cx, cy, zz));
            }
            z = z + 1;
        }
    }
    window
}

/// Whether chunk `(x, y, z)` lies in the grid.
pub(crate) fn in_chunk_grid_exec(world_chunks: Vec3u, x: i32, y: i32, z: i32) -> (r: bool)
    requires
        grid_fits(world_chunks),
    ensures
        r == in_chunk_grid(world_chunks, (x, y, z)),
{
    let hx = (world_chunks.x / 2) as i64;
    let hy = (world_chunks.y / 2) as i64;
    let hz = (world_chunks.z / 2) as i64;
    let wx = world_chunks.x as i64;
    let wy = world_chunks.y as i64;
    let wz = world_chunks.z as i64;
    -hx <= x as i64 && (x as i64) < wx - hx && -hy <= y as i64 && (y as i64) < wy - hy && -hz
        <= z as i64 && (z as i64) < wz - hz
}

/// The block the client knows at `pos`, or `fallback` if it knows none.
pub open spec fn known_block(blocks: Map<(i32, i32, i32), BlockType>, pos: Vec3i, fallback: BlockType) -> BlockType {
    if blocks.contains_key(pos.key()) {
        blocks[pos.key()]
    } else {
        fallback
    }
}

/// The block at `pos`; unknown voxels read as air.
pub fn terrain_block(pos: Vec3i, blocks: &TerrainBlocks) -> (r: BlockType)
    ensures
        r == known_block(blocks@, pos, BlockType::Air),
{
    match blocks.get(&(pos.x, pos.y, pos.z)) {
        Some(b) => *b,
        None => BlockType::Air,
    }
}

/// The block at `pos` as shadows see it; unknown voxels read as solid when
/// `unknown_is_solid`, else as air.
pub fn terrain_block_for_shadow(pos: Vec3i, blocks: &TerrainBlocks, unknown_is_solid: bool) -> (r: BlockType)
    ensures
        r == known_block(
            blocks@,
            pos,
            if unknown_is_solid {
                BlockType::SolidStone
            } else {
                BlockType::Air
            },
        ),
{
    match blocks.get(&(pos.x, pos.y, pos.z)) {
        Some(b) => *b,
        None => if unknown_is_solid {
            BlockType::SolidStone
        } else {
            BlockType::Air
        },
    }
}

/// Solid for shadow purposes (unknown voxels are air).
pub open spec fn shadow_solid(blocks: Map<(i32, i32, i32), BlockType>, x: int, y: int, z: int) -> bool {
    known_block(blocks, Vec3i { x: x as i32, y: y as i32, z: z as i32 }, BlockType::Air)
        == BlockType::SolidStone
}

/// Edge-shadow mask of an air tile: bit 0 north (`y + 1`), bit 1 east
/// (`x + 1`), bit 2 south (`y - 1`), bit 3 west (`x - 1`) is set when that
/// neighbour is solid.
pub open spec fn shadow_mask_spec(blocks: Map<(i32, i32, i32), BlockType>, x: i32, y: i32, z: i32) -> u8 {
    ((if shadow_solid(blocks, x as int, y + 1, z as int) { 1int } else { 0 })
        + (if shadow_solid(blocks, x + 1, y as int, z as int) { 2int } else { 0 })
        + (if shadow_solid(blocks, x as int, y - 1, z as int) { 4int } else { 0 })
        + (if shadow_solid(blocks, x - 1, y as int, z as int) { 8int } else { 0 })) as u8
}

pub fn compute_shadow_mask_for_air(x: i32, y: i32, z: i32, blocks: &TerrainBlocks) -> (r: u8)
    requires
        i32::MIN < x < i32::MAX,
        i32::MIN < y < i32::MAX,
    ensures
        r == shadow_mask_spec(blocks@, x, y, z),
{
    let mut mask: u8 = 0;
    if terrain_block_for_shadow(Vec3i::new(x, y + 1, z), blocks, false) == BlockType::SolidStone {
        mask = mask + 1;
    }
    if terrain_block_for_shadow(Vec3i::new(x + 1, y, z), blocks, false) == BlockType::SolidStone {
        mask = mask + 2;
    }
    if terrain_block_for_shadow(Vec3i::new(x, y - 1, z), blocks, false) == BlockType::SolidStone {
        mask = mask + 4;
    }
    if terrain_block_for_shadow(Vec3i::new(x - 1, y, z), blocks, false) == BlockType::SolidStone {
        mask = mask + 8;
    }
    mask
}

/// The highest level in `view_z - Z_LEVELS_BELOW_RENDERED ..= view_z` whose
/// voxel in column `(wx, wy)` is solid: the surface seen looking down.
pub open spec fn topmost_solid_spec(
    blocks: Map<(i32, i32, i32), BlockType>,
    wx: i32,
    wy: i32,
    view_z: i32,
    unknown_is_solid: bool,
    offset: int,
) -> Option<i32>
    decreases Z_LEVELS_BELOW_RENDERED + 1 - offset,
{
    if offset < 0 || offset > Z_LEVELS_BELOW_RENDERED {
        None
    } else if known_block(
        blocks,
        Vec3i { x: wx, y: wy, z: (view_z - offset) as i32 },
        if unknown_is_solid {
            BlockType::SolidStone
        } else {
            BlockType::Air
        },
    ) == BlockType::SolidStone {
        Some((view_z - offset) as i32)
    } else {
        topmost_solid_spec(blocks, wx, wy, view_z, unknown_is_solid, offset + 1)
    }
}

pub fn topmost_solid_z_in_column(
    wx: i32,
    wy: i32,
    view_z: i32,
    blocks: &TerrainBlocks,
    unknown_is_solid: bool,
) -> (r: Option<i32>)
    requires
        view_z - Z_LEVELS_BELOW_RENDERED >= i32::MIN,
    ensures
        r == topmost_solid_spec(blocks@, wx, wy, view_z, unknown_is_solid, 0),
{
    let mut offset: i32 = 0;
    while offset <= Z_LEVELS_BELOW_RENDERED
        invariant
            0 <= offset <= Z_LEVELS_BELOW_RENDERED + 1,
            view_z - Z_LEVELS_BELOW_RENDERED >= i32::MIN,
            topmost_solid_spec(blocks@, wx, wy, view_z, unknown_is_solid, offset as int)
                == topmost_solid_spec(blocks@, wx, wy, view_z, unknown_is_solid, 0),
        decreases Z_LEVELS_BELOW_RENDERED + 1 - offset,
    {
        let z = view_z - offset;
        if terrain_block_for_shadow(Vec3i::new(wx, wy, z), blocks, unknown_is_solid)
            == BlockType::SolidStone {
            return Some(z);
        }
        offset = offset + 1;
    }
    None
}

} // verus!
