//! World rendering decisions over the client projection: per-tile
//! visibility memory, the topmost-floor scan, occlusion of the player and
//! the per-column terrain cache. Render never reads the authoritative
//! world; missing projected chunks are skipped and block line of sight.

use vstd::prelude::*;
use vstd::std_specs::btree::group_btree_axioms;
use vstd::laws_cmp::group_laws_cmp;
use std::collections::{BTreeMap, BTreeSet};

use crate::geometry::{BlockType, Vec3i};
use crate::invalidation::ViewMode;
use crate::geometry::Vec3u;
use crate::projection::{
    axis_base, known_solid, known_solid_spec, projected_block, projected_block_at, world_bounds_exec,
    world_voxel_bounds, ChunkView, ClientView, EntityView,
};

verus! {

broadcast use {
    group_btree_axioms,
    group_laws_cmp,
    crate::ordered::lemma_member_of_pair_listing,
    crate::ordered::lemma_member_of_listing,
};

/// How much the viewer knows of a tile.
#[derive(Debug, Clone, Copy, PartialEq, Eq, Structural)]
pub enum TileVisibility {
    Visible,
    Remembered,
    Unseen,
}

impl Default for TileVisibility {
    fn default() -> (r: TileVisibility)
        ensures
            r == TileVisibility::Unseen,
    {
        TileVisibility::Unseen
    }
}

/// What the viewer sees now and remembers of what it saw before.
#[derive(Debug, Clone)]
pub struct VisibilityState {
    visible: BTreeSet<(i32, i32, i32)>,
    memory: BTreeMap<(i32, i32, i32), BlockType>,
    fov_dirty: bool,
    fov_recompute_count: u64,
}

/// Abstract state of a [`VisibilityState`].
pub struct VisibilityModel {
    pub visible: Set<(i32, i32, i32)>,
    pub memory: Map<(i32, i32, i32), BlockType>,
    pub fov_dirty: bool,
    pub fov_recompute_count: u64,
}

impl View for VisibilityState {
    type V = VisibilityModel;

    closed spec fn view(&self) -> VisibilityModel {
        VisibilityModel {
            visible: self.visible@,
            memory: self.memory@,
            fov_dirty: self.fov_dirty,
            fov_recompute_count: self.fov_recompute_count,
        }
    }
}

/// Visibility of `pos`: seen now, remembered, or never seen.
pub open spec fn visibility_spec(m: VisibilityModel, pos: Vec3i) -> TileVisibility {
    if m.visible.contains(pos.key()) {
        TileVisibility::Visible
    } else if m.memory.contains_key(pos.key()) {
        TileVisibility::Remembered
    } else {
        TileVisibility::Unseen
    }
}

impl Default for VisibilityState {
    fn default() -> (r: VisibilityState)
        ensures
            r@ == (VisibilityModel {
                visible: Set::empty(),
                memory: Map::empty(),
                fov_dirty: true,
                fov_recompute_count: 0,
            }),
    {
        VisibilityState {
            visible: BTreeSet::new(),
            memory: BTreeMap::new(),
            fov_dirty: true,
            fov_recompute_count: 0,
        }
    }
}

impl VisibilityState {
    /// Forget everything seen and remembered; the field of view is due.
    pub fn reset(&mut self)
        ensures
            final(self)@ == (VisibilityModel {
                visible: Set::empty(),
                memory: Map::empty(),
                fov_dirty: true,
                fov_recompute_count: 0,
            }),
    {
        self.visible.clear();
        self.memory.clear();
        self.fov_dirty = true;
        self.fov_recompute_count = 0;
    }

    pub fn mark_fov_dirty(&mut self)
        ensures
            final(self)@ == (VisibilityModel { fov_dirty: true, ..old(self)@ }),
    {
        self.fov_dirty = true;
    }

    pub fn fov_dirty(&self) -> (r: bool)
        ensures
            r == self@.fov_dirty,
    {
        self.fov_dirty
    }

    pub fn fov_recompute_count(&self) -> (r: u64)
        ensures
            r == self@.fov_recompute_count,
    {
        self.fov_recompute_count
    }

    pub fn visible_count(&self) -> (r: usize)
        ensures
            r == self@.visible.len(),
    {
        self.visible.len()
    }

    pub fn remembered_count(&self) -> (r: usize)
        ensures
            r == self@.memory.len(),
    {
        self.memory.len()
    }

    pub fn visibility_at(&self, pos: Vec3i) -> (r: TileVisibility)
        ensures
            r == visibility_spec(self@, pos),
    {
        let key = (pos.x, pos.y, pos.z);
        if self.visible.contains(&key) {
            TileVisibility::Visible
        } else if self.memory.contains_key(&key) {
            TileVisibility::Remembered
        } else {
            TileVisibility::Unseen
        }
    }

    /// The remembered block at `pos`, if any.
    pub fn remembered_block_at(&self, pos: Vec3i) -> (r: Option<BlockType>)
        ensures
            r == (if self@.memory.contains_key(pos.key()) {
                Some(self@.memory[pos.key()])
            } else {
                None
            }),
    {
        match self.memory.get(&(pos.x, pos.y, pos.z)) {
            Some(b) => Some(*b),
            None => None,
        }
    }
}

/// Bit `k` of a column's terrain-solid bits: the voxel `k` levels below
/// the view level is known solid.
pub open spec fn bit_set(bits: u8, k: int) -> bool {
    bits & (1u8 << (k as u8)) != 0
}

/// What the tile at `(x, y)` shows `k` levels below `view_z`, if anything.
/// In entity mode visible tiles show the projected terrain, remembered
/// tiles the remembered block, and unseen tiles nothing.
pub open spec fn floor_hit(
    bits: u8,
    vis: VisibilityModel,
    mode: ViewMode,
    view_z: i32,
    x: i32,
    y: i32,
    k: int,
) -> Option<TileVisibility> {
    let pos = Vec3i { x, y, z: (view_z - k) as i32 };
    if mode == ViewMode::Entity {
        match visibility_spec(vis, pos) {
            TileVisibility::Visible => if bit_set(bits, k) {
                Some(TileVisibility::Visible)
            } else {
                None
            },
            TileVisibility::Remembered => if vis.memory[pos.key()] == BlockType::SolidStone {
                Some(TileVisibility::Remembered)
            } else {
                None
            },
            TileVisibility::Unseen => None,
        }
    } else if bit_set(bits, k) {
        Some(TileVisibility::Visible)
    } else {
        None
    }
}

/// The first floor found scanning down from `k` levels below `view_z` to
/// the bottom of the scanned slice.
pub open spec fn topmost_from(
    bits: u8,
    vis: VisibilityModel,
    mode: ViewMode,
    view_z: i32,
    x: i32,
    y: i32,
    k: int,
) -> Option<(i32, TileVisibility)>
    decreases 6 - k,
{
    if k < 0 || k > 5 {
        None
    } else {
        match floor_hit(bits, vis, mode, view_z, x, y, k) {
            Some(v) => Some(((view_z - k) as i32, v)),
            None => topmost_from(bits, vis, mode, view_z, x, y, k + 1),
        }
    }
}

/// Topmost floor of one tile from its column's terrain-solid bits, scanning
/// from `view_z` down through the slice.
pub fn topmost_floor(
    solid_bits: u8,
    visibility: &VisibilityState,
    view_mode: ViewMode,
    view_z: i32,
    tile_x: i32,
    tile_y: i32,
) -> (r: Option<(i32, TileVisibility)>)
    requires
        view_z >= i32::MIN + 5,
    ensures
        r == topmost_from(solid_bits, visibility@, view_mode, view_z, tile_x, tile_y, 0),
{
    let mut offset: u8 = 0;
    while offset <= 5
        invariant
            offset <= 6,
            view_z >= i32::MIN + 5,
            topmost_from(solid_bits, visibility@, view_mode, view_z, tile_x, tile_y, 0) == topmost_from(
                solid_bits,
                visibility@,
                view_mode,
                view_z,
                tile_x,
                tile_y,
                offset as int,
            ),
        decreases 6 - offset,
    {
        let z = view_z - offset as i32;
        let terrain_solid = solid_bits & (1u8 << offset) != 0;
        let pos = Vec3i { x: tile_x, y: tile_y, z };
        let hit = if view_mode == ViewMode::Entity {
            match visibility.visibility_at(pos) {
                TileVisibility::Visible => if terrain_solid {
                    Some(TileVisibility::Visible)
                } else {
                    None
                },
                TileVisibility::Remembered => match visibility.remembered_block_at(pos) {
                    Some(BlockType::SolidStone) => Some(TileVisibility::Remembered),
                    _ => None,
                },
                TileVisibility::Unseen => None,
            }
        } else if terrain_solid {
            Some(TileVisibility::Visible)
        } else {
            None
        };
        proof {
            assert(hit == floor_hit(solid_bits, visibility@, view_mode, view_z, tile_x, tile_y, offset as int));
        }
        if let Some(v) = hit {
            return Some((z, v));
        }
        offset = offset + 1;
    }
    None
}

/// The player at `p` is hidden from the view level by known solid terrain
/// strictly between them (the player's own level counts when it is above).
pub open spec fn occluded_spec(
    chunks: Map<(i32, i32, i32), crate::projection::ChunkView>,
    dims: crate::geometry::Vec3u,
    p: Vec3i,
    view_z: i32,
) -> bool {
    let (lo, hi) = if p.z < view_z {
        (p.z + 1, view_z as int)
    } else {
        (view_z + 1, p.z as int)
    };
    &&& p.z != view_z
    &&& exists|z: int|
        lo <= z <= hi && #[trigger] known_solid_spec(chunks, dims, Vec3i { x: p.x, y: p.y, z: z as i32 })
}

/// Known solid terrain between the player and the view level hides the
/// player: below the view, any known solid voxel of the player's column
/// above the player up to the view level; above it, any from just above the
/// view level up to the player's own level; never when on the view level.
/// A frame then draws no player quad.
pub proof fn lemma_roof_hides_player(
    chunks: Map<(i32, i32, i32), crate::projection::ChunkView>,
    dims: crate::geometry::Vec3u,
    vis: VisibilityModel,
    mode: ViewMode,
    view_z: i32,
    entities: Seq<EntityView>,
    primary: Option<u64>,
)
    ensures
        forall|p: Vec3i|
            #![trigger occluded_spec(chunks, dims, p, view_z)]
            p.z < view_z ==> (occluded_spec(chunks, dims, p, view_z) <==> exists|z: int|
                p.z < z <= view_z && #[trigger] known_solid_spec(chunks, dims, Vec3i { x: p.x, y: p.y, z: z as i32 })),
        forall|p: Vec3i|
            #![trigger occluded_spec(chunks, dims, p, view_z)]
            p.z > view_z ==> (occluded_spec(chunks, dims, p, view_z) <==> exists|z: int|
                view_z < z <= p.z && #[trigger] known_solid_spec(chunks, dims, Vec3i { x: p.x, y: p.y, z: z as i32 })),
        forall|p: Vec3i| #![trigger occluded_spec(chunks, dims, p, view_z)] p.z == view_z ==> !occluded_spec(chunks, dims, p, view_z),
        primary_spec(entities, primary) matches Some(pl) && pl.position.z < view_z && (exists|z: int|
            pl.position.z < z <= view_z && #[trigger] known_solid_spec(
                chunks,
                dims,
                Vec3i { x: pl.position.x, y: pl.position.y, z: z as i32 },
            )) ==> shown_player(chunks, dims, vis, mode, view_z, entities, primary) is None,
{
    match primary_spec(entities, primary) {
        Some(pl) => {
            assert(pl.position.z < view_z ==> (occluded_spec(chunks, dims, pl.position, view_z) <==> exists|z: int|
                pl.position.z < z <= view_z && #[trigger] known_solid_spec(
                    chunks,
                    dims,
                    Vec3i { x: pl.position.x, y: pl.position.y, z: z as i32 },
                )));
        },
        None => {},
    }
}

pub fn player_occluded(client: &ClientView, player_pos: Vec3i, view_z: i32) -> (r: bool)
    requires
        client.wf(),
    ensures
        r == occluded_spec(client.chunks@, client.world_chunks, player_pos, view_z),
{
    if player_pos.z == view_z {
        return false;
    }
    let (lo, hi) = if player_pos.z < view_z {
        (player_pos.z as i64 + 1, view_z as i64)
    } else {
        (view_z as i64 + 1, player_pos.z as i64)
    };
    let mut z = lo;
    while z <= hi
        invariant
            lo <= z <= hi + 1,
            i32::MIN <= lo,
            hi <= i32::MAX,
            (lo as int, hi as int) == (if player_pos.z < view_z {
                (player_pos.z + 1, view_z as int)
            } else {
                (view_z + 1, player_pos.z as int)
            }),
            client.wf(),
            forall|w: int|
                lo <= w < z ==> !#[trigger] known_solid_spec(
                    client.chunks@,
                    client.world_chunks,
                    Vec3i { x: player_pos.x, y: player_pos.y, z: w as i32 },
                ),
        decreases hi + 1 - z,
    {
        if known_solid(client, Vec3i { x: player_pos.x, y: player_pos.y, z: z as i32 }) {
            return true;
        }
        z = z + 1;
    }
    false
}

/// Position of the first entity with `id` at or after `from`.
pub open spec fn index_of_id(entities: Seq<EntityView>, id: u64, from: int) -> Option<int>
    decreases entities.len() - from,
{
    if from < 0 || from >= entities.len() {
        None
    } else if entities[from].id == id {
        Some(from)
    } else {
        index_of_id(entities, id, from + 1)
    }
}

/// The entity the view follows: the primary entity when it is projected,
/// else the first projected entity.
pub open spec fn primary_spec(entities: Seq<EntityView>, primary: Option<u64>) -> Option<EntityView> {
    let found = match primary {
        Some(id) => index_of_id(entities, id, 0),
        None => None,
    };
    match found {
        Some(i) => Some(entities[i]),
        None => if entities.len() > 0 {
            Some(entities[0])
        } else {
            None
        },
    }
}

pub fn primary_entity(client: &ClientView) -> (r: Option<EntityView>)
    ensures
        r == primary_spec(client.entities@, client.primary_entity_id),
{
    let n = client.entities.len();
    if let Some(id) = client.primary_entity_id {
        let mut i: usize = 0;
        while i < n
            invariant
                n == client.entities@.len(),
                i <= n,
                client.primary_entity_id == Some(id),
                index_of_id(client.entities@, id, 0) == index_of_id(client.entities@, id, i as int),
            decreases n - i,
        {
            if client.entities[i].id == id {
                proof {
                    assert(index_of_id(client.entities@, id, i as int) == Some(i as int));
                    assert(client.primary_entity_id == Some(id));
                }
                return Some(client.entities[i]);
            }
            i = i + 1;
        }
    }
    if n > 0 {
        Some(client.entities[0])
    } else {
        None
    }
}


/// Chunk `(key, cz)` matters to the scanned slice `[view_z - 5, view_z]`:
/// it is in the grid and its z range meets the slice.
pub open spec fn source_relevant(dims: Vec3u, key: (i32, i32), view_z: i32, cz: int) -> bool {
    match world_voxel_bounds(dims) {
        None => false,
        Some((mn, _)) => {
            let base_z = axis_base(mn.2, cz, dims.z);
            &&& crate::coords::in_chunk_grid(dims, (key.0, key.1, cz as i32))
            &&& base_z <= view_z
            &&& base_z + 15 >= view_z - 5
        },
    }
}

/// The `(chunk z, terrain revision)` sources of a column's slice from
/// z-chunk `cz` up to `end`, or `None` when a relevant chunk is missing.
pub open spec fn sources_from(
    chunks: Map<(i32, i32, i32), ChunkView>,
    dims: Vec3u,
    key: (i32, i32),
    view_z: i32,
    cz: int,
    end: int,
) -> Option<Seq<(i32, u64)>>
    decreases end - cz,
{
    if cz >= end {
        Some(Seq::empty())
    } else if !source_relevant(dims, key, view_z, cz) {
        sources_from(chunks, dims, key, view_z, cz + 1, end)
    } else if !chunks.contains_key((key.0, key.1, cz as i32)) {
        None
    } else {
        match sources_from(chunks, dims, key, view_z, cz + 1, end) {
            None => None,
            Some(rest) => Some(seq![(cz as i32, chunks[(key.0, key.1, cz as i32)].terrain_revision)] + rest),
        }
    }
}

/// Exact sources of a column's scanned slice, `None` when a source chunk is
/// missing from the projection.
pub open spec fn column_sources_spec(
    chunks: Map<(i32, i32, i32), ChunkView>,
    dims: Vec3u,
    key: (i32, i32),
    view_z: i32,
) -> Option<Seq<(i32, u64)>> {
    if dims.z > i32::MAX {
        None
    } else {
        sources_from(chunks, dims, key, view_z, -(dims.z / 2), dims.z - dims.z / 2)
    }
}

pub fn column_sources(client: &ClientView, key: (i32, i32), view_z: i32) -> (r: Option<Vec<(i32, u64)>>)
    ensures
        match column_sources_spec(client.chunks@, client.world_chunks, key, view_z) {
            None => r is None,
            Some(s) => r is Some && r.unwrap()@ == s,
        },
{
    let dims = client.world_chunks;
    if dims.z > i32::MAX as u32 {
        return None;
    }
    let center = (dims.z / 2) as i64;
    let end = dims.z as i64 - center;
    let bounds = world_bounds_exec(dims);
    let mut sources: Vec<(i32, u64)> = Vec::new();
    let mut cz = -center;
    let ghost chunks = client.chunks@;
    let ghost start = -center as int;
    while cz < end
        invariant
            chunks == client.chunks@,
            dims == client.world_chunks,
            dims.z <= i32::MAX,
            center == dims.z / 2,
            end == dims.z - dims.z / 2,
            start == -center,
            -center <= cz <= end,
            bounds is Some <==> world_voxel_bounds(dims) is Some,
            bounds is Some ==> bounds.unwrap().0.2 == world_voxel_bounds(dims).unwrap().0.2,
            bounds is Some ==> -(i32::MAX as int) <= bounds.unwrap().0.2 <= 0,
            bounds is Some ==> crate::coords::grid_fits(dims),
            sources_from(chunks, dims, key, view_z, start, end as int) == match sources_from(
                chunks,
                dims,
                key,
                view_z,
                cz as int,
                end as int,
            ) {
                None => None,
                Some(rest) => Some(sources@ + rest),
            },
        decreases end - cz,
    {
        let relevant = match bounds {
            None => false,
            Some((mn, _)) => {
                let in_grid = crate::coords::in_chunk_grid_exec(dims, key.0, key.1, cz as i32);
                let base_z = mn.2 + (cz + center) * 16;
                in_grid && base_z <= view_z as i64 && base_z + 15 >= view_z as i64 - 5
            },
        };
        proof {
            assert(relevant == source_relevant(dims, key, view_z, cz as int));
        }
        if relevant {
            let chunk = (key.0, key.1, cz as i32);
            match client.chunks.get(&chunk) {
                None => {
                    return None;
                },
                Some(view) => {
                    let ghost before = sources@;
                    sources.push((cz as i32, view.terrain_revision));
                    proof {
                        let item = (cz as i32, view.terrain_revision);
                        match sources_from(chunks, dims, key, view_z, cz + 1, end as int) {
                            None => {},
                            Some(rest) => {
                                assert(before + (seq![item] + rest) =~= sources@ + rest);
                            },
                        }
                    }
                },
            }
        }
        cz = cz + 1;
    }
    proof {
        assert(sources@ + Seq::<(i32, u64)>::empty() =~= sources@);
    }
    Some(sources)
}


/// Terrain-solid bits of the column at `(x, y)` for the first `k` levels
/// below `view_z`: bit `j` set when that voxel is known solid.
pub open spec fn solid_bits_spec(
    chunks: Map<(i32, i32, i32), ChunkView>,
    dims: Vec3u,
    x: i32,
    y: i32,
    view_z: i32,
    k: int,
) -> u8
    decreases k,
{
    if k <= 0 {
        0
    } else {
        let prev = solid_bits_spec(chunks, dims, x, y, view_z, k - 1);
        if known_solid_spec(chunks, dims, Vec3i { x, y, z: (view_z - (k - 1)) as i32 }) {
            prev | (1u8 << ((k - 1) as u8))
        } else {
            prev
        }
    }
}

proof fn lemma_or_bit(b: u8, j: u8, i: u8)
    requires
        j < 8,
        i < 8,
    ensures
        ((b | (1u8 << j)) & (1u8 << i) != 0) == ((b & (1u8 << i) != 0) || i == j),
{
    assert(((b | (1u8 << j)) & (1u8 << i) != 0) == ((b & (1u8 << i) != 0) || i == j)) by (bit_vector)
        requires
            j < 8,
            i < 8,
    ;
}

proof fn lemma_zero_bits(i: u8)
    requires
        i < 8,
    ensures
        (0u8 & (1u8 << i)) == 0,
{
    assert((0u8 & (1u8 << i)) == 0) by (bit_vector)
        requires
            i < 8,
    ;
}

/// Bit `j` of a column's solid bits says exactly whether the voxel `j`
/// levels below the view level is known solid.
pub proof fn lemma_solid_bits_meaning(
    chunks: Map<(i32, i32, i32), ChunkView>,
    dims: Vec3u,
    x: i32,
    y: i32,
    view_z: i32,
    k: int,
    j: int,
)
    requires
        0 <= j < 8,
        0 <= k <= 6,
    ensures
        bit_set(solid_bits_spec(chunks, dims, x, y, view_z, k), j) == (j < k && known_solid_spec(
            chunks,
            dims,
            Vec3i { x, y, z: (view_z - j) as i32 },
        )),
    decreases k,
{
    if k == 0 {
        lemma_zero_bits(j as u8);
    } else {
        lemma_solid_bits_meaning(chunks, dims, x, y, view_z, k - 1, j);
        let prev = solid_bits_spec(chunks, dims, x, y, view_z, k - 1);
        lemma_or_bit(prev, (k - 1) as u8, j as u8);
    }
}

/// Terrain-solid bits of the 16 x 16 tiles of a column whose corner tile
/// is `(base_x, base_y)` (y-major, x fastest).
pub fn build_solid_mask(client: &ClientView, base_x: i32, base_y: i32, view_z: i32) -> (r: Vec<u8>)
    requires
        client.wf(),
        base_x <= i32::MAX - 15,
        base_y <= i32::MAX - 15,
        view_z >= i32::MIN + 5,
    ensures
        r@.len() == 256,
        forall|i: int|
            0 <= i < 256 ==> #[trigger] r@[i] == solid_bits_spec(
                client.chunks@,
                client.world_chunks,
                (base_x + i % 16) as i32,
                (base_y + i / 16) as i32,
                view_z,
                6,
            ),
{
    let mut mask: Vec<u8> = Vec::new();
    let mut ty: i32 = 0;
    while ty < 16
        invariant
            client.wf(),
            base_x <= i32::MAX - 15,
            base_y <= i32::MAX - 15,
            view_z >= i32::MIN + 5,
            0 <= ty <= 16,
            mask@.len() == ty * 16,
            forall|i: int|
                0 <= i < ty * 16 ==> #[trigger] mask@[i] == solid_bits_spec(
                    client.chunks@,
                    client.world_chunks,
                    (base_x + i % 16) as i32,
                    (base_y + i / 16) as i32,
                    view_z,
                    6,
                ),
        decreases 16 - ty,
    {
        let mut tx: i32 = 0;
        while tx < 16
            invariant
                client.wf(),
                base_x <= i32::MAX - 15,
                base_y <= i32::MAX - 15,
                view_z >= i32::MIN + 5,
                0 <= ty < 16,
                0 <= tx <= 16,
                mask@.len() == ty * 16 + tx,
                forall|i: int|
                    0 <= i < ty * 16 + tx ==> #[trigger] mask@[i] == solid_bits_spec(
                        client.chunks@,
                        client.world_chunks,
                        (base_x + i % 16) as i32,
                        (base_y + i / 16) as i32,
                        view_z,
                        6,
                    ),
            decreases 16 - tx,
        {
            let x = base_x + tx;
            let y = base_y + ty;
            let mut bits: u8 = 0;
            let mut offset: u8 = 0;
            while offset <= 5
                invariant
                    client.wf(),
                    view_z >= i32::MIN + 5,
                    offset <= 6,
                    bits == solid_bits_spec(client.chunks@, client.world_chunks, x, y, view_z, offset as int),
                decreases 6 - offset,
            {
                let pos = Vec3i { x, y, z: view_z - offset as i32 };
                if known_solid(client, pos) {
                    bits = bits | (1u8 << offset);
                }
                offset = offset + 1;
            }
            let ghost before = mask@;
            mask.push(bits);
            proof {
                let n = ty * 16 + tx;
                assert(n % 16 == tx && n / 16 == ty);
                assert forall|i: int| 0 <= i < n + 1 implies #[trigger] mask@[i] == solid_bits_spec(
                    client.chunks@,
                    client.world_chunks,
                    (base_x + i % 16) as i32,
                    (base_y + i / 16) as i32,
                    view_z,
                    6,
                ) by {
                    if i < n {
                        assert(mask@[i] == before[i]);
                    }
                }
            }
            tx = tx + 1;
        }
        ty = ty + 1;
    }
    mask
}


/// `m` is the terrain-solid mask of the column whose corner tile is
/// `(base_x, base_y)`.
pub open spec fn is_solid_mask(
    m: Seq<u8>,
    chunks: Map<(i32, i32, i32), ChunkView>,
    dims: Vec3u,
    base_x: i32,
    base_y: i32,
    view_z: i32,
) -> bool {
    &&& m.len() == 256
    &&& forall|i: int|
        0 <= i < 256 ==> #[trigger] m[i] == solid_bits_spec(
            chunks,
            dims,
            (base_x + i % 16) as i32,
            (base_y + i / 16) as i32,
            view_z,
            6,
        )
}

/// One cached column: the view level and exact sources it was built from,
/// and its terrain-solid mask.
#[derive(Debug, Clone)]
pub struct TopmostColumn {
    pub view_z: i32,
    pub sources: Vec<(i32, u64)>,
    pub solid: Vec<u8>,
}

/// Per-column cache of terrain-solid masks. An entry is reused only when
/// its view level and every `(chunk z, terrain revision)` source still
/// match; columns with a missing source chunk are rebuilt every time and
/// never cached.
#[derive(Debug)]
pub struct TopmostCache {
    entries: BTreeMap<(i32, i32), TopmostColumn>,
    hits: u64,
    rebuilds: u64,
}

pub struct TopmostModel {
    pub entries: Map<(i32, i32), TopmostColumn>,
    pub hits: u64,
    pub rebuilds: u64,
}

impl View for TopmostCache {
    type V = TopmostModel;

    closed spec fn view(&self) -> TopmostModel {
        TopmostModel { entries: self.entries@, hits: self.hits, rebuilds: self.rebuilds }
    }
}

/// A counter after one more event (saturating).
pub open spec fn bump(c: u64) -> u64 {
    if c == u64::MAX {
        c
    } else {
        (c + 1) as u64
    }
}

fn copy_bytes(v: &Vec<u8>) -> (r: Vec<u8>)
    ensures
        r@ == v@,
{
    let mut out: Vec<u8> = Vec::new();
    let n = v.len();
    let mut i: usize = 0;
    while i < n
        invariant
            n == v@.len(),
            i <= n,
            out@ == v@.subrange(0, i as int),
        decreases n - i,
    {
        out.push(v[i]);
        proof {
            assert(out@ =~= v@.subrange(0, i as int + 1));
        }
        i = i + 1;
    }
    proof {
        assert(out@ =~= v@);
    }
    out
}

fn copy_sources(v: &Vec<(i32, u64)>) -> (r: Vec<(i32, u64)>)
    ensures
        r@ == v@,
{
    let mut out: Vec<(i32, u64)> = Vec::new();
    let n = v.len();
    let mut i: usize = 0;
    while i < n
        invariant
            n == v@.len(),
            i <= n,
            out@ == v@.subrange(0, i as int),
        decreases n - i,
    {
        out.push(v[i]);
        proof {
            assert(out@ =~= v@.subrange(0, i as int + 1));
        }
        i = i + 1;
    }
    proof {
        assert(out@ =~= v@);
    }
    out
}

fn same_sources(a: &Vec<(i32, u64)>, b: &Vec<(i32, u64)>) -> (r: bool)
    ensures
        r == (a@ == b@),
{
    if a.len() != b.len() {
        return false;
    }
    let n = a.len();
    let mut i: usize = 0;
    while i < n
        invariant
            n == a@.len(),
            n == b@.len(),
            i <= n,
            forall|j: int| 0 <= j < i ==> a@[j] == b@[j],
        decreases n - i,
    {
        if a[i].0 != b[i].0 || a[i].1 != b[i].1 {
            return false;
        }
        i = i + 1;
    }
    proof {
        assert(a@ =~= b@);
    }
    true
}

impl Default for TopmostCache {
    fn default() -> (r: TopmostCache)
        ensures
            r@ == (TopmostModel { entries: Map::empty(), hits: 0, rebuilds: 0 }),
    {
        TopmostCache { entries: BTreeMap::new(), hits: 0, rebuilds: 0 }
    }
}

impl TopmostCache {
    pub fn clear(&mut self)
        ensures
            final(self)@ == (TopmostModel { entries: Map::empty(), hits: 0, rebuilds: 0 }),
    {
        self.entries.clear();
        self.hits = 0;
        self.rebuilds = 0;
    }

    pub fn len(&self) -> (r: usize)
        ensures
            r == self@.entries.len(),
    {
        self.entries.len()
    }

    pub fn is_empty(&self) -> (r: bool)
        ensures
            r == (self@.entries.len() == 0),
    {
        self.entries.len() == 0
    }

    pub fn hits(&self) -> (r: u64)
        ensures
            r == self@.hits,
    {
        self.hits
    }

    pub fn rebuilds(&self) -> (r: u64)
        ensures
            r == self@.rebuilds,
    {
        self.rebuilds
    }

    /// Whether column `key` is cached.
    pub fn contains_column(&self, key: (i32, i32)) -> (r: bool)
        ensures
            r == self@.entries.contains_key(key),
    {
        self.entries.contains_key(&key)
    }

    /// View level and sources of cached column `key`.
    pub fn column_entry(&self, key: (i32, i32)) -> (r: Option<(i32, Vec<(i32, u64)>)>)
        ensures
            match r {
                None => !self@.entries.contains_key(key),
                Some((z, src)) => self@.entries.contains_key(key) && z == self@.entries[key].view_z
                    && src@ == self@.entries[key].sources@,
            },
    {
        match self.entries.get(&key) {
            None => None,
            Some(e) => Some((e.view_z, copy_sources(&e.sources))),
        }
    }

    /// Terrain-solid mask of one column: the cached mask when the entry's
    /// view level and sources still match (a hit), else a fresh mask that
    /// is cached when every source chunk is projected (a rebuild).
    pub fn solid_mask(&mut self, client: &ClientView, key: (i32, i32), base_x: i32, base_y: i32, view_z: i32) -> (r: Vec<u8>)
        requires
            client.wf(),
            base_x <= i32::MAX - 15,
            base_y <= i32::MAX - 15,
            view_z >= i32::MIN + 5,
        ensures
            match column_sources_spec(client.chunks@, client.world_chunks, key, view_z) {
                None => {
                    &&& is_solid_mask(r@, client.chunks@, client.world_chunks, base_x, base_y, view_z)
                    &&& final(self)@.entries == old(self)@.entries.remove(key)
                    &&& final(self)@.hits == old(self)@.hits
                    &&& final(self)@.rebuilds == bump(old(self)@.rebuilds)
                },
                Some(src) => {
                    let valid = old(self)@.entries.contains_key(key) && old(self)@.entries[key].view_z == view_z
                        && old(self)@.entries[key].sources@ == src;
                    &&& valid ==> {
                        &&& r@ == old(self)@.entries[key].solid@
                        &&& final(self)@ == (TopmostModel { hits: bump(old(self)@.hits), ..old(self)@ })
                    }
                    &&& !valid ==> {
                        &&& is_solid_mask(r@, client.chunks@, client.world_chunks, base_x, base_y, view_z)
                        &&& final(self)@.entries.dom() == old(self)@.entries.dom().insert(key)
                        &&& final(self)@.entries[key].view_z == view_z
                        &&& final(self)@.entries[key].sources@ == src
                        &&& final(self)@.entries[key].solid@ == r@
                        &&& forall|k: (i32, i32)| k != key && #[trigger] old(self)@.entries.contains_key(k)
                            ==> final(self)@.entries[k] == old(self)@.entries[k]
                        &&& final(self)@.hits == old(self)@.hits
                        &&& final(self)@.rebuilds == bump(old(self)@.rebuilds)
                    }
                },
            },
    {
        match column_sources(client, key, view_z) {
            Some(sources) => {
                let valid = match self.entries.get(&key) {
                    Some(entry) => entry.view_z == view_z && same_sources(&entry.sources, &sources),
                    None => false,
                };
                if valid {
                    self.hits = self.hits.saturating_add(1);
                    match self.entries.get(&key) {
                        Some(entry) => copy_bytes(&entry.solid),
                        None => Vec::new(),
                    }
                } else {
                    let solid = build_solid_mask(client, base_x, base_y, view_z);
                    let out = copy_bytes(&solid);
                    self.entries.insert(key, TopmostColumn { view_z, sources, solid });
                    self.rebuilds = self.rebuilds.saturating_add(1);
                    out
                }
            },
            None => {
                self.entries.remove(&key);
                self.rebuilds = self.rebuilds.saturating_add(1);
                build_solid_mask(client, base_x, base_y, view_z)
            },
        }
    }

    /// Evict every cached column outside `keys`.
    pub fn retain_columns(&mut self, keys: &BTreeSet<(i32, i32)>)
        ensures
            final(self)@ == (TopmostModel { entries: old(self)@.entries.restrict(keys@), ..old(self)@ }),
    {
        let ghost old_map = self.entries@;
        let mut stale: Vec<(i32, i32)> = Vec::new();
        for k in it: self.entries.keys()
            invariant
                old_map == self.entries@,
                forall|i: int| 0 <= i < it.seq().len() ==> old_map.dom().contains(*#[trigger] it.seq()[i]),
                forall|q: (i32, i32)| #[trigger]
                    old_map.dom().contains(q) ==> exists|i: int| 0 <= i < it.seq().len() && *it.seq()[i] == q,
                forall|q: (i32, i32)| #[trigger] stale@.contains(q) <==> (exists|i: int| 0 <= i < it.index() && *it.seq()[i] == q) && !keys@.contains(q),
        {
            let key = *k;
            if !keys.contains(&key) {
                let ghost before = stale@;
                stale.push(key);
                proof {
                    assert(stale@ == before.push(key));
                    assert forall|q: (i32, i32)| #[trigger] stale@.contains(q) <==> (exists|i: int| 0 <= i < it.index() + 1 && *it.seq()[i] == q) && !keys@.contains(q) by {
                        if stale@.contains(q) && q != key {
                            let j = choose|j: int| 0 <= j < stale@.len() && stale@[j] == q;
                            assert(before[j] == q);
                            assert(before.contains(q));
                        }
                        if before.contains(q) {
                            let j = choose|j: int| 0 <= j < before.len() && before[j] == q;
                            assert(stale@[j] == q);
                        }
                        if q == key {
                            assert(stale@[stale@.len() - 1] == key);
                            assert(*it.seq()[it.index() as int] == q);
                        }
                    }
                }
            } else {
                proof {
                    assert forall|q: (i32, i32)| #[trigger] stale@.contains(q) <==> (exists|i: int| 0 <= i < it.index() + 1 && *it.seq()[i] == q) && !keys@.contains(q) by {
                        if exists|i: int| 0 <= i < it.index() + 1 && *it.seq()[i] == q {
                            let i = choose|i: int| 0 <= i < it.index() + 1 && *it.seq()[i] == q;
                            if i == it.index() {
                                assert(keys@.contains(q));
                            }
                        }
                    }
                }
            }
        }
        let n = stale.len();
        let mut i: usize = 0;
        while i < n
            invariant
                n == stale@.len(),
                i <= n,
                forall|q: (i32, i32)| #[trigger] stale@.contains(q) <==> old_map.dom().contains(q) && !keys@.contains(q),
                forall|q: (i32, i32)| #[trigger]
                    self.entries@.contains_key(q) <==> old_map.contains_key(q) && !(exists|j: int| 0 <= j < i && stale@[j] == q),
                forall|q: (i32, i32)| #[trigger] self.entries@.contains_key(q) ==> self.entries@[q] == old_map[q],
                self.hits == old(self)@.hits,
                self.rebuilds == old(self)@.rebuilds,
            decreases n - i,
        {
            let key = stale[i];
            self.entries.remove(&key);
            i = i + 1;
        }
        proof {
            assert(self.entries@ =~= old_map.restrict(keys@)) by {
                assert forall|q: (i32, i32)| self.entries@.contains_key(q) <==> old_map.restrict(keys@).contains_key(q) by {
                    if old_map.contains_key(q) && !keys@.contains(q) {
                        assert(stale@.contains(q));
                    }
                    if exists|j: int| 0 <= j < n && stale@[j] == q {
                        let j = choose|j: int| 0 <= j < n && stale@[j] == q;
                        assert(stale@.contains(q));
                    }
                }
            }
        }
    }
}

/// Derived render caches; safe to clear at any lifecycle boundary.
#[derive(Debug)]
pub struct RenderCaches {
    pub topmost: TopmostCache,
}

impl Default for RenderCaches {
    fn default() -> (r: RenderCaches)
        ensures
            r.topmost@ == (TopmostModel { entries: Map::empty(), hits: 0, rebuilds: 0 }),
    {
        RenderCaches { topmost: TopmostCache::default() }
    }
}

impl RenderCaches {
    /// Lifecycle reset: revisions restart in a new world, so no stale entry
    /// may ever match again.
    pub fn reset(&mut self)
        ensures
            final(self).topmost@ == (TopmostModel { entries: Map::empty(), hits: 0, rebuilds: 0 }),
    {
        self.topmost.clear();
    }
}


/// Radius of the field of view, in voxels.
pub const FOV_RADIUS: i32 = 20;

/// `s` holds the voxel at integer coordinates `(x, y, z)`.
pub open spec fn has_voxel(s: Set<(i32, i32, i32)>, x: int, y: int, z: int) -> bool {
    &&& i32::MIN <= x <= i32::MAX
    &&& i32::MIN <= y <= i32::MAX
    &&& i32::MIN <= z <= i32::MAX
    &&& s.contains((x as i32, y as i32, z as i32))
}

pub open spec fn key_vec(k: (i32, i32, i32)) -> Vec3i {
    Vec3i { x: k.0, y: k.1, z: k.2 }
}

/// Voxel `c` lies in the field-of-view sphere around `p`.
pub open spec fn in_sphere(p: Vec3i, c: (i32, i32, i32)) -> bool {
    let (dx, dy, dz) = (c.0 - p.x, c.1 - p.y, c.2 - p.z);
    &&& -FOV_RADIUS <= dx <= FOV_RADIUS
    &&& -FOV_RADIUS <= dy <= FOV_RADIUS
    &&& -FOV_RADIUS <= dz <= FOV_RADIUS
    &&& dx * dx + dy * dy + dz * dz <= FOV_RADIUS * FOV_RADIUS
}

/// `f` decides line of sight as `model` does.
pub open spec fn los_follows<F: Fn(Vec3i, Vec3i) -> bool>(f: F, model: spec_fn(Vec3i, Vec3i) -> bool) -> bool {
    forall|a: Vec3i, b: Vec3i, r: bool| #[trigger] f.ensures((a, b), r) ==> r == model(a, b)
}

/// The line-of-sight test that accepts exactly the voxels of `sight`.
pub open spec fn sight_model(sight: Set<(i32, i32, i32)>) -> spec_fn(Vec3i, Vec3i) -> bool {
    |a: Vec3i, b: Vec3i| sight.contains(b.key())
}

/// `sight` lies in the sphere around `p` and holds a voxel of it exactly
/// when `los`, asked from `p`, may answer that it is in sight.
pub open spec fn sight_answers<F: Fn(Vec3i, Vec3i) -> bool>(los: F, p: Vec3i, sight: Set<(i32, i32, i32)>) -> bool {
    &&& forall|c: (i32, i32, i32)| #[trigger] sight.contains(c) ==> in_sphere(p, c)
    &&& forall|c: (i32, i32, i32)| #![trigger key_vec(c)] in_sphere(p, c) ==> los.ensures((p, key_vec(c)), sight.contains(c))
}

/// Voxels of the sphere around `p` in line of sight.
pub open spec fn fov_sight(p: Vec3i, los: spec_fn(Vec3i, Vec3i) -> bool) -> Set<(i32, i32, i32)> {
    Set::new(|c: (i32, i32, i32)| in_sphere(p, c) && los(p, key_vec(c)))
}

/// Voxel `(x, y, z)` is seen and not known solid.
pub open spec fn open_seen(
    s: Set<(i32, i32, i32)>,
    chunks: Map<(i32, i32, i32), ChunkView>,
    dims: Vec3u,
    x: int,
    y: int,
    z: int,
) -> bool {
    has_voxel(s, x, y, z) && !known_solid_spec(chunks, dims, Vec3i { x: x as i32, y: y as i32, z: z as i32 })
}

/// Solid walls beside seen open voxels (in x or y) that are not seen
/// themselves.
pub open spec fn fov_walls(
    s: Set<(i32, i32, i32)>,
    chunks: Map<(i32, i32, i32), ChunkView>,
    dims: Vec3u,
) -> Set<(i32, i32, i32)> {
    Set::new(
        |w: (i32, i32, i32)|
            !s.contains(w) && known_solid_spec(chunks, dims, key_vec(w)) && (open_seen(
                s,
                chunks,
                dims,
                w.0 - 1,
                w.1 as int,
                w.2 as int,
            ) || open_seen(s, chunks, dims, w.0 + 1, w.1 as int, w.2 as int) || open_seen(
                s,
                chunks,
                dims,
                w.0 as int,
                w.1 - 1,
                w.2 as int,
            ) || open_seen(s, chunks, dims, w.0 as int, w.1 + 1, w.2 as int)),
    )
}

/// The voxels just below seen air at or below the viewer's level.
pub open spec fn fov_below(
    s: Set<(i32, i32, i32)>,
    chunks: Map<(i32, i32, i32), ChunkView>,
    dims: Vec3u,
    p: Vec3i,
) -> Set<(i32, i32, i32)> {
    Set::new(
        |q: (i32, i32, i32)|
            q.2 + 1 <= p.z && has_voxel(s, q.0 as int, q.1 as int, q.2 + 1) && projected_block(
                chunks,
                dims,
                Vec3i { x: q.0, y: q.1, z: (q.2 + 1) as i32 },
            ) == Some(BlockType::Air),
    )
}

/// The field of view from `p`: voxels in sight, the walls beside the open
/// ones, and the voxels just below seen air.
pub open spec fn fov_set(
    chunks: Map<(i32, i32, i32), ChunkView>,
    dims: Vec3u,
    p: Vec3i,
    los: spec_fn(Vec3i, Vec3i) -> bool,
) -> Set<(i32, i32, i32)> {
    let s1 = fov_sight(p, los);
    let s2 = s1.union(fov_walls(s1, chunks, dims));
    s2.union(fov_below(s2, chunks, dims, p))
}

/// Visibility after recomputing the field of view: what was seen and is
/// no longer is remembered when its block is known; what is seen now is
/// not remembered.
pub open spec fn fov_update(
    old: VisibilityModel,
    chunks: Map<(i32, i32, i32), ChunkView>,
    dims: Vec3u,
    primary: Option<EntityView>,
    los: spec_fn(Vec3i, Vec3i) -> bool,
) -> VisibilityModel {
    match primary {
        None => VisibilityModel { visible: Set::empty(), ..old },
        Some(player) => {
            let next = fov_set(chunks, dims, player.position, los);
            VisibilityModel {
                visible: next,
                memory: remembered_after(old.memory, old.visible, next, chunks, dims),
                ..old
            }
        },
    }
}

/// Positions far enough from the edge of `i32` for the field of view.
pub open spec fn fov_position_ok(p: Vec3i) -> bool {
    &&& i32::MIN + 22 <= p.x <= i32::MAX - 22
    &&& i32::MIN + 22 <= p.y <= i32::MAX - 22
    &&& i32::MIN + 22 <= p.z <= i32::MAX - 22
}

/// Voxels of the sphere around `p` that the line-of-sight test accepts.
fn sight_set<F: Fn(Vec3i, Vec3i) -> bool>(p: Vec3i, los: &F) -> (r: BTreeSet<(i32, i32, i32)>)
    requires
        fov_position_ok(p),
        forall|a: Vec3i, b: Vec3i| #[trigger] los.requires((a, b)),
    ensures
        forall|c: (i32, i32, i32)| #[trigger] r@.contains(c) ==> in_sphere(p, c),
        forall|c: (i32, i32, i32)| #![trigger key_vec(c)] in_sphere(p, c) ==> los.ensures((p, key_vec(c)), r@.contains(c)),
{
    let mut set: BTreeSet<(i32, i32, i32)> = BTreeSet::new();
    let mut dz: i32 = -FOV_RADIUS;
    while dz <= FOV_RADIUS
        invariant
            fov_position_ok(p),
            forall|a: Vec3i, b: Vec3i| #[trigger] los.requires((a, b)),
            -FOV_RADIUS <= dz <= FOV_RADIUS + 1,
            forall|c: (i32, i32, i32)| #[trigger] set@.contains(c) ==> in_sphere(p, c) && c.2 - p.z < dz,
            forall|c: (i32, i32, i32)| #![trigger key_vec(c)]
                in_sphere(p, c) && c.2 - p.z < dz ==> los.ensures((p, key_vec(c)), set@.contains(c)),
        decreases FOV_RADIUS + 1 - dz,
    {
        let mut dy: i32 = -FOV_RADIUS;
        while dy <= FOV_RADIUS
            invariant
                fov_position_ok(p),
                forall|a: Vec3i, b: Vec3i| #[trigger] los.requires((a, b)),
                -FOV_RADIUS <= dz <= FOV_RADIUS,
                -FOV_RADIUS <= dy <= FOV_RADIUS + 1,
                forall|c: (i32, i32, i32)| #![trigger key_vec(c)]
                    #[trigger] set@.contains(c) ==> in_sphere(p, c) && (c.2 - p.z < dz || (c.2 - p.z == dz && c.1 - p.y < dy)),
                forall|c: (i32, i32, i32)| #![trigger key_vec(c)]
                    in_sphere(p, c) && (c.2 - p.z < dz || (c.2 - p.z == dz && c.1 - p.y < dy)) ==> los.ensures(
                        (p, key_vec(c)),
                        set@.contains(c),
                    ),
            decreases FOV_RADIUS + 1 - dy,
        {
            let mut dx: i32 = -FOV_RADIUS;
            while dx <= FOV_RADIUS
                invariant
                    fov_position_ok(p),
                    forall|a: Vec3i, b: Vec3i| #[trigger] los.requires((a, b)),
                    -FOV_RADIUS <= dz <= FOV_RADIUS,
                    -FOV_RADIUS <= dy <= FOV_RADIUS,
                    -FOV_RADIUS <= dx <= FOV_RADIUS + 1,
                    forall|c: (i32, i32, i32)| #![trigger key_vec(c)]
                        #[trigger] set@.contains(c) ==> in_sphere(p, c) && (c.2 - p.z < dz || (c.2 - p.z == dz && c.1 - p.y < dy) || (c.2
                            - p.z == dz && c.1 - p.y == dy && c.0 - p.x < dx)),
                    forall|c: (i32, i32, i32)| #![trigger key_vec(c)]
                        in_sphere(p, c) && (c.2 - p.z < dz || (c.2 - p.z == dz && c.1 - p.y < dy) || (c.2 - p.z == dz && c.1 - p.y
                            == dy && c.0 - p.x < dx)) ==> los.ensures((p, key_vec(c)), set@.contains(c)),
                decreases FOV_RADIUS + 1 - dx,
            {
                let ghost c = (p.x + dx, p.y + dy, p.z + dz);
                proof {
                    assert(0 <= dx * dx <= 400 && 0 <= dy * dy <= 400 && 0 <= dz * dz <= 400) by (nonlinear_arith)
                        requires
                            -20 <= dx <= 20,
                            -20 <= dy <= 20,
                            -20 <= dz <= 20,
                    ;
                }
                if dx * dx + dy * dy + dz * dz <= FOV_RADIUS * FOV_RADIUS {
                    let candidate = Vec3i { x: p.x + dx, y: p.y + dy, z: p.z + dz };
                    let seen = los(p, candidate);
                    if seen {
                        set.insert((candidate.x, candidate.y, candidate.z));
                    }
                    proof {
                        assert(key_vec((candidate.x, candidate.y, candidate.z)) == candidate);
                    }
                }
                dx = dx + 1;
            }
            dy = dy + 1;
        }
        dz = dz + 1;
    }
    set
}


/// Every voxel of `s` lies at least `m` away from the edges of `i32`.
pub open spec fn bounded(s: Set<(i32, i32, i32)>, m: int) -> bool {
    forall|c: (i32, i32, i32)|
        #[trigger] s.contains(c) ==> i32::MIN + m <= c.0 <= i32::MAX - m && i32::MIN + m <= c.1 <= i32::MAX - m
            && i32::MIN + m <= c.2 <= i32::MAX - m
}

/// `w` is one of the four x/y neighbours of `pos`.
pub open spec fn beside(pos: (i32, i32, i32), w: (i32, i32, i32)) -> bool {
    &&& pos.2 == w.2
    &&& ((pos.0 + 1 == w.0 && pos.1 == w.1) || (pos.0 - 1 == w.0 && pos.1 == w.1) || (pos.0 == w.0 && pos.1 + 1
        == w.1) || (pos.0 == w.0 && pos.1 - 1 == w.1))
}

/// Walls beside the open voxels of `s1`.
fn wall_set(client: &ClientView, s1: &BTreeSet<(i32, i32, i32)>) -> (r: BTreeSet<(i32, i32, i32)>)
    requires
        client.wf(),
        bounded(s1@, 2),
    ensures
        r@ == fov_walls(s1@, client.chunks@, client.world_chunks),
        bounded(r@, 1),
{
    let ghost chunks = client.chunks@;
    let ghost dims = client.world_chunks;
    let ghost mut done: Set<(i32, i32, i32)> = Set::empty();
    let mut walls: BTreeSet<(i32, i32, i32)> = BTreeSet::new();
    for pos in it: s1.iter()
        invariant
            client.wf(),
            chunks == client.chunks@,
            dims == client.world_chunks,
            bounded(s1@, 2),
            forall|i: int| 0 <= i < it.seq().len() ==> s1@.contains(*#[trigger] it.seq()[i]),
            forall|q: (i32, i32, i32)| #[trigger] done.contains(q) ==> s1@.contains(q),
            forall|q: (i32, i32, i32)| #[trigger]
                s1@.contains(q) ==> done.contains(q) || exists|i: int| it.index() <= i < it.seq().len() && *it.seq()[i] == q,
            forall|w: (i32, i32, i32)| #[trigger]
                walls@.contains(w) <==> !s1@.contains(w) && known_solid_spec(chunks, dims, key_vec(w)) && exists|q: (i32, i32, i32)|
                    #[trigger] done.contains(q) && beside(q, w) && !known_solid_spec(chunks, dims, key_vec(q)),
    {
        let c = *pos;
        let ghost n = it.index();
        proof {
            assert(s1@.contains(c));
        }
        let ghost d0 = done;
        let ghost w0 = walls@;
        let open = !known_solid(client, Vec3i { x: c.0, y: c.1, z: c.2 });
        proof {
            assert(key_vec(c) == Vec3i { x: c.0, y: c.1, z: c.2 });
        }
        if open {
            let nbrs: [(i32, i32, i32); 4] = [(c.0 + 1, c.1, c.2), (c.0 - 1, c.1, c.2), (c.0, c.1 + 1, c.2), (c.0, c.1 - 1, c.2)];
            let mut d: usize = 0;
            while d < 4
                invariant
                    client.wf(),
                    chunks == client.chunks@,
                    dims == client.world_chunks,
                    d <= 4,
                    nbrs@ == seq![((c.0 + 1) as i32, c.1, c.2), ((c.0 - 1) as i32, c.1, c.2), (c.0, (c.1 + 1) as i32, c.2), (c.0, (c.1 - 1) as i32, c.2)],
                    forall|w: (i32, i32, i32)| #[trigger]
                        walls@.contains(w) <==> w0.contains(w) || (exists|j: int| 0 <= j < d && nbrs@[j] == w) && !s1@.contains(w)
                            && known_solid_spec(chunks, dims, key_vec(w)),
                decreases 4 - d,
            {
                let w = nbrs[d];
                if !s1.contains(&w) && known_solid(client, Vec3i { x: w.0, y: w.1, z: w.2 }) {
                    walls.insert(w);
                }
                proof {
                    assert(key_vec(w) == Vec3i { x: w.0, y: w.1, z: w.2 });
                }
                d = d + 1;
            }
        }
        proof {
            done = done.insert(c);
            let nb = seq![((c.0 + 1) as i32, c.1, c.2), ((c.0 - 1) as i32, c.1, c.2), (c.0, (c.1 + 1) as i32, c.2), (c.0, (c.1 - 1) as i32, c.2)];
            assert forall|w: (i32, i32, i32)| #[trigger] walls@.contains(w) implies !s1@.contains(w) && known_solid_spec(chunks, dims, key_vec(w)) && exists|q: (i32, i32, i32)|
                #[trigger] done.contains(q) && beside(q, w) && !known_solid_spec(chunks, dims, key_vec(q)) by {
                if !w0.contains(w) {
                    assert(open);
                    let j = choose|j: int| 0 <= j < 4 && nb[j] == w;
                    assert(beside(c, w));
                    assert(done.contains(c));
                    assert(!known_solid_spec(chunks, dims, key_vec(c)));
                } else {
                    let q = choose|q: (i32, i32, i32)| #[trigger] d0.contains(q) && beside(q, w) && !known_solid_spec(chunks, dims, key_vec(q));
                    assert(done.contains(q));
                }
            }
            assert forall|w: (i32, i32, i32)| !s1@.contains(w) && known_solid_spec(chunks, dims, key_vec(w)) && (exists|q: (i32, i32, i32)|
                #[trigger] done.contains(q) && beside(q, w) && !known_solid_spec(chunks, dims, key_vec(q))) implies #[trigger] walls@.contains(w) by {
                let q = choose|q: (i32, i32, i32)| #[trigger] done.contains(q) && beside(q, w) && !known_solid_spec(chunks, dims, key_vec(q));
                if q != c {
                    assert(d0.contains(q));
                    assert(w0.contains(w));
                } else {
                    assert(open);
                    if w == nb[0] {
                        assert(exists|j: int| 0 <= j < 4 && nb[j] == w);
                    } else if w == nb[1] {
                        assert(exists|j: int| 0 <= j < 4 && nb[j] == w);
                    } else if w == nb[2] {
                        assert(exists|j: int| 0 <= j < 4 && nb[j] == w);
                    } else {
                        assert(w == nb[3]);
                        assert(exists|j: int| 0 <= j < 4 && nb[j] == w);
                    }
                }
            }
            assert forall|q: (i32, i32, i32)| #[trigger] s1@.contains(q) implies done.contains(q) || exists|i: int| n + 1 <= i < it.seq().len() && *it.seq()[i] == q by {
                if !done.contains(q) {
                    let i = choose|i: int| n <= i < it.seq().len() && *it.seq()[i] == q;
                    assert(i != n);
                }
            }
        }
    }
    proof {
        assert(done =~= s1@);
        let target = fov_walls(s1@, chunks, dims);
        assert forall|w: (i32, i32, i32)| walls@.contains(w) <==> #[trigger] target.contains(w) by {
            if walls@.contains(w) {
                let q = choose|q: (i32, i32, i32)| #[trigger] done.contains(q) && beside(q, w) && !known_solid_spec(chunks, dims, key_vec(q));
                assert(s1@.contains(q));
            }
            if target.contains(w) {
                if open_seen(s1@, chunks, dims, w.0 - 1, w.1 as int, w.2 as int) {
                    let q = ((w.0 - 1) as i32, w.1, w.2);
                    assert(done.contains(q) && beside(q, w));
                } else if open_seen(s1@, chunks, dims, w.0 + 1, w.1 as int, w.2 as int) {
                    let q = ((w.0 + 1) as i32, w.1, w.2);
                    assert(done.contains(q) && beside(q, w));
                } else if open_seen(s1@, chunks, dims, w.0 as int, w.1 - 1, w.2 as int) {
                    let q = (w.0, (w.1 - 1) as i32, w.2);
                    assert(done.contains(q) && beside(q, w));
                } else {
                    let q = (w.0, (w.1 + 1) as i32, w.2);
                    assert(done.contains(q) && beside(q, w));
                }
            }
        }
        assert(walls@ =~= target);
        assert forall|w: (i32, i32, i32)| #[trigger] walls@.contains(w) implies i32::MIN + 1 <= w.0 <= i32::MAX - 1 && i32::MIN + 1 <= w.1 <= i32::MAX - 1
            && i32::MIN + 1 <= w.2 <= i32::MAX - 1 by {
            let q = choose|q: (i32, i32, i32)| #[trigger] done.contains(q) && beside(q, w) && !known_solid_spec(chunks, dims, key_vec(q));
            assert(s1@.contains(q));
        }
    }
    walls
}


/// The voxels just below the seen air of `s2` at or below the viewer.
fn below_set(client: &ClientView, s2: &BTreeSet<(i32, i32, i32)>, p: Vec3i) -> (r: BTreeSet<(i32, i32, i32)>)
    requires
        client.wf(),
        bounded(s2@, 1),
    ensures
        r@ == fov_below(s2@, client.chunks@, client.world_chunks, p),
{
    let ghost chunks = client.chunks@;
    let ghost dims = client.world_chunks;
    let ghost mut done: Set<(i32, i32, i32)> = Set::empty();
    let mut lower: BTreeSet<(i32, i32, i32)> = BTreeSet::new();
    for pos in it: s2.iter()
        invariant
            client.wf(),
            chunks == client.chunks@,
            dims == client.world_chunks,
            bounded(s2@, 1),
            forall|i: int| 0 <= i < it.seq().len() ==> s2@.contains(*#[trigger] it.seq()[i]),
            forall|q: (i32, i32, i32)| #[trigger] done.contains(q) ==> s2@.contains(q),
            forall|q: (i32, i32, i32)| #[trigger]
                s2@.contains(q) ==> done.contains(q) || exists|i: int| it.index() <= i < it.seq().len() && *it.seq()[i] == q,
            forall|w: (i32, i32, i32)| #[trigger]
                lower@.contains(w) <==> done.contains((w.0, w.1, (w.2 + 1) as i32)) && w.2 + 1 <= p.z && w.2 < i32::MAX
                    && projected_block(chunks, dims, key_vec((w.0, w.1, (w.2 + 1) as i32))) == Some(BlockType::Air),
    {
        let c = *pos;
        let ghost n = it.index();
        proof {
            assert(s2@.contains(c));
        }
        let ghost d0 = done;
        let ghost l0 = lower@;
        let air = match projected_block_at(client, Vec3i { x: c.0, y: c.1, z: c.2 }) {
            Some(BlockType::Air) => true,
            _ => false,
        };
        proof {
            assert(key_vec(c) == Vec3i { x: c.0, y: c.1, z: c.2 });
        }
        if c.2 <= p.z && air {
            lower.insert((c.0, c.1, c.2 - 1));
        }
        proof {
            done = done.insert(c);
            assert forall|w: (i32, i32, i32)| #[trigger] lower@.contains(w) <==> done.contains((w.0, w.1, (w.2 + 1) as i32)) && w.2 + 1 <= p.z && w.2 < i32::MAX
                && projected_block(chunks, dims, key_vec((w.0, w.1, (w.2 + 1) as i32))) == Some(BlockType::Air) by {
                if w.2 < i32::MAX && (w.0, w.1, (w.2 + 1) as i32) == c {
                    assert(w == (c.0, c.1, (c.2 - 1) as i32));
                }
                if w == (c.0, c.1, (c.2 - 1) as i32) {
                    assert((w.0, w.1, (w.2 + 1) as i32) == c);
                }
            }
            assert forall|q: (i32, i32, i32)| #[trigger] s2@.contains(q) implies done.contains(q) || exists|i: int| n + 1 <= i < it.seq().len() && *it.seq()[i] == q by {
                if !done.contains(q) {
                    let i = choose|i: int| n <= i < it.seq().len() && *it.seq()[i] == q;
                    assert(i != n);
                }
            }
        }
    }
    proof {
        assert(done =~= s2@);
        assert(lower@ =~= fov_below(s2@, chunks, dims, p));
    }
    lower
}

/// Add every member of `src` to `target`.
pub(crate) fn union_into(target: &mut BTreeSet<(i32, i32, i32)>, src: &BTreeSet<(i32, i32, i32)>)
    ensures
        final(target)@ == old(target)@.union(src@),
{
    let ghost t0 = target@;
    let ghost mut done: Set<(i32, i32, i32)> = Set::empty();
    for x in it: src.iter()
        invariant
            forall|i: int| 0 <= i < it.seq().len() ==> src@.contains(*#[trigger] it.seq()[i]),
            forall|q: (i32, i32, i32)| #[trigger] done.contains(q) ==> src@.contains(q),
            forall|q: (i32, i32, i32)| #[trigger]
                src@.contains(q) ==> done.contains(q) || exists|i: int| it.index() <= i < it.seq().len() && *it.seq()[i] == q,
            target@ == t0.union(done),
    {
        let ghost n = it.index();
        target.insert(*x);
        proof {
            done = done.insert(*x);
            assert(target@ =~= t0.union(done));
            assert forall|q: (i32, i32, i32)| #[trigger] src@.contains(q) implies done.contains(q) || exists|i: int| n + 1 <= i < it.seq().len() && *it.seq()[i] == q by {
                if !done.contains(q) {
                    let i = choose|i: int| n <= i < it.seq().len() && *it.seq()[i] == q;
                    assert(i != n);
                }
            }
        }
    }
    proof {
        assert(done =~= src@);
    }
}

/// Voxel `k` left the view and its block is known.
pub open spec fn left_view(
    prev: Set<(i32, i32, i32)>,
    next: Set<(i32, i32, i32)>,
    chunks: Map<(i32, i32, i32), ChunkView>,
    dims: Vec3u,
    k: (i32, i32, i32),
) -> bool {
    prev.contains(k) && !next.contains(k) && projected_block(chunks, dims, key_vec(k)) is Some
}

/// The memory after the view moves from `prev` to `next`.
pub open spec fn remembered_after(
    memory: Map<(i32, i32, i32), BlockType>,
    prev: Set<(i32, i32, i32)>,
    next: Set<(i32, i32, i32)>,
    chunks: Map<(i32, i32, i32), ChunkView>,
    dims: Vec3u,
) -> Map<(i32, i32, i32), BlockType> {
    Map::new(
        |k: (i32, i32, i32)| (memory.contains_key(k) || left_view(prev, next, chunks, dims, k)) && !next.contains(k),
        |k: (i32, i32, i32)|
            if left_view(prev, next, chunks, dims, k) {
                projected_block(chunks, dims, key_vec(k)).unwrap()
            } else {
                memory[k]
            },
    )
}

/// Remember the known blocks that left the view, and forget what is in
/// view now.
fn update_memory(
    memory: &mut BTreeMap<(i32, i32, i32), BlockType>,
    prev: &BTreeSet<(i32, i32, i32)>,
    next: &BTreeSet<(i32, i32, i32)>,
    client: &ClientView,
)
    requires
        client.wf(),
    ensures
        final(memory)@ == remembered_after(old(memory)@, prev@, next@, client.chunks@, client.world_chunks),
{
    let ghost m0 = memory@;
    let ghost chunks = client.chunks@;
    let ghost dims = client.world_chunks;
    let ghost mut done: Set<(i32, i32, i32)> = Set::empty();
    for pos in it: prev.iter()
        invariant
            client.wf(),
            chunks == client.chunks@,
            dims == client.world_chunks,
            forall|i: int| 0 <= i < it.seq().len() ==> prev@.contains(*#[trigger] it.seq()[i]),
            forall|q: (i32, i32, i32)| #[trigger] done.contains(q) ==> prev@.contains(q),
            forall|q: (i32, i32, i32)| #[trigger]
                prev@.contains(q) ==> done.contains(q) || exists|i: int| it.index() <= i < it.seq().len() && *it.seq()[i] == q,
            forall|k: (i32, i32, i32)| #[trigger]
                memory@.contains_key(k) <==> m0.contains_key(k) || (done.contains(k) && left_view(prev@, next@, chunks, dims, k)),
            forall|k: (i32, i32, i32)| #[trigger]
                memory@.contains_key(k) ==> memory@[k] == if done.contains(k) && left_view(prev@, next@, chunks, dims, k) {
                    projected_block(chunks, dims, key_vec(k)).unwrap()
                } else {
                    m0[k]
                },
    {
        let c = *pos;
        let ghost n = it.index();
        proof {
            assert(key_vec(c) == Vec3i { x: c.0, y: c.1, z: c.2 });
            assert(prev@.contains(c));
        }
        let ghost mem0 = memory@;
        let ghost d0 = done;
        if !next.contains(&c) {
            if let Some(b) = projected_block_at(client, Vec3i { x: c.0, y: c.1, z: c.2 }) {
                memory.insert(c, b);
            }
        }
        proof {
            done = done.insert(c);
            assert(left_view(prev@, next@, chunks, dims, c) == (!next@.contains(c) && projected_block(chunks, dims, key_vec(c)) is Some));
            assert forall|k: (i32, i32, i32)| #[trigger] memory@.contains_key(k) <==> m0.contains_key(k) || (done.contains(k) && left_view(prev@, next@, chunks, dims, k)) by {
                if k != c {
                    assert(memory@.contains_key(k) == mem0.contains_key(k));
                    assert(done.contains(k) == d0.contains(k));
                }
            }
            assert forall|k: (i32, i32, i32)| #[trigger] memory@.contains_key(k) implies memory@[k] == if done.contains(k) && left_view(prev@, next@, chunks, dims, k) {
                projected_block(chunks, dims, key_vec(k)).unwrap()
            } else {
                m0[k]
            } by {
                if k != c {
                    assert(memory@.contains_key(k) == mem0.contains_key(k));
                    assert(memory@[k] == mem0[k]);
                    assert(done.contains(k) == d0.contains(k));
                }
            }
            assert forall|q: (i32, i32, i32)| #[trigger] prev@.contains(q) implies done.contains(q) || exists|i: int| n + 1 <= i < it.seq().len() && *it.seq()[i] == q by {
                if !done.contains(q) {
                    let i = choose|i: int| n <= i < it.seq().len() && *it.seq()[i] == q;
                    assert(i != n);
                }
            }
        }
    }
    proof {
        assert(done =~= prev@);
    }
    let ghost m1 = memory@;
    let ghost mut gone: Set<(i32, i32, i32)> = Set::empty();
    for pos in it2: next.iter()
        invariant
            forall|i: int| 0 <= i < it2.seq().len() ==> next@.contains(*#[trigger] it2.seq()[i]),
            forall|q: (i32, i32, i32)| #[trigger] gone.contains(q) ==> next@.contains(q),
            forall|q: (i32, i32, i32)| #[trigger]
                next@.contains(q) ==> gone.contains(q) || exists|i: int| it2.index() <= i < it2.seq().len() && *it2.seq()[i] == q,
            memory@ == m1.remove_keys(gone),
    {
        let ghost n = it2.index();
        memory.remove(pos);
        proof {
            gone = gone.insert(*pos);
            assert(memory@ =~= m1.remove_keys(gone));
            assert forall|q: (i32, i32, i32)| #[trigger] next@.contains(q) implies gone.contains(q) || exists|i: int| n + 1 <= i < it2.seq().len() && *it2.seq()[i] == q by {
                if !gone.contains(q) {
                    let i = choose|i: int| n <= i < it2.seq().len() && *it2.seq()[i] == q;
                    assert(i != n);
                }
            }
        }
    }
    proof {
        assert(gone =~= next@);
        assert(memory@ =~= remembered_after(m0, prev@, next@, chunks, dims));
    }
}


/// Recompute the field of view of `primary` (clearing it when there is
/// none): what `los` lets the viewer see in the sphere, the walls beside
/// the open voxels seen, and the voxels just below seen air at or below the
/// viewer; voxels that left the view are remembered when their block is
/// known.
pub fn recompute_fov<F: Fn(Vec3i, Vec3i) -> bool>(
    client: &ClientView,
    primary: Option<EntityView>,
    visibility: &mut VisibilityState,
    los: &F,
)
    requires
        client.wf(),
        forall|a: Vec3i, b: Vec3i| #[trigger] los.requires((a, b)),
        primary is Some ==> fov_position_ok(primary.unwrap().position),
    ensures
        final(visibility)@.fov_dirty == old(visibility)@.fov_dirty,
        final(visibility)@.fov_recompute_count == old(visibility)@.fov_recompute_count,
        primary is None ==> final(visibility)@ == (VisibilityModel { visible: Set::empty(), ..old(visibility)@ }),
        exists|sight: Set<(i32, i32, i32)>|
            (primary matches Some(pl) ==> sight_answers(*los, pl.position, sight)) && final(visibility)@
                == #[trigger] fov_update(old(visibility)@, client.chunks@, client.world_chunks, primary, sight_model(sight)),
        forall|model: spec_fn(Vec3i, Vec3i) -> bool|
            los_follows(*los, model) ==> final(visibility)@ == fov_update(
                old(visibility)@,
                client.chunks@,
                client.world_chunks,
                primary,
                model,
            ),
{
    let player = match primary {
        None => {
            visibility.visible.clear();
            proof {
                let e = Set::<(i32, i32, i32)>::empty();
                assert(visibility@ == fov_update(old(visibility)@, client.chunks@, client.world_chunks, primary, sight_model(e)));
            }
            return;
        },
        Some(player) => player,
    };
    let p = player.position;
    let mut next = sight_set(p, los);
    let ghost s1 = next@;
    proof {
        assert forall|c: (i32, i32, i32)| #[trigger] s1.contains(c) implies i32::MIN + 2 <= c.0 <= i32::MAX - 2 && i32::MIN + 2 <= c.1 <= i32::MAX - 2
            && i32::MIN + 2 <= c.2 <= i32::MAX - 2 by {
            assert(in_sphere(p, c));
        }
    }
    let walls = wall_set(client, &next);
    union_into(&mut next, &walls);
    let ghost s2 = next@;
    let lower = below_set(client, &next, p);
    union_into(&mut next, &lower);
    update_memory(&mut visibility.memory, &visibility.visible, &next, client);
    visibility.visible = next;
    proof {
        assert forall|model: spec_fn(Vec3i, Vec3i) -> bool| los_follows(*los, model) implies visibility@ == fov_update(
            old(visibility)@,
            client.chunks@,
            client.world_chunks,
            primary,
            model,
        ) by {
            assert forall|c: (i32, i32, i32)| s1.contains(c) <==> #[trigger] fov_sight(p, model).contains(c) by {
                if in_sphere(p, c) {
                    assert(los.ensures((p, key_vec(c)), s1.contains(c)));
                }
            }
            assert(s1 =~= fov_sight(p, model));
            assert(visibility@.visible =~= fov_set(client.chunks@, client.world_chunks, p, model));
        }
        let m1 = sight_model(s1);
        assert forall|c: (i32, i32, i32)| s1.contains(c) <==> #[trigger] fov_sight(p, m1).contains(c) by {
            assert(key_vec(c).key() == c);
        }
        assert(s1 =~= fov_sight(p, m1));
        assert(visibility@.visible =~= fov_set(client.chunks@, client.world_chunks, p, m1));
        assert(sight_answers(*los, p, s1));
        assert(visibility@ == fov_update(old(visibility)@, client.chunks@, client.world_chunks, primary, m1));
    }
}


/// Largest number of atlas instances one draw command may carry.
pub const MAX_WORLD_ATLAS_INSTANCES_PER_DRAW: usize = 8192;

/// One floor tile to draw: its voxel and how much the viewer knows of it.
#[derive(Debug, Clone, Copy, PartialEq, Eq, Structural)]
pub struct FloorTile {
    pub x: i32,
    pub y: i32,
    pub z: i32,
    pub visibility: TileVisibility,
}

/// Counters of one frame.
#[derive(Debug, Clone, Copy, PartialEq, Eq, Structural)]
pub struct RenderStats {
    pub floor_quads: u32,
    pub player_quads: u32,
    pub dropped_atlas_quads: u32,
    pub dropped_draw_cmds: u32,
    pub snapshot_calls_last_frame: u32,
    pub visible_tiles: u32,
    pub remembered_tiles: u32,
}

impl Default for RenderStats {
    fn default() -> (r: RenderStats)
        ensures
            r == (RenderStats {
                floor_quads: 0,
                player_quads: 0,
                dropped_atlas_quads: 0,
                dropped_draw_cmds: 0,
                snapshot_calls_last_frame: 0,
                visible_tiles: 0,
                remembered_tiles: 0,
            }),
    {
        RenderStats {
            floor_quads: 0,
            player_quads: 0,
            dropped_atlas_quads: 0,
            dropped_draw_cmds: 0,
            snapshot_calls_last_frame: 0,
            visible_tiles: 0,
            remembered_tiles: 0,
        }
    }
}

/// What one frame appends to the caller's buffers: the floor tiles, in
/// emission order, the player sprite, if placed, and the draw commands.
#[derive(Debug, Clone)]
pub struct RenderOutput {
    pub stats: RenderStats,
    pub floor: Vec<FloorTile>,
    pub player: Option<EntityView>,
    pub cmds: Vec<DrawBatch>,
}

/// The caller's atlas and draw-command buffers: how many entries each
/// holds and how many it can hold without reallocating. A frame appends
/// only into the spare room and counts what does not fit.
#[derive(Debug, Clone, Copy, PartialEq, Eq, Structural)]
pub struct FrameBuffers {
    pub atlas_len: usize,
    pub atlas_capacity: usize,
    pub cmds_len: usize,
    pub cmds_capacity: usize,
}

/// The smaller of two integers.
pub open spec fn min_int(a: int, b: int) -> int {
    if a <= b {
        a
    } else {
        b
    }
}

/// Corner voxel of a grid chunk, `None` outside the grid.
pub open spec fn chunk_corner(dims: Vec3u, c: (i32, i32, i32)) -> Option<(int, int, int)> {
    match world_voxel_bounds(dims) {
        None => None,
        Some((mn, _)) => if crate::coords::in_chunk_grid(dims, c) {
            Some((axis_base(mn.0, c.0 as int, dims.x), axis_base(mn.1, c.1 as int, dims.y), axis_base(mn.2, c.2 as int, dims.z)))
        } else {
            None
        },
    }
}

/// Floor tiles of the first `i` tiles (y-major, x fastest) of the column
/// whose corner tile is `(bx, by)`.
pub open spec fn column_tiles(
    chunks: Map<(i32, i32, i32), ChunkView>,
    dims: Vec3u,
    vis: VisibilityModel,
    mode: ViewMode,
    view_z: i32,
    bx: int,
    by: int,
    i: int,
) -> Seq<FloorTile>
    decreases i,
{
    if i <= 0 {
        Seq::empty()
    } else {
        let prev = column_tiles(chunks, dims, vis, mode, view_z, bx, by, i - 1);
        let x = (bx + (i - 1) % 16) as i32;
        let y = (by + (i - 1) / 16) as i32;
        let bits = solid_bits_spec(chunks, dims, x, y, view_z, 6);
        match topmost_from(bits, vis, mode, view_z, x, y, 0) {
            Some((z, v)) => prev.push(FloorTile { x, y, z, visibility: v }),
            None => prev,
        }
    }
}

/// Floor tiles of the first `n` visible chunks.
pub open spec fn frame_tiles(
    visible: Seq<(i32, i32, i32)>,
    chunks: Map<(i32, i32, i32), ChunkView>,
    dims: Vec3u,
    vis: VisibilityModel,
    mode: ViewMode,
    view_z: i32,
    n: int,
) -> Seq<FloorTile>
    decreases n,
{
    if n <= 0 {
        Seq::empty()
    } else {
        let prev = frame_tiles(visible, chunks, dims, vis, mode, view_z, n - 1);
        match chunk_corner(dims, visible[n - 1]) {
            None => prev,
            Some(b) => prev + column_tiles(chunks, dims, vis, mode, view_z, b.0, b.1, 256),
        }
    }
}

/// Corner tile of the grid column `key`, `None` outside the grid.
pub open spec fn column_corner(dims: Vec3u, key: (i32, i32)) -> Option<(int, int)> {
    match world_voxel_bounds(dims) {
        None => None,
        Some((mn, _)) => if -(dims.x / 2) <= key.0 < dims.x - dims.x / 2 && -(dims.y / 2) <= key.1 < dims.y
            - dims.y / 2 {
            Some((axis_base(mn.0, key.0 as int, dims.x), axis_base(mn.1, key.1 as int, dims.y)))
        } else {
            None
        },
    }
}

/// Every cached column whose sources still match the projection holds the
/// mask a rebuild would compute.
pub open spec fn cache_coherent(entries: Map<(i32, i32), TopmostColumn>, chunks: Map<(i32, i32, i32), ChunkView>, dims: Vec3u) -> bool {
    forall|key: (i32, i32)|
        #[trigger] entries.contains_key(key) && column_sources_spec(chunks, dims, key, entries[key].view_z) == Some(
            entries[key].sources@,
        ) ==> column_corner(dims, key) is Some && is_solid_mask(
            entries[key].solid@,
            chunks,
            dims,
            column_corner(dims, key).unwrap().0 as i32,
            column_corner(dims, key).unwrap().1 as i32,
            entries[key].view_z,
        )
}


/// What the cache knows of each column: the view level and the exact
/// sources its mask was built from.
pub open spec fn cache_summary(entries: Map<(i32, i32), TopmostColumn>) -> Map<(i32, i32), (i32, Seq<(i32, u64)>)> {
    Map::new(|k: (i32, i32)| entries.contains_key(k), |k: (i32, i32)| (entries[k].view_z, entries[k].sources@))
}

/// The cache's column summary and its hit and rebuild counters.
pub type CacheState = (Map<(i32, i32), (i32, Seq<(i32, u64)>)>, u64, u64);

/// One column lookup: a hit when the entry's level and sources still
/// match; otherwise a rebuild, cached only when every source chunk is
/// projected.
pub open spec fn cache_visit(
    st: CacheState,
    chunks: Map<(i32, i32, i32), ChunkView>,
    dims: Vec3u,
    view_z: i32,
    key: (i32, i32),
) -> CacheState {
    match column_sources_spec(chunks, dims, key, view_z) {
        None => (st.0.remove(key), st.1, bump(st.2)),
        Some(src) => if st.0.contains_key(key) && st.0[key] == (view_z, src) {
            (st.0, bump(st.1), st.2)
        } else {
            (st.0.insert(key, (view_z, src)), st.1, bump(st.2))
        },
    }
}

/// The cache after looking up the columns of the first `n` visible chunks
/// that lie in the grid, in order.
pub open spec fn frame_cache(
    st: CacheState,
    visible: Seq<(i32, i32, i32)>,
    chunks: Map<(i32, i32, i32), ChunkView>,
    dims: Vec3u,
    view_z: i32,
    n: int,
) -> CacheState
    decreases n,
{
    if n <= 0 {
        st
    } else {
        let prev = frame_cache(st, visible, chunks, dims, view_z, n - 1);
        match chunk_corner(dims, visible[n - 1]) {
            None => prev,
            Some(_) => cache_visit(prev, chunks, dims, view_z, (visible[n - 1].0, visible[n - 1].1)),
        }
    }
}

/// The columns of the first `n` visible chunks that lie in the grid.
pub open spec fn frame_columns(visible: Seq<(i32, i32, i32)>, dims: Vec3u, n: int) -> Set<(i32, i32)>
    decreases n,
{
    if n <= 0 {
        Set::empty()
    } else {
        let prev = frame_columns(visible, dims, n - 1);
        match chunk_corner(dims, visible[n - 1]) {
            None => prev,
            Some(_) => prev.insert((visible[n - 1].0, visible[n - 1].1)),
        }
    }
}

/// The cache after a whole frame: every lookup, then the columns that left
/// the view evicted.
pub open spec fn frame_after(
    st: CacheState,
    visible: Seq<(i32, i32, i32)>,
    chunks: Map<(i32, i32, i32), ChunkView>,
    dims: Vec3u,
    view_z: i32,
) -> CacheState {
    let c = frame_cache(st, visible, chunks, dims, view_z, visible.len() as int);
    (c.0.restrict(frame_columns(visible, dims, visible.len() as int)), c.1, c.2)
}

/// The number of the first `n` visible chunks that lie in the grid.
pub open spec fn in_grid_count(visible: Seq<(i32, i32, i32)>, dims: Vec3u, n: int) -> nat
    decreases n,
{
    if n <= 0 {
        0
    } else {
        in_grid_count(visible, dims, n - 1) + if chunk_corner(dims, visible[n - 1]) is Some {
            1nat
        } else {
            0nat
        }
    }
}

/// A counter after `k` more events (saturating).
pub open spec fn bump_n(c: u64, k: nat) -> u64
    decreases k,
{
    if k == 0 {
        c
    } else {
        bump(bump_n(c, (k - 1) as nat))
    }
}

/// Every column a frame looked at holds, if cached, the level and sources
/// of this frame.
proof fn lemma_frame_cache_current(
    st: CacheState,
    visible: Seq<(i32, i32, i32)>,
    chunks: Map<(i32, i32, i32), ChunkView>,
    dims: Vec3u,
    view_z: i32,
    n: int,
)
    requires
        0 <= n <= visible.len(),
    ensures
        forall|k: (i32, i32)| #[trigger] frame_columns(visible, dims, n).contains(k) && frame_cache(
            st,
            visible,
            chunks,
            dims,
            view_z,
            n,
        ).0.contains_key(k) ==> (column_sources_spec(chunks, dims, k, view_z) matches Some(src) && frame_cache(
            st,
            visible,
            chunks,
            dims,
            view_z,
            n,
        ).0[k] == (view_z, src)),
    decreases n,
{
    if n > 0 {
        lemma_frame_cache_current(st, visible, chunks, dims, view_z, n - 1);
        let prev = frame_cache(st, visible, chunks, dims, view_z, n - 1);
        let cur = frame_cache(st, visible, chunks, dims, view_z, n);
        let key = (visible[n - 1].0, visible[n - 1].1);
        assert forall|k: (i32, i32)| #[trigger] frame_columns(visible, dims, n).contains(k) && cur.0.contains_key(k)
            implies (column_sources_spec(chunks, dims, k, view_z) matches Some(src) && cur.0[k] == (view_z, src)) by {
            if chunk_corner(dims, visible[n - 1]) is Some && k == key {
            } else {
                assert(frame_columns(visible, dims, n - 1).contains(k));
                assert(prev.0.contains_key(k));
                assert(cur.0[k] == prev.0[k]);
            }
        }
    }
}

/// A frame repeated on the same projection and view, when every column it
/// looks at has all its source chunks, only hits: one hit per in-grid
/// visible chunk, no rebuild, and the same columns cached.
pub proof fn lemma_repeated_frame_only_hits(
    st: CacheState,
    visible: Seq<(i32, i32, i32)>,
    chunks: Map<(i32, i32, i32), ChunkView>,
    dims: Vec3u,
    view_z: i32,
)
    requires
        forall|j: int|
            0 <= j < visible.len() && #[trigger] chunk_corner(dims, visible[j]) is Some ==> column_sources_spec(
                chunks,
                dims,
                (visible[j].0, visible[j].1),
                view_z,
            ) is Some,
    ensures
        ({
            let first = frame_after(st, visible, chunks, dims, view_z);
            frame_after(first, visible, chunks, dims, view_z) == (
                first.0,
                bump_n(first.1, in_grid_count(visible, dims, visible.len() as int)),
                first.2,
            )
        }),
{
    let n = visible.len() as int;
    let first = frame_after(st, visible, chunks, dims, view_z);
    lemma_frame_cache_current(st, visible, chunks, dims, view_z, n);
    lemma_frame_columns_cached(st, visible, chunks, dims, view_z, n);
    assert forall|j: int|
        0 <= j < visible.len() && #[trigger] chunk_corner(dims, visible[j]) is Some implies {
            let k = (visible[j].0, visible[j].1);
            &&& first.0.contains_key(k)
            &&& column_sources_spec(chunks, dims, k, view_z) == Some(first.0[k].1)
            &&& first.0[k].0 == view_z
        } by {
        lemma_frame_columns_member(visible, dims, n, j);
    }
    lemma_hits_when_current(first, visible, chunks, dims, view_z, n);
    assert(first.0.restrict(frame_columns(visible, dims, n)) =~= first.0);
}

/// The frame's columns are finite and no more than its in-grid visible
/// chunks.
proof fn lemma_frame_columns_count(visible: Seq<(i32, i32, i32)>, dims: Vec3u, n: int)
    ensures
        frame_columns(visible, dims, n).finite(),
        frame_columns(visible, dims, n).len() <= in_grid_count(visible, dims, n),
    decreases n,
{
    if n > 0 {
        lemma_frame_columns_count(visible, dims, n - 1);
        let prev = frame_columns(visible, dims, n - 1);
        if chunk_corner(dims, visible[n - 1]) is Some {
            vstd::set::axiom_set_insert_len(prev, (visible[n - 1].0, visible[n - 1].1));
        }
    }
}

/// After a frame the cache holds only columns of in-grid visible chunks,
/// each with this frame's level and the sources of its scanned slice; so
/// no column with a missing source chunk is cached, and there are at most
/// as many cached columns as distinct in-grid visible columns (and so as
/// in-grid visible chunks).
pub proof fn lemma_frame_cache_bounded(
    st: CacheState,
    visible: Seq<(i32, i32, i32)>,
    chunks: Map<(i32, i32, i32), ChunkView>,
    dims: Vec3u,
    view_z: i32,
)
    ensures
        ({
            let n = visible.len() as int;
            let c = frame_after(st, visible, chunks, dims, view_z);
            &&& forall|k: (i32, i32)| #[trigger] c.0.contains_key(k) ==> {
                &&& exists|j: int|
                    0 <= j < visible.len() && chunk_corner(dims, visible[j]) is Some && (visible[j].0, visible[j].1)
                        == k
                &&& column_sources_spec(chunks, dims, k, view_z) matches Some(src) && c.0[k] == (view_z, src)
            }
            &&& c.0.dom().finite()
            &&& c.0.dom().len() <= frame_columns(visible, dims, n).len()
            &&& frame_columns(visible, dims, n).len() <= in_grid_count(visible, dims, n)
        }),
{
    let n = visible.len() as int;
    let c = frame_after(st, visible, chunks, dims, view_z);
    lemma_frame_cache_current(st, visible, chunks, dims, view_z, n);
    lemma_frame_columns_count(visible, dims, n);
    assert forall|k: (i32, i32)| #[trigger] c.0.contains_key(k) implies {
        &&& exists|j: int|
            0 <= j < visible.len() && chunk_corner(dims, visible[j]) is Some && (visible[j].0, visible[j].1) == k
        &&& column_sources_spec(chunks, dims, k, view_z) matches Some(src) && c.0[k] == (view_z, src)
    } by {
        let j = lemma_frame_columns_witness(visible, dims, n, k);
    }
    assert(c.0.dom().subset_of(frame_columns(visible, dims, n)));
    vstd::set_lib::lemma_len_subset(c.0.dom(), frame_columns(visible, dims, n));
}

/// In master mode the field-of-view step only clears what is seen, so a
/// second master frame leaves the visibility as the first left it; with
/// the cache law [`lemma_repeated_frame_only_hits`], an unchanged second
/// master frame draws the same floor tiles and only hits the cache.
pub proof fn lemma_master_frame_visibility_repeats(
    v: VisibilityModel,
    chunks: Map<(i32, i32, i32), ChunkView>,
    dims: Vec3u,
    entities: Seq<EntityView>,
    primary: Option<u64>,
    los: spec_fn(Vec3i, Vec3i) -> bool,
)
    ensures
        ({
            let first = frame_visibility(v, chunks, dims, entities, primary, ViewMode::Master, los);
            frame_visibility(first, chunks, dims, entities, primary, ViewMode::Master, los) == first
        }),
{
    let first = frame_visibility(v, chunks, dims, entities, primary, ViewMode::Master, los);
    assert(frame_visibility(first, chunks, dims, entities, primary, ViewMode::Master, los).visible =~= first.visible);
}

/// The in-grid visible chunks lie in pairwise different columns.
pub open spec fn distinct_columns(visible: Seq<(i32, i32, i32)>, dims: Vec3u) -> bool {
    forall|i: int, j: int|
        0 <= i < j < visible.len() && #[trigger] chunk_corner(dims, visible[i]) is Some
            && #[trigger] chunk_corner(dims, visible[j]) is Some ==> (visible[i].0, visible[i].1) != (
            visible[j].0,
            visible[j].1,
        )
}

/// A frame at a new view level, after a frame at another level, rebuilds
/// the column of every in-grid visible chunk and hits none (the visible
/// chunks lying in different columns).
pub proof fn lemma_new_level_rebuilds(
    st: CacheState,
    visible: Seq<(i32, i32, i32)>,
    chunks: Map<(i32, i32, i32), ChunkView>,
    dims: Vec3u,
    old_z: i32,
    view_z: i32,
)
    requires
        old_z != view_z,
        distinct_columns(visible, dims),
    ensures
        ({
            let first = frame_after(st, visible, chunks, dims, old_z);
            let next = frame_cache(first, visible, chunks, dims, view_z, visible.len() as int);
            next.1 == first.1 && next.2 == bump_n(first.2, in_grid_count(visible, dims, visible.len() as int))
        }),
{
    let n = visible.len() as int;
    let first = frame_after(st, visible, chunks, dims, old_z);
    lemma_frame_cache_current(st, visible, chunks, dims, old_z, n);
    assert forall|k: (i32, i32)| #[trigger] first.0.contains_key(k) implies first.0[k].0 != view_z by {}
    lemma_rebuilds_when_stale(first, visible, chunks, dims, view_z, n);
}

/// Lookups of pairwise different columns, none cached at this level, all
/// rebuild; columns not looked at keep their entries.
proof fn lemma_rebuilds_when_stale(
    st: CacheState,
    visible: Seq<(i32, i32, i32)>,
    chunks: Map<(i32, i32, i32), ChunkView>,
    dims: Vec3u,
    view_z: i32,
    n: int,
)
    requires
        0 <= n <= visible.len(),
        distinct_columns(visible, dims),
        forall|k: (i32, i32)| #[trigger] st.0.contains_key(k) ==> st.0[k].0 != view_z,
    ensures
        ({
            let c = frame_cache(st, visible, chunks, dims, view_z, n);
            &&& c.1 == st.1
            &&& c.2 == bump_n(st.2, in_grid_count(visible, dims, n))
            &&& forall|k: (i32, i32)| !#[trigger] frame_columns(visible, dims, n).contains(k) ==> (c.0.contains_key(k)
                == st.0.contains_key(k) && (c.0.contains_key(k) ==> c.0[k] == st.0[k]))
        }),
    decreases n,
{
    if n > 0 {
        lemma_rebuilds_when_stale(st, visible, chunks, dims, view_z, n - 1);
        let key = (visible[n - 1].0, visible[n - 1].1);
        if chunk_corner(dims, visible[n - 1]) is Some {
            if frame_columns(visible, dims, n - 1).contains(key) {
                let j = lemma_frame_columns_witness(visible, dims, n - 1, key);
                assert(chunk_corner(dims, visible[j]) is Some);
                assert(false);
            }
        }
        let prev = frame_cache(st, visible, chunks, dims, view_z, n - 1);
        let cur = frame_cache(st, visible, chunks, dims, view_z, n);
        assert forall|k: (i32, i32)| !#[trigger] frame_columns(visible, dims, n).contains(k) implies (cur.0.contains_key(k)
            == st.0.contains_key(k) && (cur.0.contains_key(k) ==> cur.0[k] == st.0[k])) by {
            assert(!frame_columns(visible, dims, n - 1).contains(k));
        }
    }
}

/// A column among the frame's columns comes from one of its in-grid
/// visible chunks.
proof fn lemma_frame_columns_witness(visible: Seq<(i32, i32, i32)>, dims: Vec3u, n: int, k: (i32, i32)) -> (j: int)
    requires
        0 <= n <= visible.len(),
        frame_columns(visible, dims, n).contains(k),
    ensures
        0 <= j < n,
        chunk_corner(dims, visible[j]) is Some,
        (visible[j].0, visible[j].1) == k,
    decreases n,
{
    if chunk_corner(dims, visible[n - 1]) is Some && (visible[n - 1].0, visible[n - 1].1) == k {
        n - 1
    } else {
        lemma_frame_columns_witness(visible, dims, n - 1, k)
    }
}

/// The column of each of the first `n` in-grid visible chunks is among
/// the frame's columns.
proof fn lemma_frame_columns_member(visible: Seq<(i32, i32, i32)>, dims: Vec3u, n: int, j: int)
    requires
        0 <= j < n <= visible.len(),
        chunk_corner(dims, visible[j]) is Some,
    ensures
        frame_columns(visible, dims, n).contains((visible[j].0, visible[j].1)),
    decreases n,
{
    if j < n - 1 {
        lemma_frame_columns_member(visible, dims, n - 1, j);
    }
}

/// After `n` lookups, every in-grid column among them whose sources are
/// all projected is cached.
proof fn lemma_frame_columns_cached(
    st: CacheState,
    visible: Seq<(i32, i32, i32)>,
    chunks: Map<(i32, i32, i32), ChunkView>,
    dims: Vec3u,
    view_z: i32,
    n: int,
)
    requires
        0 <= n <= visible.len(),
        forall|j: int|
            0 <= j < visible.len() && #[trigger] chunk_corner(dims, visible[j]) is Some ==> column_sources_spec(
                chunks,
                dims,
                (visible[j].0, visible[j].1),
                view_z,
            ) is Some,
    ensures
        forall|k: (i32, i32)| #[trigger] frame_columns(visible, dims, n).contains(k) ==> frame_cache(
            st,
            visible,
            chunks,
            dims,
            view_z,
            n,
        ).0.contains_key(k),
    decreases n,
{
    if n > 0 {
        lemma_frame_columns_cached(st, visible, chunks, dims, view_z, n - 1);
        let prev = frame_cache(st, visible, chunks, dims, view_z, n - 1);
        let cur = frame_cache(st, visible, chunks, dims, view_z, n);
        let key = (visible[n - 1].0, visible[n - 1].1);
        if chunk_corner(dims, visible[n - 1]) is Some {
            assert(column_sources_spec(chunks, dims, key, view_z) is Some);
        }
        assert forall|k: (i32, i32)| #[trigger] frame_columns(visible, dims, n).contains(k) implies cur.0.contains_key(k) by {
            if chunk_corner(dims, visible[n - 1]) is Some && k == key {
            } else {
                assert(frame_columns(visible, dims, n - 1).contains(k));
                assert(prev.0.contains_key(k));
            }
        }
    }
}

/// Lookups of columns that are all cached with this frame's level and
/// sources only hit.
proof fn lemma_hits_when_current(
    st: CacheState,
    visible: Seq<(i32, i32, i32)>,
    chunks: Map<(i32, i32, i32), ChunkView>,
    dims: Vec3u,
    view_z: i32,
    n: int,
)
    requires
        0 <= n <= visible.len(),
        forall|j: int|
            0 <= j < visible.len() && #[trigger] chunk_corner(dims, visible[j]) is Some ==> {
                let k = (visible[j].0, visible[j].1);
                &&& st.0.contains_key(k)
                &&& column_sources_spec(chunks, dims, k, view_z) == Some(st.0[k].1)
                &&& st.0[k].0 == view_z
            },
    ensures
        frame_cache(st, visible, chunks, dims, view_z, n) == (st.0, bump_n(st.1, in_grid_count(visible, dims, n)), st.2),
    decreases n,
{
    if n > 0 {
        lemma_hits_when_current(st, visible, chunks, dims, view_z, n - 1);
        if chunk_corner(dims, visible[n - 1]) is Some {
            let k = (visible[n - 1].0, visible[n - 1].1);
            assert(st.0[k] == (st.0[k].0, st.0[k].1));
        }
    }
}


/// Floor tiles of the visible chunks, in order, through the column cache;
/// the cache keeps only the visible columns afterwards.
fn emit_floor(
    client: &ClientView,
    view_mode: ViewMode,
    view_z: i32,
    visible: &Vec<(i32, i32, i32)>,
    vis: &VisibilityState,
    topmost: &mut TopmostCache,
) -> (r: Vec<FloorTile>)
    requires
        client.wf(),
        view_z >= i32::MIN + 5,
        cache_coherent(old(topmost)@.entries, client.chunks@, client.world_chunks),
    ensures
        r@ == frame_tiles(visible@, client.chunks@, client.world_chunks, vis@, view_mode, view_z, visible@.len() as int),
        cache_coherent(final(topmost)@.entries, client.chunks@, client.world_chunks),
        (cache_summary(final(topmost)@.entries), final(topmost)@.hits, final(topmost)@.rebuilds) == frame_after(
            (cache_summary(old(topmost)@.entries), old(topmost)@.hits, old(topmost)@.rebuilds),
            visible@,
            client.chunks@,
            client.world_chunks,
            view_z,
        ),
        forall|key: (i32, i32)| #[trigger] final(topmost)@.entries.contains_key(key) ==> {
            &&& exists|j: int|
                0 <= j < visible@.len() && chunk_corner(client.world_chunks, visible@[j]) is Some && visible@[j].0
                    == key.0 && visible@[j].1 == key.1
            &&& final(topmost)@.entries[key].view_z == view_z
            &&& column_sources_spec(client.chunks@, client.world_chunks, key, view_z) == Some(
                final(topmost)@.entries[key].sources@,
            )
        },
{
    let ghost init = (cache_summary(topmost@.entries), topmost@.hits, topmost@.rebuilds);
    let ghost chunks = client.chunks@;
    let dims = client.world_chunks;
    let mut tiles: Vec<FloorTile> = Vec::new();
    let mut columns: BTreeSet<(i32, i32)> = BTreeSet::new();
    let n = visible.len();
    let mut ci: usize = 0;
    while ci < n
        invariant
            client.wf(),
            chunks == client.chunks@,
            dims == client.world_chunks,
            view_z >= i32::MIN + 5,
            n == visible@.len(),
            ci <= n,
            tiles@ == frame_tiles(visible@, chunks, dims, vis@, view_mode, view_z, ci as int),
            cache_coherent(topmost@.entries, chunks, dims),
            columns@ == frame_columns(visible@, dims, ci as int),
            (cache_summary(topmost@.entries), topmost@.hits, topmost@.rebuilds) == frame_cache(
                init,
                visible@,
                chunks,
                dims,
                view_z,
                ci as int,
            ),
        decreases n - ci,
    {
        let c = visible[ci];
        let corner = match world_bounds_exec(dims) {
            None => None,
            Some((mn, _)) => if crate::coords::in_chunk_grid_exec(dims, c.0, c.1, c.2) {
                Some((
                    mn.0 + (c.0 as i64 + (dims.x / 2) as i64) * 16,
                    mn.1 + (c.1 as i64 + (dims.y / 2) as i64) * 16,
                ))
            } else {
                None
            },
        };
        match corner {
            None => {
                proof {
                    assert(chunk_corner(dims, visible@[ci as int]) is None);
                    assert(columns@ =~= frame_columns(visible@, dims, ci as int + 1));
                }
            },
            Some((bx, by)) => {
                let key = (c.0, c.1);
                proof {
                    assert(column_corner(dims, key) == Some((bx as int, by as int)));
                    assert(chunk_corner(dims, c) is Some);
                    assert(chunk_corner(dims, c).unwrap().0 == bx && chunk_corner(dims, c).unwrap().1 == by);
                }
                columns.insert(key);
                let bx = bx as i32;
                let by = by as i32;
                proof {
                    assert(columns@ =~= frame_columns(visible@, dims, ci as int + 1));
                }
                let ghost m0 = topmost@;
                let mask = topmost.solid_mask(client, key, bx, by, view_z);
                proof {
                    assert(is_solid_mask(mask@, chunks, dims, bx, by, view_z));
                    let s0 = cache_summary(m0.entries);
                    match column_sources_spec(chunks, dims, key, view_z) {
                        None => {
                            assert(cache_summary(topmost@.entries) =~= s0.remove(key));
                        },
                        Some(src) => {
                            if m0.entries.contains_key(key) && m0.entries[key].view_z == view_z
                                && m0.entries[key].sources@ == src {
                                assert(s0.contains_key(key) && s0[key] == (view_z, src));
                            } else {
                                assert(!(s0.contains_key(key) && s0[key] == (view_z, src)));
                                assert(cache_summary(topmost@.entries) =~= s0.insert(key, (view_z, src)));
                            }
                        },
                    }
                }
                let ghost before = tiles@;
                let mut i: usize = 0;
                while i < 256
                    invariant
                        client.wf(),
                        chunks == client.chunks@,
                        dims == client.world_chunks,
                        view_z >= i32::MIN + 5,
                        i <= 256,
                        bx <= i32::MAX - 15,
                        by <= i32::MAX - 15,
                        is_solid_mask(mask@, chunks, dims, bx, by, view_z),
                        tiles@ == before + column_tiles(chunks, dims, vis@, view_mode, view_z, bx as int, by as int, i as int),
                    decreases 256 - i,
                {
                    let x = bx + (i % 16) as i32;
                    let y = by + (i / 16) as i32;
                    let bits = mask[i];
                    proof {
                        assert(bits == solid_bits_spec(chunks, dims, x, y, view_z, 6));
                    }
                    match topmost_floor(bits, vis, view_mode, view_z, x, y) {
                        Some((z, v)) => {
                            tiles.push(FloorTile { x, y, z, visibility: v });
                        },
                        None => {},
                    }
                    proof {
                        let prev = column_tiles(chunks, dims, vis@, view_mode, view_z, bx as int, by as int, i as int);
                        assert(before + prev.push(FloorTile { x, y, z: 0, visibility: TileVisibility::Unseen }) =~= (before + prev).push(
                            FloorTile { x, y, z: 0, visibility: TileVisibility::Unseen },
                        ));
                        match topmost_from(bits, vis@, view_mode, view_z, x, y, 0) {
                            Some((z, v)) => {
                                assert(before + prev.push(FloorTile { x, y, z, visibility: v }) =~= (before + prev).push(
                                    FloorTile { x, y, z, visibility: v },
                                ));
                            },
                            None => {},
                        }
                    }
                    i = i + 1;
                }
            },
        }
        ci = ci + 1;
    }
    let ghost before_retain = topmost@;
    topmost.retain_columns(&columns);
    proof {
        let total = visible@.len() as int;
        assert(cache_summary(topmost@.entries) =~= cache_summary(before_retain.entries).restrict(columns@));
        lemma_frame_cache_current(init, visible@, chunks, dims, view_z, total);
        assert forall|key: (i32, i32)| #[trigger] topmost@.entries.contains_key(key) implies {
            &&& exists|j: int|
                0 <= j < visible@.len() && chunk_corner(dims, visible@[j]) is Some && visible@[j].0 == key.0
                    && visible@[j].1 == key.1
            &&& topmost@.entries[key].view_z == view_z
            &&& column_sources_spec(chunks, dims, key, view_z) == Some(topmost@.entries[key].sources@)
        } by {
            let j = lemma_frame_columns_witness(visible@, dims, total, key);
            assert(cache_summary(before_retain.entries).contains_key(key));
        }
    }
    tiles
}


/// Visibility after the frame's field-of-view step: entity mode recomputes
/// the field of view when it is due, master mode shows no field of view
/// but keeps the memory.
pub open spec fn frame_visibility(
    old: VisibilityModel,
    chunks: Map<(i32, i32, i32), ChunkView>,
    dims: Vec3u,
    entities: Seq<EntityView>,
    primary: Option<u64>,
    mode: ViewMode,
    los: spec_fn(Vec3i, Vec3i) -> bool,
) -> VisibilityModel {
    if mode == ViewMode::Entity {
        if old.fov_dirty {
            VisibilityModel {
                fov_dirty: false,
                fov_recompute_count: bump(old.fov_recompute_count),
                ..fov_update(old, chunks, dims, primary_spec(entities, primary), los)
            }
        } else {
            old
        }
    } else {
        VisibilityModel { visible: Set::empty(), ..old }
    }
}

/// The player sprite shows: at most the scanned depth below the view, seen
/// (in entity mode), and not hidden by known solid terrain.
pub open spec fn player_shown(
    chunks: Map<(i32, i32, i32), ChunkView>,
    dims: Vec3u,
    vis: VisibilityModel,
    mode: ViewMode,
    view_z: i32,
    player: EntityView,
) -> bool {
    &&& player.position.z - view_z >= -5
    &&& mode == ViewMode::Entity ==> visibility_spec(vis, player.position) == TileVisibility::Visible
    &&& !occluded_spec(chunks, dims, player.position, view_z)
}

fn count_u32(n: usize) -> (r: u32)
    ensures
        r == crate::projection::sat(n as int),
{
    if n >= u32::MAX as usize {
        u32::MAX
    } else {
        n as u32
    }
}

/// The player sprite a frame wants to draw, if any.
pub open spec fn shown_player(
    chunks: Map<(i32, i32, i32), ChunkView>,
    dims: Vec3u,
    vis: VisibilityModel,
    mode: ViewMode,
    view_z: i32,
    entities: Seq<EntityView>,
    primary: Option<u64>,
) -> Option<EntityView> {
    match primary_spec(entities, primary) {
        Some(p) => if player_shown(chunks, dims, vis, mode, view_z, p) {
            Some(p)
        } else {
            None
        },
        None => None,
    }
}

/// How many of `total` floor quads fit in the atlas's spare room.
pub open spec fn placed_floor(total: int, b: FrameBuffers) -> int {
    min_int(total, b.atlas_capacity - b.atlas_len)
}

/// The player quad fits after the placed floor quads.
pub open spec fn player_placed(shown: bool, total: int, b: FrameBuffers) -> bool {
    shown && placed_floor(total, b) < b.atlas_capacity - b.atlas_len
}

/// The draw commands for the placed quads.
pub open spec fn wanted_cmds(total: int, shown: bool, b: FrameBuffers) -> Seq<DrawBatch> {
    batches_spec(
        b.atlas_len as int,
        placed_floor(total, b),
        if player_placed(shown, total, b) {
            1
        } else {
            0
        },
    )
}

/// The draw commands that fit in the command buffer's spare room.
pub open spec fn placed_cmds(total: int, shown: bool, b: FrameBuffers) -> Seq<DrawBatch> {
    let w = wanted_cmds(total, shown, b);
    w.take(min_int(w.len() as int, b.cmds_capacity - b.cmds_len))
}

/// Render one frame: update the field of view, then append to the caller's
/// buffers the floor tiles of the visible chunks, the player sprite and
/// their draw commands, as far as the buffers' spare room allows; what does
/// not fit is counted as dropped.
pub fn render<F: Fn(Vec3i, Vec3i) -> bool>(
    client: &ClientView,
    view_mode: ViewMode,
    view_z: i32,
    visible_chunks: &Vec<(i32, i32, i32)>,
    visibility: &mut VisibilityState,
    caches: &mut RenderCaches,
    los: &F,
    buffers: FrameBuffers,
) -> (r: RenderOutput)
    requires
        buffers.atlas_len <= buffers.atlas_capacity,
        buffers.cmds_len <= buffers.cmds_capacity,
        client.wf(),
        view_z >= i32::MIN + 5,
        forall|a: Vec3i, b: Vec3i| #[trigger] los.requires((a, b)),
        primary_spec(client.entities@, client.primary_entity_id) is Some ==> fov_position_ok(
            primary_spec(client.entities@, client.primary_entity_id).unwrap().position,
        ),
        cache_coherent(old(caches).topmost@.entries, client.chunks@, client.world_chunks),
    ensures
        forall|model: spec_fn(Vec3i, Vec3i) -> bool|
            los_follows(*los, model) ==> final(visibility)@ == frame_visibility(
                old(visibility)@,
                client.chunks@,
                client.world_chunks,
                client.entities@,
                client.primary_entity_id,
                view_mode,
                model,
            ),
        view_mode == ViewMode::Entity ==> !final(visibility)@.fov_dirty,
        view_mode == ViewMode::Entity && old(visibility)@.fov_dirty ==> exists|sight: Set<(i32, i32, i32)>|
            (primary_spec(client.entities@, client.primary_entity_id) matches Some(pl) ==> sight_answers(
                *los,
                pl.position,
                sight,
            )) && final(visibility)@ == #[trigger] frame_visibility(
                old(visibility)@,
                client.chunks@,
                client.world_chunks,
                client.entities@,
                client.primary_entity_id,
                view_mode,
                sight_model(sight),
            ),
        view_mode == ViewMode::Entity && old(visibility)@.fov_dirty ==> final(visibility)@.fov_recompute_count == bump(
            old(visibility)@.fov_recompute_count,
        ),
        view_mode == ViewMode::Entity && old(visibility)@.fov_dirty && primary_spec(client.entities@, client.primary_entity_id) is None
            ==> final(visibility)@ == (VisibilityModel {
            visible: Set::empty(),
            fov_dirty: false,
            fov_recompute_count: bump(old(visibility)@.fov_recompute_count),
            ..old(visibility)@
        }),
        view_mode != ViewMode::Entity || !old(visibility)@.fov_dirty ==> final(visibility)@ == frame_visibility(
            old(visibility)@,
            client.chunks@,
            client.world_chunks,
            client.entities@,
            client.primary_entity_id,
            view_mode,
            |a: Vec3i, b: Vec3i| false,
        ),
        ({
            let tiles = frame_tiles(
                visible_chunks@,
                client.chunks@,
                client.world_chunks,
                final(visibility)@,
                view_mode,
                view_z,
                visible_chunks@.len() as int,
            );
            let shown = shown_player(
                client.chunks@,
                client.world_chunks,
                final(visibility)@,
                view_mode,
                view_z,
                client.entities@,
                client.primary_entity_id,
            );
            &&& r.floor@ == tiles.take(placed_floor(tiles.len() as int, buffers))
            &&& r.player == (if player_placed(shown is Some, tiles.len() as int, buffers) {
                shown
            } else {
                None
            })
            &&& r.cmds@ == placed_cmds(tiles.len() as int, shown is Some, buffers)
            &&& r.stats == (RenderStats {
                floor_quads: crate::projection::sat(r.floor@.len() as int),
                player_quads: if r.player is Some {
                    1
                } else {
                    0
                },
                dropped_atlas_quads: crate::projection::sat(
                    tiles.len() - r.floor@.len() + if shown is Some && r.player is None {
                        1int
                    } else {
                        0
                    },
                ),
                dropped_draw_cmds: crate::projection::sat(
                    wanted_cmds(tiles.len() as int, shown is Some, buffers).len() - r.cmds@.len(),
                ),
                snapshot_calls_last_frame: 0,
                visible_tiles: crate::projection::sat(final(visibility)@.visible.len() as int),
                remembered_tiles: crate::projection::sat(final(visibility)@.memory.len() as int),
            })
        }),
        cache_coherent(final(caches).topmost@.entries, client.chunks@, client.world_chunks),
        (
            cache_summary(final(caches).topmost@.entries),
            final(caches).topmost@.hits,
            final(caches).topmost@.rebuilds,
        ) == frame_after(
            (cache_summary(old(caches).topmost@.entries), old(caches).topmost@.hits, old(caches).topmost@.rebuilds),
            visible_chunks@,
            client.chunks@,
            client.world_chunks,
            view_z,
        ),
        forall|key: (i32, i32)| #[trigger] final(caches).topmost@.entries.contains_key(key) ==> {
            &&& exists|j: int|
                0 <= j < visible_chunks@.len() && chunk_corner(client.world_chunks, visible_chunks@[j]) is Some
                    && visible_chunks@[j].0 == key.0 && visible_chunks@[j].1 == key.1
            &&& final(caches).topmost@.entries[key].view_z == view_z
            &&& column_sources_spec(client.chunks@, client.world_chunks, key, view_z) == Some(
                final(caches).topmost@.entries[key].sources@,
            )
        },
{
    let primary = primary_entity(client);
    if view_mode == ViewMode::Entity {
        if visibility.fov_dirty {
            let ghost v0 = visibility@;
            recompute_fov(client, primary, visibility, los);
            let ghost v1 = visibility@;
            visibility.fov_dirty = false;
            visibility.fov_recompute_count = visibility.fov_recompute_count.saturating_add(1);
            proof {
                let sight = choose|sight: Set<(i32, i32, i32)>|
                    (primary matches Some(pl) ==> sight_answers(*los, pl.position, sight)) && v1
                        == #[trigger] fov_update(v0, client.chunks@, client.world_chunks, primary, sight_model(sight));
                assert(visibility@ == frame_visibility(
                    v0,
                    client.chunks@,
                    client.world_chunks,
                    client.entities@,
                    client.primary_entity_id,
                    view_mode,
                    sight_model(sight),
                ));
            }
        }
    } else {
        visibility.visible.clear();
    }
    let mut floor = emit_floor(client, view_mode, view_z, visible_chunks, visibility, &mut caches.topmost);
    let shown = match primary {
        None => None,
        Some(p) => {
            let shown = p.position.z as i64 - view_z as i64 >= -5 && (view_mode != ViewMode::Entity
                || visibility.visibility_at(p.position) == TileVisibility::Visible) && !player_occluded(client, p.position, view_z);
            if shown {
                Some(p)
            } else {
                None
            }
        },
    };
    let total = floor.len();
    let room = buffers.atlas_capacity - buffers.atlas_len;
    let kept = if total <= room {
        total
    } else {
        room
    };
    floor.truncate(kept);
    let placed = shown.is_some() && kept < room;
    let player = if placed {
        shown
    } else {
        None
    };
    let sprites: usize = if placed {
        1
    } else {
        0
    };
    let mut cmds = draw_batches(buffers.atlas_len, kept, sprites);
    let wanted = cmds.len();
    let cmd_room = buffers.cmds_capacity - buffers.cmds_len;
    if wanted > cmd_room {
        cmds.truncate(cmd_room);
    }
    let extra: u32 = if shown.is_some() && !placed {
        1
    } else {
        0
    };
    let stats = RenderStats {
        floor_quads: count_u32(floor.len()),
        player_quads: if player.is_some() {
            1
        } else {
            0
        },
        dropped_atlas_quads: count_u32(total - kept).saturating_add(extra),
        dropped_draw_cmds: count_u32(wanted - cmds.len()),
        snapshot_calls_last_frame: 0,
        visible_tiles: count_u32(visibility.visible_count()),
        remembered_tiles: count_u32(visibility.remembered_count()),
    };
    proof {
        assert(floor@.len() == kept);
    }
    RenderOutput { stats, floor, player, cmds }
}

/// A run of atlas instances drawn by one command.
#[derive(Debug, Clone, Copy, PartialEq, Eq, Structural)]
pub struct DrawBatch {
    pub offset: usize,
    pub count: usize,
    /// Floor texture (`true`) or sprite texture (`false`).
    pub floor: bool,
}

/// Number of floor runs of at most [`MAX_WORLD_ATLAS_INSTANCES_PER_DRAW`]
/// instances for `floor` instances.
pub open spec fn floor_batch_count(floor: int) -> int {
    (floor + 8191) / 8192
}

/// The `i`-th floor run of `floor` instances placed from atlas index
/// `start`.
pub open spec fn floor_batch(start: int, floor: int, i: int) -> DrawBatch {
    DrawBatch {
        offset: (start + i * 8192) as usize,
        count: (if floor - i * 8192 >= 8192 {
            8192
        } else {
            floor - i * 8192
        }) as usize,
        floor: true,
    }
}

/// Draw commands for `floor` floor instances placed from atlas index
/// `start`, followed by `sprites` sprite instances: the floor split into
/// runs of at most [`MAX_WORLD_ATLAS_INSTANCES_PER_DRAW`], then one run of
/// sprites; empty runs are not drawn.
pub open spec fn batches_spec(start: int, floor: int, sprites: int) -> Seq<DrawBatch> {
    Seq::new(floor_batch_count(floor) as nat, |i: int| floor_batch(start, floor, i)) + if sprites > 0 {
        seq![DrawBatch { offset: (start + floor) as usize, count: sprites as usize, floor: false }]
    } else {
        Seq::empty()
    }
}

/// The draw commands of [`batches_spec`].
pub fn draw_batches(start: usize, floor: usize, sprites: usize) -> (r: Vec<DrawBatch>)
    requires
        start + floor + sprites <= usize::MAX,
    ensures
        r@ == batches_spec(start as int, floor as int, sprites as int),
{
    let mut out: Vec<DrawBatch> = Vec::new();
    let mut done: usize = 0;
    while done < floor
        invariant
            done <= floor,
            start + floor + sprites <= usize::MAX,
            out@.len() == floor_batch_count(done as int),
            done == floor || done == out@.len() * 8192,
            out@ =~= Seq::new(out@.len(), |i: int| floor_batch(start as int, floor as int, i)),
        decreases floor - done,
    {
        let left = floor - done;
        let count = if left >= MAX_WORLD_ATLAS_INSTANCES_PER_DRAW {
            MAX_WORLD_ATLAS_INSTANCES_PER_DRAW
        } else {
            left
        };
        out.push(DrawBatch { offset: start + done, count, floor: true });
        done = done + count;
    }
    proof {
        assert(out@.len() == floor_batch_count(floor as int));
    }
    if sprites > 0 {
        out.push(DrawBatch { offset: start + floor, count: sprites, floor: false });
    }
    proof {
        assert(out@ =~= batches_spec(start as int, floor as int, sprites as int));
    }
    out
}

} // verus!
