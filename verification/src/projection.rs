//! The client's local projection of the authoritative world: which chunks a
//! view needs, and per-chunk copies kept in step with the world by terrain
//! revision. A chunk that is not simulation-resident is never kept
//! (fail closed).

use vstd::prelude::*;
use vstd::std_specs::btree::group_btree_axioms;
use vstd::laws_cmp::group_laws_cmp;
use std::collections::{BTreeMap, BTreeSet};

use crate::geometry::{BlockType, Vec3i, Vec3u};
use crate::invalidation::ViewMode;
use crate::world_state::{EntityState, EntitySnapshot, WorldModel, WorldState};

verus! {

broadcast use {
    group_btree_axioms,
    group_laws_cmp,
    crate::ordered::lemma_increasing_triples,
    crate::ordered::lemma_member_of_listing,
};

/// One projected chunk: a copy of its blocks and the terrain revision the
/// copy was taken at.
#[derive(Debug, Clone)]
pub struct ChunkView {
    pub blocks: Vec<BlockType>,
    pub terrain_revision: u64,
}

/// One projected entity (its render position is interpolated elsewhere).
#[derive(Debug, Clone, Copy, PartialEq, Eq, Structural)]
pub struct EntityView {
    pub id: u64,
    pub position: Vec3i,
    pub facing_left: bool,
}

/// The client's local view of the world.
#[derive(Debug, Clone)]
pub struct ClientView {
    pub tick: u64,
    pub world_chunks: Vec3u,
    pub chunks: BTreeMap<(i32, i32, i32), ChunkView>,
    pub entities: Vec<EntityView>,
    pub primary_entity_id: Option<u64>,
}

/// Why chunk synchronization did work.
#[derive(Debug, Clone, Copy, PartialEq, Eq, Structural)]
pub struct ProjectionSyncStats {
    pub inserted: u32,
    pub recopied: u32,
    pub removed: u32,
    pub unchanged: u32,
    pub authority_missing: u32,
}

impl Default for ProjectionSyncStats {
    fn default() -> (r: ProjectionSyncStats)
        ensures
            r == (ProjectionSyncStats { inserted: 0, recopied: 0, removed: 0, unchanged: 0, authority_missing: 0 }),
    {
        ProjectionSyncStats { inserted: 0, recopied: 0, removed: 0, unchanged: 0, authority_missing: 0 }
    }
}

/// A count, saturated at `u32::MAX`.
pub open spec fn sat(n: int) -> u32 {
    if n >= u32::MAX {
        u32::MAX
    } else {
        n as u32
    }
}

/// Chunk `k` may be projected: it is simulation-resident and in the grid.
pub open spec fn authoritative(world: WorldModel, k: (i32, i32, i32)) -> bool {
    world.loaded.contains(k) && world.in_grid(k)
}

proof fn lemma_sat_step(n: int)
    requires
        n >= 0,
    ensures
        sat(n + 1) == (if sat(n) == u32::MAX {
            u32::MAX
        } else {
            (sat(n) + 1) as u32
        }),
{
}

/// Drop every projected chunk that is no longer desired; the result counts
/// them.
fn drop_undesired(chunks: &mut BTreeMap<(i32, i32, i32), ChunkView>, desired: &BTreeSet<(i32, i32, i32)>) -> (r: u32)
    ensures
        final(chunks)@ == old(chunks)@.restrict(desired@),
        r == sat(old(chunks)@.dom().difference(desired@).len() as int),
{
    let ghost old_map = chunks@;
    let mut stale: Vec<(i32, i32, i32)> = Vec::new();
    let ghost mut gone: Set<(i32, i32, i32)> = Set::empty();
    for k in it: chunks.keys()
        invariant
            old_map == chunks@,
            forall|i: int| 0 <= i < it.seq().len() ==> old_map.dom().contains(*#[trigger] it.seq()[i]),
            forall|q: (i32, i32, i32)| #[trigger]
                old_map.dom().contains(q) ==> exists|i: int| 0 <= i < it.seq().len() && *it.seq()[i] == q,
            gone.finite(),
            stale@.len() == gone.len(),
            forall|q: (i32, i32, i32)| #[trigger]
                gone.contains(q) <==> (exists|i: int| 0 <= i < it.index() && *it.seq()[i] == q) && !desired@.contains(q),
            forall|q: (i32, i32, i32)| gone.contains(q) <==> #[trigger] stale@.contains(q),
    {
        let key = *k;
        if !desired.contains(&key) {
            proof {
                let n = it.index();
                assert forall|i: int| 0 <= i < n implies *it.seq()[i] != key by {
                    assert(crate::ordered::lex_lt(*it.seq()[i], *it.seq()[n]));
                }
                gone = gone.insert(key);
            }
            let ghost before = stale@;
            stale.push(key);
            proof {
                assert(stale@ == before.push(key));
                assert forall|q: (i32, i32, i32)| gone.contains(q) <==> #[trigger] stale@.contains(q) by {
                    if stale@.contains(q) && q != key {
                        let j = choose|j: int| 0 <= j < stale@.len() && stale@[j] == q;
                        assert(j < before.len());
                        assert(before[j] == q);
                        assert(before.contains(q));
                    }
                    if before.contains(q) {
                        let j = choose|j: int| 0 <= j < before.len() && before[j] == q;
                        assert(stale@[j] == q);
                    }
                    if q == key {
                        assert(stale@[stale@.len() - 1] == key);
                    }
                }
            }
        }
    }
    proof {
        assert(gone =~= old_map.dom().difference(desired@));
    }
    let n = stale.len();
    let mut removed: u32 = 0;
    let mut i: usize = 0;
    while i < n
        invariant
            n == stale@.len(),
            i <= n,
            removed == sat(i as int),
            forall|q: (i32, i32, i32)| gone.contains(q) <==> #[trigger] stale@.contains(q),
            gone == old_map.dom().difference(desired@),
            forall|q: (i32, i32, i32)| #[trigger]
                chunks@.contains_key(q) <==> old_map.contains_key(q) && !(exists|j: int| 0 <= j < i && stale@[j] == q),
            forall|q: (i32, i32, i32)| #[trigger] chunks@.contains_key(q) ==> chunks@[q] == old_map[q],
        decreases n - i,
    {
        let key = stale[i];
        chunks.remove(&key);
        proof {
            lemma_sat_step(i as int);
        }
        removed = removed.saturating_add(1);
        i = i + 1;
    }
    proof {
        assert(chunks@ =~= old_map.restrict(desired@)) by {
            assert forall|q: (i32, i32, i32)| chunks@.contains_key(q) <==> old_map.restrict(desired@).contains_key(q) by {
                if old_map.contains_key(q) && !desired@.contains(q) {
                    assert(gone.contains(q));
                    assert(stale@.contains(q));
                }
                if exists|j: int| 0 <= j < n && stale@[j] == q {
                    let j = choose|j: int| 0 <= j < n && stale@[j] == q;
                    assert(stale@.contains(q));
                }
            }
        }
    }
    removed
}


/// The copy of chunk `k` was taken at the world's current revision.
pub open spec fn kept_copy(old_chunks: Map<(i32, i32, i32), ChunkView>, world: WorldModel, k: (i32, i32, i32)) -> bool {
    old_chunks.contains_key(k) && old_chunks[k].terrain_revision == world.chunk_revision(k).unwrap()
}

/// After synchronization chunk `k` holds `v`: a copy at the current
/// revision, the earlier copy when that was already current.
pub open spec fn synced(
    old_chunks: Map<(i32, i32, i32), ChunkView>,
    world: WorldModel,
    k: (i32, i32, i32),
    v: ChunkView,
) -> bool {
    &&& v.terrain_revision == world.chunk_revision(k).unwrap()
    &&& if kept_copy(old_chunks, world, k) {
        v == old_chunks[k]
    } else {
        v.blocks@ == world.chunk_blocks(k)
    }
}

/// Synchronize the projected chunks with the authoritative world: drop the
/// chunks that are no longer desired or no longer simulation-resident, copy
/// in the desired resident chunks that are missing, and recopy a chunk only
/// when its terrain revision changed. The result counts each kind of work.
pub fn sync_view_chunks(
    client: &mut ClientView,
    world: &WorldState,
    desired: &BTreeSet<(i32, i32, i32)>,
) -> (r: ProjectionSyncStats)
    requires
        world@.wf(),
    ensures
        final(client).tick == old(client).tick,
        final(client).world_chunks == old(client).world_chunks,
        final(client).entities == old(client).entities,
        final(client).primary_entity_id == old(client).primary_entity_id,
        old(client).wf() && world@.config.chunk_edge == 16 ==> final(client).wf(),
        forall|k: (i32, i32, i32)|
            #[trigger] final(client).chunks@.contains_key(k) <==> desired@.contains(k) && authoritative(world@, k),
        forall|k: (i32, i32, i32)|
            #[trigger] final(client).chunks@.contains_key(k) ==> synced(
                old(client).chunks@,
                world@,
                k,
                final(client).chunks@[k],
            ),
        r.removed == sat(old(client).chunks@.dom().difference(final(client).chunks@.dom()).len() as int),
        r.inserted == sat(final(client).chunks@.dom().difference(old(client).chunks@.dom()).len() as int),
        r.authority_missing == sat(
            desired@.filter(|k: (i32, i32, i32)| !authoritative(world@, k)).len() as int,
        ),
        r.unchanged == sat(
            final(client).chunks@.dom().filter(
                |k: (i32, i32, i32)| kept_copy(old(client).chunks@, world@, k),
            ).len() as int,
        ),
        r.recopied == sat(
            final(client).chunks@.dom().filter(
                |k: (i32, i32, i32)|
                    old(client).chunks@.contains_key(k) && !kept_copy(old(client).chunks@, world@, k),
            ).len() as int,
        ),
{
    let ghost om = client.chunks@;
    let ghost w = world@;
    let mut stats = ProjectionSyncStats::default();
    stats.removed = drop_undesired(&mut client.chunks, desired);
    let ghost mut removed_g: Set<(i32, i32, i32)> = om.dom().difference(desired@);
    let ghost mut missing_g: Set<(i32, i32, i32)> = Set::empty();
    let ghost mut inserted_g: Set<(i32, i32, i32)> = Set::empty();
    let ghost mut unchanged_g: Set<(i32, i32, i32)> = Set::empty();
    let ghost mut recopied_g: Set<(i32, i32, i32)> = Set::empty();
    let ghost mut done: Set<(i32, i32, i32)> = Set::empty();
    proof {
        assert(stats.inserted == 0 && stats.recopied == 0 && stats.unchanged == 0 && stats.authority_missing == 0);
    }
    for chunk in it: desired.iter()
        invariant
            forall|i: int, j: int| 0 <= i < j < it.seq().len() ==> crate::ordered::lex_lt(*it.seq()[i], *it.seq()[j]),
            w == world@,
            w.wf(),
            forall|i: int| 0 <= i < it.seq().len() ==> desired@.contains(*#[trigger] it.seq()[i]),
            done.finite(),
            forall|q: (i32, i32, i32)| #[trigger] done.contains(q) ==> desired@.contains(q),
            forall|q: (i32, i32, i32)| #[trigger]
                desired@.contains(q) ==> done.contains(q) || exists|i: int| it.index() <= i < it.seq().len() && *it.seq()[i] == q,
            forall|i: int| it.index() <= i < it.seq().len() ==> !done.contains(*#[trigger] it.seq()[i]),
            forall|i: int, j: int| 0 <= i < j < it.seq().len() ==> *it.seq()[i] != *it.seq()[j],
            forall|q: (i32, i32, i32)| #[trigger]
                client.chunks@.contains_key(q) <==> desired@.contains(q) && (if done.contains(q) {
                    authoritative(w, q)
                } else {
                    om.contains_key(q)
                }),
            forall|q: (i32, i32, i32)| #[trigger]
                client.chunks@.contains_key(q) ==> if done.contains(q) {
                    synced(om, w, q, client.chunks@[q])
                } else {
                    client.chunks@[q] == om[q]
                },
            removed_g.finite(),
            missing_g.finite(),
            inserted_g.finite(),
            unchanged_g.finite(),
            recopied_g.finite(),
            stats.removed == sat(removed_g.len() as int),
            stats.authority_missing == sat(missing_g.len() as int),
            stats.inserted == sat(inserted_g.len() as int),
            stats.unchanged == sat(unchanged_g.len() as int),
            stats.recopied == sat(recopied_g.len() as int),
            forall|q: (i32, i32, i32)| #[trigger] removed_g.contains(q) <==> om.contains_key(q) && (!desired@.contains(q)
                || (done.contains(q) && !authoritative(w, q))),
            forall|q: (i32, i32, i32)| #[trigger] missing_g.contains(q) <==> done.contains(q) && !authoritative(w, q),
            forall|q: (i32, i32, i32)| #[trigger] inserted_g.contains(q) <==> done.contains(q) && authoritative(w, q) && !om.contains_key(q),
            forall|q: (i32, i32, i32)| #[trigger] unchanged_g.contains(q) <==> done.contains(q) && authoritative(w, q) && kept_copy(om, w, q),
            forall|q: (i32, i32, i32)| #[trigger] recopied_g.contains(q) <==> done.contains(q) && authoritative(w, q) && om.contains_key(q) && !kept_copy(om, w, q),
            client.tick == old(client).tick,
            client.world_chunks == old(client).world_chunks,
            client.entities == old(client).entities,
            client.primary_entity_id == old(client).primary_entity_id,
    {
        let key = *chunk;
        let ghost n = it.index();
        proof {
            assert(desired@.contains(key));
            assert(!done.contains(key));
        }
        let c = Vec3i { x: key.0, y: key.1, z: key.2 };
        let revision = if world.is_chunk_loaded(c) {
            world.chunk_terrain_revision(c)
        } else {
            None
        };
        match revision {
            None => {
                proof {
                    lemma_sat_step(missing_g.len() as int);
                    missing_g = missing_g.insert(key);
                }
                stats.authority_missing = stats.authority_missing.saturating_add(1);
                let was = client.chunks.remove(&key);
                if was.is_some() {
                    proof {
                        lemma_sat_step(removed_g.len() as int);
                        removed_g = removed_g.insert(key);
                    }
                    stats.removed = stats.removed.saturating_add(1);
                }
            },
            Some(rev) => {
                let current = match client.chunks.get(&key) {
                    Some(v) => Some(v.terrain_revision),
                    None => None,
                };
                match current {
                    Some(r0) => {
                        if r0 == rev {
                            proof {
                                lemma_sat_step(unchanged_g.len() as int);
                                unchanged_g = unchanged_g.insert(key);
                            }
                            stats.unchanged = stats.unchanged.saturating_add(1);
                        } else {
                            let mut blocks: Vec<BlockType> = Vec::new();
                            world.copy_chunk_blocks(c, &mut blocks);
                            client.chunks.insert(key, ChunkView { blocks, terrain_revision: rev });
                            proof {
                                lemma_sat_step(recopied_g.len() as int);
                                recopied_g = recopied_g.insert(key);
                            }
                            stats.recopied = stats.recopied.saturating_add(1);
                        }
                    },
                    None => {
                        let mut blocks: Vec<BlockType> = Vec::new();
                        world.copy_chunk_blocks(c, &mut blocks);
                        client.chunks.insert(key, ChunkView { blocks, terrain_revision: rev });
                        proof {
                            lemma_sat_step(inserted_g.len() as int);
                            inserted_g = inserted_g.insert(key);
                        }
                        stats.inserted = stats.inserted.saturating_add(1);
                    },
                }
            },
        }
        proof {
            done = done.insert(key);
            assert forall|q: (i32, i32, i32)| #[trigger] desired@.contains(q) implies done.contains(q) || exists|i: int| n + 1 <= i < it.seq().len() && *it.seq()[i] == q by {
                if !done.contains(q) {
                    let i = choose|i: int| n <= i < it.seq().len() && *it.seq()[i] == q;
                    assert(i != n);
                }
            }
        }
    }
    let ghost fd = client.chunks@.dom();
    proof {
        if old(client).wf() && w.config.chunk_edge == 16 {
            assert forall|k: (i32, i32, i32)| #[trigger] client.chunks@.contains_key(k) implies client.chunks@[k].blocks@.len() == 4096 by {
                if !kept_copy(om, w, k) {
                    assert(w.chunk_blocks(k).len() == 4096);
                }
            }
        }
        assert(done =~= desired@);
        assert(removed_g =~= om.dom().difference(fd));
        assert(inserted_g =~= fd.difference(om.dom()));
        assert(missing_g =~= desired@.filter(|k: (i32, i32, i32)| !authoritative(w, k)));
        assert(unchanged_g =~= fd.filter(|k: (i32, i32, i32)| kept_copy(om, w, k)));
        assert(recopied_g =~= fd.filter(|k: (i32, i32, i32)| om.contains_key(k) && !kept_copy(om, w, k)));
    }
    stats
}


/// Voxels along a chunk's edge in the client projection.
pub const CHUNK_EDGE: i64 = 16;

/// Depth of the topmost scan below the view level.
pub const Z_LEVELS_BELOW: i64 = 5;

/// Radius of an entity's field of view, in voxels.
pub const FOV_RADIUS: i64 = 20;

/// Chunks kept around the visible window.
pub const RENDER_PADDING_CHUNKS: i64 = 1;

/// Voxel bounds of one axis of a centred grid `dim` chunks long, `None`
/// when the axis is empty or does not fit `i32`.
pub open spec fn axis_bounds(dim: u32) -> Option<(int, int)> {
    let size = dim * 16;
    if dim == 0 || size > i32::MAX {
        None
    } else {
        Some((-(size / 2), -(size / 2) + size - 1))
    }
}

/// Inclusive voxel bounds of a centred world of `dims` chunks.
pub open spec fn world_voxel_bounds(dims: Vec3u) -> Option<((int, int, int), (int, int, int))> {
    match (axis_bounds(dims.x), axis_bounds(dims.y), axis_bounds(dims.z)) {
        (Some(x), Some(y), Some(z)) => Some(((x.0, y.0, z.0), (x.1, y.1, z.1))),
        _ => None,
    }
}

/// Chunk coordinate, along one axis, of voxel `p` of a world whose lowest
/// voxel is `min`.
pub open spec fn axis_chunk(p: int, min: int, dim: u32) -> int {
    (p - min) / 16 - dim / 2
}

/// Lowest voxel, along one axis, of chunk `c`.
pub open spec fn axis_base(min: int, c: int, dim: u32) -> int {
    min + (c + dim / 2) * 16
}

/// Raw camera rectangle in whole tiles (the floors of its edges).
#[derive(Debug, Clone, Copy, PartialEq, Eq, Structural)]
pub struct TileRect {
    pub min_x: i32,
    pub max_x: i32,
    pub min_y: i32,
    pub max_y: i32,
}

pub open spec fn max_int(a: int, b: int) -> int {
    if a >= b {
        a
    } else {
        b
    }
}

pub open spec fn min_int(a: int, b: int) -> int {
    if a <= b {
        a
    } else {
        b
    }
}

/// Chunk `c` lies in the camera window over the scanned slice below
/// `view_z`, widened by `pad` chunks in x and y, and in the grid.
pub open spec fn in_camera_window(view_z: i32, dims: Vec3u, rect: TileRect, pad: int, c: (i32, i32, i32)) -> bool {
    match world_voxel_bounds(dims) {
        None => false,
        Some((mn, mx)) => {
            let x0 = max_int(rect.min_x as int, mn.0);
            let x1 = min_int(rect.max_x as int, mx.0);
            let y0 = max_int(rect.min_y as int, mn.1);
            let y1 = min_int(rect.max_y as int, mx.1);
            let z_lo = max_int(view_z - Z_LEVELS_BELOW, mn.2);
            &&& mn.2 <= view_z <= mx.2
            &&& x0 <= x1 && y0 <= y1
            &&& axis_chunk(z_lo, mn.2, dims.z) <= c.2 <= axis_chunk(view_z as int, mn.2, dims.z)
            &&& axis_chunk(y0, mn.1, dims.y) - pad <= c.1 <= axis_chunk(y1, mn.1, dims.y) + pad
            &&& axis_chunk(x0, mn.0, dims.x) - pad <= c.0 <= axis_chunk(x1, mn.0, dims.x) + pad
            &&& crate::coords::in_chunk_grid(dims, c)
        },
    }
}

/// Chunk `c` lies in the single z layer of `view_z` under the camera.
pub open spec fn in_visible_layer(view_z: i32, dims: Vec3u, rect: TileRect, c: (i32, i32, i32)) -> bool {
    match world_voxel_bounds(dims) {
        None => false,
        Some((mn, mx)) => {
            let x0 = max_int(rect.min_x as int, mn.0);
            let x1 = min_int(rect.max_x as int, mx.0);
            let y0 = max_int(rect.min_y as int, mn.1);
            let y1 = min_int(rect.max_y as int, mx.1);
            &&& mn.2 <= view_z <= mx.2
            &&& x0 <= x1 && y0 <= y1
            &&& c.2 == axis_chunk(view_z as int, mn.2, dims.z)
            &&& axis_chunk(y0, mn.1, dims.y) <= c.1 <= axis_chunk(y1, mn.1, dims.y)
            &&& axis_chunk(x0, mn.0, dims.x) <= c.0 <= axis_chunk(x1, mn.0, dims.x)
            &&& crate::coords::in_chunk_grid(dims, c)
        },
    }
}

/// Distance, along one axis, from `p` to the nearest voxel of the chunk
/// starting at `lo`.
pub open spec fn axis_gap(p: int, lo: int) -> int {
    if p < lo {
        p - lo
    } else if p > lo + 15 {
        p - (lo + 15)
    } else {
        0
    }
}

/// Chunk `c` of the grid meets the field-of-view sphere around `pos`.
pub open spec fn fov_touches(dims: Vec3u, pos: Vec3i, c: (i32, i32, i32)) -> bool {
    match world_voxel_bounds(dims) {
        None => false,
        Some((mn, _)) => {
            let dx = axis_gap(pos.x as int, axis_base(mn.0, c.0 as int, dims.x));
            let dy = axis_gap(pos.y as int, axis_base(mn.1, c.1 as int, dims.y));
            let dz = axis_gap(pos.z as int, axis_base(mn.2, c.2 as int, dims.z));
            &&& crate::coords::in_chunk_grid(dims, c)
            &&& dx * dx + dy * dy + dz * dz <= FOV_RADIUS * FOV_RADIUS
        },
    }
}

/// Bounds of one axis, `None` when empty or too large.
fn axis_bounds_exec(dim: u32) -> (r: Option<(i64, i64)>)
    ensures
        r == (match axis_bounds(dim) {
            Some((a, b)) => Some((a as i64, b as i64)),
            None => None::<(i64, i64)>,
        }),
        r is Some ==> -(i32::MAX as int) <= r.unwrap().0 <= 0 && 0 <= r.unwrap().1 <= i32::MAX,
{
    if dim == 0 {
        return None;
    }
    let size = dim as i64 * 16;
    if size > i32::MAX as i64 {
        return None;
    }
    Some((-(size / 2), -(size / 2) + size - 1))
}

/// Insert every grid chunk of the box `[x0, x1] x [y0, y1] x [z0, z1]`.
fn insert_box(
    set: &mut BTreeSet<(i32, i32, i32)>,
    dims: Vec3u,
    x0: i64,
    x1: i64,
    y0: i64,
    y1: i64,
    z0: i64,
    z1: i64,
)
    requires
        crate::coords::grid_fits(dims),
    ensures
        forall|c: (i32, i32, i32)|
            #[trigger] final(set)@.contains(c) <==> old(set)@.contains(c) || (x0 <= c.0 <= x1 && y0 <= c.1 <= y1
                && z0 <= c.2 <= z1 && crate::coords::in_chunk_grid(dims, c)),
{
    let hx = (dims.x / 2) as i64;
    let hy = (dims.y / 2) as i64;
    let hz = (dims.z / 2) as i64;
    let lx = if x0 > -hx { x0 } else { -hx };
    let ux = if x1 < dims.x as i64 - hx - 1 { x1 } else { dims.x as i64 - hx - 1 };
    let ly = if y0 > -hy { y0 } else { -hy };
    let uy = if y1 < dims.y as i64 - hy - 1 { y1 } else { dims.y as i64 - hy - 1 };
    let lz = if z0 > -hz { z0 } else { -hz };
    let uz = if z1 < dims.z as i64 - hz - 1 { z1 } else { dims.z as i64 - hz - 1 };
    let ghost s0 = set@;
    let mut z = lz;
    while z <= uz
        invariant
            crate::coords::grid_fits(dims),
            hx == dims.x / 2,
            hy == dims.y / 2,
            hz == dims.z / 2,
            -hx <= lx,
            ux <= dims.x - hx - 1,
            -hy <= ly,
            uy <= dims.y - hy - 1,
            -hz <= lz,
            uz <= dims.z - hz - 1,
            lz <= z <= uz + 1 || z == lz,
            forall|c: (i32, i32, i32)|
                #[trigger] set@.contains(c) <==> s0.contains(c) || (lx <= c.0 <= ux && ly <= c.1 <= uy && lz <= c.2 < z),
        decreases uz + 1 - z,
    {
        let mut y = ly;
        while y <= uy
            invariant
                crate::coords::grid_fits(dims),
                hx == dims.x / 2,
                hy == dims.y / 2,
                hz == dims.z / 2,
                -hx <= lx,
                ux <= dims.x - hx - 1,
                -hy <= ly,
                uy <= dims.y - hy - 1,
                -hz <= lz,
                uz <= dims.z - hz - 1,
                lz <= z <= uz,
                ly <= y <= uy + 1 || y == ly,
                forall|c: (i32, i32, i32)|
                    #[trigger] set@.contains(c) <==> s0.contains(c) || (lx <= c.0 <= ux && ly <= c.1 <= uy && lz <= c.2 < z)
                        || (lx <= c.0 <= ux && ly <= c.1 < y && c.2 == z),
            decreases uy + 1 - y,
        {
            let mut x = lx;
            while x <= ux
                invariant
                    crate::coords::grid_fits(dims),
                    hx == dims.x / 2,
                    hy == dims.y / 2,
                    hz == dims.z / 2,
                    -hx <= lx,
                    ux <= dims.x - hx - 1,
                    -hy <= ly,
                    uy <= dims.y - hy - 1,
                    -hz <= lz,
                    uz <= dims.z - hz - 1,
                    lz <= z <= uz,
                    ly <= y <= uy,
                    lx <= x <= ux + 1 || x == lx,
                    forall|c: (i32, i32, i32)|
                        #[trigger] set@.contains(c) <==> s0.contains(c) || (lx <= c.0 <= ux && ly <= c.1 <= uy && lz <= c.2 < z)
                            || (lx <= c.0 <= ux && ly <= c.1 < y && c.2 == z) || (lx <= c.0 < x && c.1 == y && c.2 == z),
                decreases ux + 1 - x,
            {
                set.insert((x as i32, y as i32, z as i32));
                x = x + 1;
            }
            y = y + 1;
        }
        z = z + 1;
    }
}


/// World bounds of `dims`, `None` when the world is empty or too large.
pub(crate) fn world_bounds_exec(dims: Vec3u) -> (r: Option<((i64, i64, i64), (i64, i64, i64))>)
    ensures
        r is Some <==> world_voxel_bounds(dims) is Some,
        r is Some ==> {
            let (mn, mx) = world_voxel_bounds(dims).unwrap();
            &&& r.unwrap().0 == (mn.0 as i64, mn.1 as i64, mn.2 as i64)
            &&& r.unwrap().1 == (mx.0 as i64, mx.1 as i64, mx.2 as i64)
            &&& -(i32::MAX as int) <= mn.0 <= 0 && 0 <= mx.0 <= i32::MAX
            &&& -(i32::MAX as int) <= mn.1 <= 0 && 0 <= mx.1 <= i32::MAX
            &&& -(i32::MAX as int) <= mn.2 <= 0 && 0 <= mx.2 <= i32::MAX
            &&& crate::coords::grid_fits(dims)
        },
{
    match (axis_bounds_exec(dims.x), axis_bounds_exec(dims.y), axis_bounds_exec(dims.z)) {
        (Some(x), Some(y), Some(z)) => Some(((x.0, y.0, z.0), (x.1, y.1, z.1))),
        _ => None,
    }
}

/// Chunks of the camera window over the scanned slice below `view_z`,
/// widened by `pad` chunks in x and y and clipped to the grid.
pub fn camera_chunk_window(view_z: i32, dims: Vec3u, rect: TileRect, pad: i64) -> (r: BTreeSet<(i32, i32, i32)>)
    requires
        0 <= pad <= RENDER_PADDING_CHUNKS,
    ensures
        forall|c: (i32, i32, i32)| #[trigger] r@.contains(c) <==> in_camera_window(view_z, dims, rect, pad as int, c),
{
    let mut set: BTreeSet<(i32, i32, i32)> = BTreeSet::new();
    let (mn, mx) = match world_bounds_exec(dims) {
        Some(b) => b,
        None => {
            return set;
        },
    };
    let vz = view_z as i64;
    if vz < mn.2 || vz > mx.2 {
        return set;
    }
    let x0 = if (rect.min_x as i64) > mn.0 { rect.min_x as i64 } else { mn.0 };
    let x1 = if (rect.max_x as i64) < mx.0 { rect.max_x as i64 } else { mx.0 };
    let y0 = if (rect.min_y as i64) > mn.1 { rect.min_y as i64 } else { mn.1 };
    let y1 = if (rect.max_y as i64) < mx.1 { rect.max_y as i64 } else { mx.1 };
    if x0 > x1 || y0 > y1 {
        return set;
    }
    let z_lo = if vz - Z_LEVELS_BELOW > mn.2 { vz - Z_LEVELS_BELOW } else { mn.2 };
    let cx0 = (x0 - mn.0) / CHUNK_EDGE - (dims.x / 2) as i64;
    let cx1 = (x1 - mn.0) / CHUNK_EDGE - (dims.x / 2) as i64;
    let cy0 = (y0 - mn.1) / CHUNK_EDGE - (dims.y / 2) as i64;
    let cy1 = (y1 - mn.1) / CHUNK_EDGE - (dims.y / 2) as i64;
    let cz0 = (z_lo - mn.2) / CHUNK_EDGE - (dims.z / 2) as i64;
    let cz1 = (vz - mn.2) / CHUNK_EDGE - (dims.z / 2) as i64;
    insert_box(&mut set, dims, cx0 - pad, cx1 + pad, cy0 - pad, cy1 + pad, cz0, cz1);
    set
}

/// Chunks of the single z layer holding `view_z` under the camera: one
/// entry per column that may emit floor tiles.
pub fn visible_chunk_layer(view_z: i32, dims: Vec3u, rect: TileRect) -> (r: BTreeSet<(i32, i32, i32)>)
    ensures
        forall|c: (i32, i32, i32)| #[trigger] r@.contains(c) <==> in_visible_layer(view_z, dims, rect, c),
{
    let mut set: BTreeSet<(i32, i32, i32)> = BTreeSet::new();
    let (mn, mx) = match world_bounds_exec(dims) {
        Some(b) => b,
        None => {
            return set;
        },
    };
    let vz = view_z as i64;
    if vz < mn.2 || vz > mx.2 {
        return set;
    }
    let x0 = if (rect.min_x as i64) > mn.0 { rect.min_x as i64 } else { mn.0 };
    let x1 = if (rect.max_x as i64) < mx.0 { rect.max_x as i64 } else { mx.0 };
    let y0 = if (rect.min_y as i64) > mn.1 { rect.min_y as i64 } else { mn.1 };
    let y1 = if (rect.max_y as i64) < mx.1 { rect.max_y as i64 } else { mx.1 };
    if x0 > x1 || y0 > y1 {
        return set;
    }
    let cx0 = (x0 - mn.0) / CHUNK_EDGE - (dims.x / 2) as i64;
    let cx1 = (x1 - mn.0) / CHUNK_EDGE - (dims.x / 2) as i64;
    let cy0 = (y0 - mn.1) / CHUNK_EDGE - (dims.y / 2) as i64;
    let cy1 = (y1 - mn.1) / CHUNK_EDGE - (dims.y / 2) as i64;
    let cz = (vz - mn.2) / CHUNK_EDGE - (dims.z / 2) as i64;
    insert_box(&mut set, dims, cx0, cx1, cy0, cy1, cz, cz);
    set
}


/// Chunk `c` lies in the given coordinate ranges.
pub open spec fn in_ranges(rx: (i64, i64), ry: (i64, i64), rz: (i64, i64), c: (i32, i32, i32)) -> bool {
    rx.0 <= c.0 <= rx.1 && ry.0 <= c.1 <= ry.1 && rz.0 <= c.2 <= rz.1
}

/// A chunk past the far end of the field of view along one axis lies more
/// than the radius away.
proof fn lemma_beyond_fov(p: int, min: int, dim: u32, c: int)
    requires
        c > (p + FOV_RADIUS - min) / 16 - dim / 2 || c < (p - FOV_RADIUS - min) / 16 - dim / 2,
    ensures
        axis_gap(p, axis_base(min, c, dim)) * axis_gap(p, axis_base(min, c, dim)) > FOV_RADIUS * FOV_RADIUS,
{
    let g = axis_gap(p, axis_base(min, c, dim));
    assert(g > FOV_RADIUS || g < -FOV_RADIUS);
    assert(g * g > 400) by (nonlinear_arith)
        requires
            g > 20 || g < -20,
    ;
}

/// Gap from `p` to the chunk starting at `lo`, as computed.
fn axis_gap_exec(p: i64, lo: i64) -> (r: i64)
    requires
        -(i64::MAX as int) / 4 <= p <= i64::MAX / 4,
        -(i64::MAX as int) / 4 <= lo <= i64::MAX / 4,
    ensures
        r == axis_gap(p as int, lo as int),
{
    if p < lo {
        p - lo
    } else if p > lo + 15 {
        p - (lo + 15)
    } else {
        0
    }
}

/// The candidate chunk range of one axis for the field of view around `p`,
/// clipped to the grid.
fn fov_axis_range(p: i32, min: i64, dim: u32) -> (r: (i64, i64))
    requires
        -(i32::MAX as int) <= min <= 0,
        dim <= i32::MAX,
    ensures
        r.0 == max_int((p - FOV_RADIUS - min) / 16 - dim / 2, -(dim / 2)),
        r.1 == min_int((p + FOV_RADIUS - min) / 16 - dim / 2, dim - dim / 2 - 1),
{
    let center = (dim / 2) as i64;
    let lo = crate::invalidation::floor_div(p as i64 - FOV_RADIUS - min, CHUNK_EDGE) - center;
    let hi = crate::invalidation::floor_div(p as i64 + FOV_RADIUS - min, CHUNK_EDGE) - center;
    let grid_hi = dim as i64 - center - 1;
    (if lo > -center { lo } else { -center }, if hi < grid_hi { hi } else { grid_hi })
}

/// Add every grid chunk that meets the field-of-view sphere around
/// `position` (entity mode keeps them projected for line of sight).
pub fn add_fov_support_chunks(resident: &mut BTreeSet<(i32, i32, i32)>, dims: Vec3u, position: Vec3i)
    ensures
        forall|c: (i32, i32, i32)|
            #[trigger] final(resident)@.contains(c) <==> old(resident)@.contains(c) || fov_touches(dims, position, c),
{
    let (mn, _) = match world_bounds_exec(dims) {
        Some(b) => b,
        None => {
            return;
        },
    };
    let rx = fov_axis_range(position.x, mn.0, dims.x);
    let ry = fov_axis_range(position.y, mn.1, dims.y);
    let rz = fov_axis_range(position.z, mn.2, dims.z);
    let (hx, hy, hz) = ((dims.x / 2) as i64, (dims.y / 2) as i64, (dims.z / 2) as i64);
    let ghost s0 = resident@;
    let (px, py, pz) = (position.x as i64, position.y as i64, position.z as i64);
    let mut z = rz.0;
    while z <= rz.1
        invariant
            world_voxel_bounds(dims) is Some,
            mn == (world_voxel_bounds(dims).unwrap().0.0 as i64, world_voxel_bounds(dims).unwrap().0.1 as i64, world_voxel_bounds(dims).unwrap().0.2 as i64),
            -(i32::MAX as int) <= mn.0 <= 0,
            -(i32::MAX as int) <= mn.1 <= 0,
            -(i32::MAX as int) <= mn.2 <= 0,
            crate::coords::grid_fits(dims),
            hx == dims.x / 2,
            hy == dims.y / 2,
            hz == dims.z / 2,
            -hx <= rx.0,
            rx.1 <= dims.x - hx - 1,
            -hy <= ry.0,
            ry.1 <= dims.y - hy - 1,
            -hz <= rz.0,
            rz.1 <= dims.z - hz - 1,
            (px, py, pz) == (position.x as i64, position.y as i64, position.z as i64),
            rz.0 <= z <= rz.1 + 1 || z == rz.0,
            forall|c: (i32, i32, i32)|
                #[trigger] resident@.contains(c) <==> s0.contains(c) || (in_ranges(rx, ry, rz, c) && c.2 < z && fov_touches(dims, position, c)),
        decreases rz.1 + 1 - z,
    {
        let mut y = ry.0;
        while y <= ry.1
            invariant
                world_voxel_bounds(dims) is Some,
                mn == (world_voxel_bounds(dims).unwrap().0.0 as i64, world_voxel_bounds(dims).unwrap().0.1 as i64, world_voxel_bounds(dims).unwrap().0.2 as i64),
                -(i32::MAX as int) <= mn.0 <= 0,
                -(i32::MAX as int) <= mn.1 <= 0,
                -(i32::MAX as int) <= mn.2 <= 0,
                crate::coords::grid_fits(dims),
                hx == dims.x / 2,
                hy == dims.y / 2,
                hz == dims.z / 2,
                -hx <= rx.0,
                rx.1 <= dims.x - hx - 1,
                -hy <= ry.0,
                ry.1 <= dims.y - hy - 1,
                -hz <= rz.0,
                rz.1 <= dims.z - hz - 1,
                (px, py, pz) == (position.x as i64, position.y as i64, position.z as i64),
                rz.0 <= z <= rz.1,
                ry.0 <= y <= ry.1 + 1 || y == ry.0,
                forall|c: (i32, i32, i32)|
                    #[trigger] resident@.contains(c) <==> s0.contains(c) || (in_ranges(rx, ry, rz, c) && (c.2 < z || (c.2 == z && c.1 < y)) && fov_touches(dims, position, c)),
            decreases ry.1 + 1 - y,
        {
            let mut x = rx.0;
            while x <= rx.1
                invariant
                    world_voxel_bounds(dims) is Some,
                    mn == (world_voxel_bounds(dims).unwrap().0.0 as i64, world_voxel_bounds(dims).unwrap().0.1 as i64, world_voxel_bounds(dims).unwrap().0.2 as i64),
                    -(i32::MAX as int) <= mn.0 <= 0,
                    -(i32::MAX as int) <= mn.1 <= 0,
                    -(i32::MAX as int) <= mn.2 <= 0,
                    crate::coords::grid_fits(dims),
                    hx == dims.x / 2,
                    hy == dims.y / 2,
                    hz == dims.z / 2,
                    -hx <= rx.0,
                    rx.1 <= dims.x - hx - 1,
                    -hy <= ry.0,
                    ry.1 <= dims.y - hy - 1,
                    -hz <= rz.0,
                    rz.1 <= dims.z - hz - 1,
                    (px, py, pz) == (position.x as i64, position.y as i64, position.z as i64),
                    rz.0 <= z <= rz.1,
                    ry.0 <= y <= ry.1,
                    rx.0 <= x <= rx.1 + 1 || x == rx.0,
                    forall|c: (i32, i32, i32)|
                        #[trigger] resident@.contains(c) <==> s0.contains(c) || (in_ranges(rx, ry, rz, c) && (c.2 < z || (c.2 == z && c.1 < y) || (c.2 == z && c.1 == y && c.0 < x)) && fov_touches(dims, position, c)),
                decreases rx.1 + 1 - x,
            {
                let gx = axis_gap_exec(px, mn.0 + (x + hx) * CHUNK_EDGE);
                let gy = axis_gap_exec(py, mn.1 + (y + hy) * CHUNK_EDGE);
                let gz = axis_gap_exec(pz, mn.2 + (z + hz) * CHUNK_EDGE);
                let near = -FOV_RADIUS <= gx && gx <= FOV_RADIUS && -FOV_RADIUS <= gy && gy <= FOV_RADIUS
                    && -FOV_RADIUS <= gz && gz <= FOV_RADIUS;
                let ghost c = (x as i32, y as i32, z as i32);
                let close = if near {
                    proof {
                        assert(0 <= gx * gx <= 400 && 0 <= gy * gy <= 400 && 0 <= gz * gz <= 400) by (nonlinear_arith)
                            requires
                                -20 <= gx <= 20,
                                -20 <= gy <= 20,
                                -20 <= gz <= 20,
                        ;
                    }
                    gx * gx + gy * gy + gz * gz <= FOV_RADIUS * FOV_RADIUS
                } else {
                    false
                };
                if close {
                    resident.insert((x as i32, y as i32, z as i32));
                    proof {
                        assert(fov_touches(dims, position, c));
                    }
                } else {
                    proof {
                        if !near {
                            assert(gx * gx > 400 || gy * gy > 400 || gz * gz > 400) by (nonlinear_arith)
                                requires
                                    gx < -20 || gx > 20 || gy < -20 || gy > 20 || gz < -20 || gz > 20,
                            ;
                            assert(gx * gx >= 0 && gy * gy >= 0 && gz * gz >= 0) by (nonlinear_arith);
                        }
                        assert(!fov_touches(dims, position, c));
                    }
                }
                x = x + 1;
            }
            y = y + 1;
        }
        z = z + 1;
    }
    proof {
        assert forall|c: (i32, i32, i32)| fov_touches(dims, position, c) implies #[trigger] in_ranges(rx, ry, rz, c) by {
            let (m, _) = world_voxel_bounds(dims).unwrap();
            if !(rx.0 <= c.0 <= rx.1) {
                lemma_beyond_fov(position.x as int, m.0, dims.x, c.0 as int);
            }
            if !(ry.0 <= c.1 <= ry.1) {
                lemma_beyond_fov(position.y as int, m.1, dims.y, c.1 as int);
            }
            if !(rz.0 <= c.2 <= rz.1) {
                lemma_beyond_fov(position.z as int, m.2, dims.z, c.2 as int);
            }
            let dx = axis_gap(position.x as int, axis_base(m.0, c.0 as int, dims.x));
            let dy = axis_gap(position.y as int, axis_base(m.1, c.1 as int, dims.y));
            let dz = axis_gap(position.z as int, axis_base(m.2, c.2 as int, dims.z));
            assert(dx * dx >= 0 && dy * dy >= 0 && dz * dz >= 0) by (nonlinear_arith);
        }
    }
}


/// What may emit this frame (`visible`) and what must stay projected
/// (`resident`: the visible window, a padding ring and, in entity mode, the
/// chunks of the primary entity's field of view).
#[derive(Debug, Clone)]
pub struct ProjectionWindow {
    pub visible: BTreeSet<(i32, i32, i32)>,
    pub resident: BTreeSet<(i32, i32, i32)>,
}

/// Compute the visible and projection-resident chunk windows of a view.
/// Master mode keeps no field-of-view ring.
pub fn compute_projection_window(
    view_mode: ViewMode,
    view_z: i32,
    world_chunks: Vec3u,
    primary_position: Option<Vec3i>,
    rect: TileRect,
) -> (r: ProjectionWindow)
    ensures
        forall|c: (i32, i32, i32)|
            #[trigger] r.visible@.contains(c) <==> in_camera_window(view_z, world_chunks, rect, 0, c),
        forall|c: (i32, i32, i32)|
            #[trigger] r.resident@.contains(c) <==> in_camera_window(view_z, world_chunks, rect, RENDER_PADDING_CHUNKS as int, c)
                || (view_mode == ViewMode::Entity && primary_position is Some && fov_touches(
                world_chunks,
                primary_position.unwrap(),
                c,
            )),
{
    let visible = camera_chunk_window(view_z, world_chunks, rect, 0);
    let mut resident = camera_chunk_window(view_z, world_chunks, rect, RENDER_PADDING_CHUNKS);
    if view_mode == ViewMode::Entity {
        if let Some(position) = primary_position {
            add_fov_support_chunks(&mut resident, world_chunks, position);
        }
    }
    ProjectionWindow { visible, resident }
}

/// `v` lists one view per entity of `ents`, in strictly increasing id order.
pub open spec fn entity_view_listing(v: Seq<EntityView>, ents: Map<u64, EntityState>) -> bool {
    &&& forall|i: int, j: int| 0 <= i < j < v.len() ==> v[i].id < v[j].id
    &&& forall|i: int|
        0 <= i < v.len() ==> ents.contains_key(#[trigger] v[i].id) && v[i].position == ents[v[i].id].position
            && v[i].facing_left == ents[v[i].id].facing_left
    &&& forall|k: u64| #[trigger] ents.contains_key(k) ==> exists|i: int| 0 <= i < v.len() && v[i].id == k
}

/// Project the live entities (sorted by id) and the primary entity id into
/// the client view; despawned entities drop out.
pub fn project_entities(client: &mut ClientView, world: &WorldState, primary_entity_id: Option<u64>)
    requires
        world@.wf(),
    ensures
        entity_view_listing(final(client).entities@, world@.entities),
        final(client).primary_entity_id == primary_entity_id,
        final(client).chunks == old(client).chunks,
        final(client).tick == old(client).tick,
        final(client).world_chunks == old(client).world_chunks,
{
    let snapshots = world.entity_snapshots();
    let ghost ents = world@.entities;
    let mut views: Vec<EntityView> = Vec::new();
    let n = snapshots.len();
    let mut i: usize = 0;
    while i < n
        invariant
            n == snapshots@.len(),
            i <= n,
            ents == world@.entities,
            crate::world_state::entity_listing(snapshots@, ents),
            views@.len() == i,
            forall|j: int| 0 <= j < i ==> #[trigger] views@[j] == (EntityView {
                id: snapshots@[j].id,
                position: snapshots@[j].position,
                facing_left: snapshots@[j].facing_left,
            }),
        decreases n - i,
    {
        let s: &EntitySnapshot = &snapshots[i];
        views.push(EntityView { id: s.id, position: s.position, facing_left: s.facing_left });
        i = i + 1;
    }
    proof {
        assert forall|k: u64| #[trigger] ents.contains_key(k) implies exists|j: int| 0 <= j < views@.len() && views@[j].id == k by {
            let j = choose|j: int| 0 <= j < snapshots@.len() && snapshots@[j].id == k;
            assert(views@[j].id == k);
        }
        assert forall|a: int| 0 <= a < views@.len() implies ents.contains_key(#[trigger] views@[a].id) && views@[a].position == ents[views@[a].id].position
            && views@[a].facing_left == ents[views@[a].id].facing_left by {
            assert(snapshots@[a] == crate::world_state::entity_snapshot_spec(snapshots@[a].id, ents[snapshots@[a].id]));
        }
    }
    client.entities = views;
    client.primary_entity_id = primary_entity_id;
}


impl ClientView {
    /// Every projected chunk holds a full chunk of blocks.
    pub open spec fn wf(self) -> bool {
        forall|k: (i32, i32, i32)| #[trigger] self.chunks@.contains_key(k) ==> self.chunks@[k].blocks@.len() == 4096
    }
}

/// Voxel `p` lies inside the centred world of `dims` chunks.
pub open spec fn in_world(dims: Vec3u, p: Vec3i) -> bool {
    match world_voxel_bounds(dims) {
        None => false,
        Some((mn, mx)) => mn.0 <= p.x <= mx.0 && mn.1 <= p.y <= mx.1 && mn.2 <= p.z <= mx.2,
    }
}

/// Chunk holding the in-world voxel `p`.
pub open spec fn chunk_key_of(dims: Vec3u, p: Vec3i) -> (i32, i32, i32) {
    let (mn, _) = world_voxel_bounds(dims).unwrap();
    (
        axis_chunk(p.x as int, mn.0, dims.x) as i32,
        axis_chunk(p.y as int, mn.1, dims.y) as i32,
        axis_chunk(p.z as int, mn.2, dims.z) as i32,
    )
}

/// Index of the in-world voxel `p` inside its chunk (x fastest).
pub open spec fn local_index(dims: Vec3u, p: Vec3i) -> int {
    let (mn, _) = world_voxel_bounds(dims).unwrap();
    ((p.z - mn.2) % 16) * 256 + ((p.y - mn.1) % 16) * 16 + (p.x - mn.0) % 16
}

/// The block the projection knows at `p`: air outside the world (known
/// void), `None` when its chunk is not projected (missing).
pub open spec fn projected_block(chunks: Map<(i32, i32, i32), ChunkView>, dims: Vec3u, p: Vec3i) -> Option<BlockType> {
    if !in_world(dims, p) {
        Some(BlockType::Air)
    } else if chunks.contains_key(chunk_key_of(dims, p)) {
        Some(chunks[chunk_key_of(dims, p)].blocks@[local_index(dims, p)])
    } else {
        None
    }
}

/// Fail-closed block lookup over the projection.
pub fn projected_block_at(client: &ClientView, pos: Vec3i) -> (r: Option<BlockType>)
    requires
        client.wf(),
    ensures
        r == projected_block(client.chunks@, client.world_chunks, pos),
{
    let dims = client.world_chunks;
    let (mn, mx) = match world_bounds_exec(dims) {
        Some(b) => b,
        None => {
            return Some(BlockType::Air);
        },
    };
    let (x, y, z) = (pos.x as i64, pos.y as i64, pos.z as i64);
    if x < mn.0 || x > mx.0 || y < mn.1 || y > mx.1 || z < mn.2 || z > mx.2 {
        return Some(BlockType::Air);
    }
    let key = (
        ((x - mn.0) / CHUNK_EDGE - (dims.x / 2) as i64) as i32,
        ((y - mn.1) / CHUNK_EDGE - (dims.y / 2) as i64) as i32,
        ((z - mn.2) / CHUNK_EDGE - (dims.z / 2) as i64) as i32,
    );
    match client.chunks.get(&key) {
        None => None,
        Some(view) => {
            let lx = ((x - mn.0) % CHUNK_EDGE) as usize;
            let ly = ((y - mn.1) % CHUNK_EDGE) as usize;
            let lz = ((z - mn.2) % CHUNK_EDGE) as usize;
            Some(view.blocks[lz * 256 + ly * 16 + lx])
        },
    }
}

/// Solid only when the block is known solid (a missing chunk is not solid
/// for rendering: nothing is drawn for it).
pub open spec fn known_solid_spec(chunks: Map<(i32, i32, i32), ChunkView>, dims: Vec3u, p: Vec3i) -> bool {
    projected_block(chunks, dims, p) == Some(BlockType::SolidStone)
}

pub fn known_solid(client: &ClientView, pos: Vec3i) -> (r: bool)
    requires
        client.wf(),
    ensures
        r == known_solid_spec(client.chunks@, client.world_chunks, pos),
{
    match projected_block_at(client, pos) {
        Some(BlockType::SolidStone) => true,
        _ => false,
    }
}

/// Line-of-sight blocker: anything but known air (a missing chunk blocks,
/// fail closed; the void outside the world does not).
pub open spec fn opaque_for_los_spec(chunks: Map<(i32, i32, i32), ChunkView>, dims: Vec3u, p: Vec3i) -> bool {
    projected_block(chunks, dims, p) != Some(BlockType::Air)
}

pub fn opaque_for_los(client: &ClientView, pos: Vec3i) -> (r: bool)
    requires
        client.wf(),
    ensures
        r == opaque_for_los_spec(client.chunks@, client.world_chunks, pos),
{
    match projected_block_at(client, pos) {
        Some(BlockType::Air) => false,
        _ => true,
    }
}


/// Every projected grid chunk whose copy is at the world's current revision
/// holds the world's blocks.
pub open spec fn faithful(chunks: Map<(i32, i32, i32), ChunkView>, world: WorldModel) -> bool {
    forall|k: (i32, i32, i32)|
        #[trigger] chunks.contains_key(k) && world.in_grid(k) && chunks[k].terrain_revision == world.chunk_revision(k).unwrap()
            ==> chunks[k].blocks@ == world.chunk_blocks(k)
}

/// After synchronizing copies that were faithful, every projected chunk
/// holds exactly the world's current blocks.
pub proof fn lemma_sync_copies_current(
    old_chunks: Map<(i32, i32, i32), ChunkView>,
    new_chunks: Map<(i32, i32, i32), ChunkView>,
    world: WorldModel,
)
    requires
        faithful(old_chunks, world),
        forall|k: (i32, i32, i32)| #[trigger] new_chunks.contains_key(k) ==> authoritative(world, k),
        forall|k: (i32, i32, i32)| #[trigger] new_chunks.contains_key(k) ==> synced(old_chunks, world, k, new_chunks[k]),
    ensures
        faithful(new_chunks, world),
        forall|k: (i32, i32, i32)| #[trigger] new_chunks.contains_key(k) ==> new_chunks[k].blocks@ == world.chunk_blocks(k),
{
    assert forall|k: (i32, i32, i32)| #[trigger] new_chunks.contains_key(k) implies new_chunks[k].blocks@ == world.chunk_blocks(k) by {
        if kept_copy(old_chunks, world, k) {
            assert(old_chunks.contains_key(k) && world.in_grid(k));
        }
    }
}

/// A projected chunk that holds the world's blocks shows, at every voxel of
/// the world, the world's block.
pub proof fn lemma_projected_block_matches_world(
    chunks: Map<(i32, i32, i32), ChunkView>,
    world: WorldModel,
    p: Vec3i,
)
    requires
        world.wf(),
        world.config.chunk_edge == 16,
        world.contains(p),
        chunks.contains_key(world.chunk_of(p).unwrap().key()),
        chunks[world.chunk_of(p).unwrap().key()].blocks@ == world.chunk_blocks(world.chunk_of(p).unwrap().key()),
    ensures
        projected_block(chunks, world.config.world_chunks, p) == world.block_at(p),
{
    let dims = world.config.world_chunks;
    let (mn, mx) = world_voxel_bounds(dims).unwrap();
    assert(world_voxel_bounds(dims) is Some);
    assert(mn == (world.min_x(), world.min_y(), world.min_z()));
    assert(in_world(dims, p));
    let k = chunk_key_of(dims, p);
    assert(k == world.chunk_of(p).unwrap().key());
    let (lx, ly, lz) = (p.x - mn.0, p.y - mn.1, p.z - mn.2);
    let (rx, ry, rz) = (lx % 16, ly % 16, lz % 16);
    let i = rz * 256 + ry * 16 + rx;
    assert(0 <= rx < 16 && 0 <= ry < 16 && 0 <= rz < 16);
    assert(i % 16 == rx && (i / 16) % 16 == ry && i / 256 == rz);
    let b = world.chunk_base(k);
    assert(b.0 + rx == p.x && b.1 + ry == p.y && b.2 + rz == p.z);
    assert(0 <= i < 4096);
    assert(world.chunk_volume() == 4096);
}


/// The projection law: synchronizing faithful copies against the world
/// leaves a projection that shows, at every voxel of every projected chunk,
/// exactly the world's block.
pub proof fn lemma_synced_projection_matches_world(
    old_chunks: Map<(i32, i32, i32), ChunkView>,
    new_chunks: Map<(i32, i32, i32), ChunkView>,
    world: WorldModel,
)
    requires
        world.wf(),
        world.config.chunk_edge == 16,
        faithful(old_chunks, world),
        forall|k: (i32, i32, i32)| #[trigger] new_chunks.contains_key(k) ==> authoritative(world, k),
        forall|k: (i32, i32, i32)| #[trigger] new_chunks.contains_key(k) ==> synced(old_chunks, world, k, new_chunks[k]),
    ensures
        forall|p: Vec3i|
            world.contains(p) && new_chunks.contains_key(#[trigger] world.chunk_of(p).unwrap().key())
                ==> projected_block(new_chunks, world.config.world_chunks, p) == world.block_at(p),
{
    lemma_sync_copies_current(old_chunks, new_chunks, world);
    assert forall|p: Vec3i|
        world.contains(p) && new_chunks.contains_key(#[trigger] world.chunk_of(p).unwrap().key()) implies projected_block(
        new_chunks,
        world.config.world_chunks,
        p,
    ) == world.block_at(p) by {
        lemma_projected_block_matches_world(new_chunks, world, p);
    }
}


impl Default for ClientView {
    fn default() -> (r: ClientView)
        ensures
            r.tick == 0,
            r.world_chunks == (Vec3u { x: 0, y: 0, z: 0 }),
            r.chunks@ == Map::<(i32, i32, i32), ChunkView>::empty(),
            r.entities@ == Seq::<EntityView>::empty(),
            r.primary_entity_id is None,
            r.wf(),
    {
        ClientView {
            tick: 0,
            world_chunks: Vec3u { x: 0, y: 0, z: 0 },
            chunks: BTreeMap::new(),
            entities: Vec::new(),
            primary_entity_id: None,
        }
    }
}

impl ClientView {
    /// The block the projection knows at `pos`; see [`projected_block_at`].
    pub fn block_at(&self, pos: Vec3i) -> (r: Option<BlockType>)
        requires
            self.wf(),
        ensures
            r == projected_block(self.chunks@, self.world_chunks, pos),
    {
        projected_block_at(self, pos)
    }

    /// Whether chunk `key` is projected.
    pub fn has_chunk(&self, key: (i32, i32, i32)) -> (r: bool)
        ensures
            r == self.chunks@.contains_key(key),
    {
        self.chunks.contains_key(&key)
    }

    /// Drop the projected copy of chunk `key`.
    pub fn remove_chunk(&mut self, key: (i32, i32, i32))
        ensures
            final(self).chunks@ == old(self).chunks@.remove(key),
            final(self).tick == old(self).tick,
            final(self).world_chunks == old(self).world_chunks,
            final(self).entities == old(self).entities,
            final(self).primary_entity_id == old(self).primary_entity_id,
            old(self).wf() ==> final(self).wf(),
    {
        self.chunks.remove(&key);
    }
}

} // verus!
