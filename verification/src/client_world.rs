//! The client's render-side copy of the world: configuration, entities,
//! the terrain it draws and the fog-of-war state it last received.

use vstd::prelude::*;
use vstd::std_specs::btree::group_btree_axioms;
use vstd::laws_cmp::group_laws_cmp;
use std::collections::{BTreeMap, BTreeSet};

use crate::coords::{IVec2, RenderViewport, TerrainBlocks, TerrainData};
use crate::geometry::{BlockType, Vec3i, Vec3u};
use crate::invalidation::{
    block_change_cells, block_change_marks, fog_change_cells, layer_marks, InvalidationModel, TileLayerDebugState,
    TilemapInvalidation, ViewMode,
};
use crate::render::key_vec;
use crate::tile_geometry::TileDataCache;
use crate::world_state::{EntitySnapshot, StartBits};

verus! {

broadcast use {
    group_btree_axioms,
    group_laws_cmp,
    crate::ordered::lemma_member_of_listing,
    crate::ordered::lemma_increasing_triples,
};

/// Chunk layout of the world being drawn.
#[derive(Debug, Clone, Copy, PartialEq, Eq, Structural)]
pub struct TerrainConfig {
    pub chunk_edge: u32,
    pub world_chunks: Vec3u,
}

/// A move in progress, as the renderer interpolates it.
#[derive(Debug, Clone, Copy, PartialEq, Eq, Structural)]
pub struct RenderEntityMovementState {
    pub start_bits: StartBits,
    pub origin: Vec3i,
    pub target: Vec3i,
    pub progress_percent: u8,
}

/// One entity as the renderer draws it.
#[derive(Debug, Clone, Copy, PartialEq, Eq, Structural)]
pub struct RenderEntityState {
    pub position: Vec3i,
    pub facing_left: bool,
    pub is_prone: bool,
    pub movement: Option<RenderEntityMovementState>,
}

/// The entities of the last world update.
#[derive(Debug, Clone)]
pub struct RenderEntityData {
    pub tick: u64,
    pub entities: BTreeMap<u64, RenderEntityState>,
    pub dirty: bool,
}

/// What the viewer remembers of a tile.
#[derive(Debug, Clone, Copy, PartialEq, Eq, Structural)]
pub struct TileMemory {
    pub block: BlockType,
    pub tick_observed: u64,
}

/// Fog of war as last received: the visible tiles and the remembered ones.
#[derive(Debug, Clone)]
pub struct FogData {
    pub visible: BTreeSet<(i32, i32, i32)>,
    pub memory: BTreeMap<(i32, i32, i32), TileMemory>,
    pub dirty: bool,
}


/// What the followed entity sees, as the simulation reports it.
#[derive(Debug, Clone)]
pub struct VisibilitySnapshot {
    pub entity_id: u64,
    pub visible: Vec<Vec3i>,
    pub memory: BTreeMap<(i32, i32, i32), TileMemory>,
}

/// A world update as the client receives it (the terrain itself travels
/// separately, shared, and is replaced only when it changed).
#[derive(Debug, Clone)]
pub struct SimSnapshot {
    pub tick: u64,
    pub chunk_edge: u32,
    pub world_chunks: Vec3u,
    pub entities: Vec<EntitySnapshot>,
    pub visibility: Option<VisibilitySnapshot>,
}

/// The positions a visibility list names.
pub open spec fn listed(v: Seq<Vec3i>) -> Set<(i32, i32, i32)> {
    Set::new(|k: (i32, i32, i32)| exists|i: int| 0 <= i < v.len() && #[trigger] v[i].key() == k)
}

/// Whether a snapshot's visibility differs from the fog the client holds:
/// only in entity mode; no visibility report differs from any held fog.
pub open spec fn visibility_changed_spec(
    entity_mode: bool,
    fog_visible: Set<(i32, i32, i32)>,
    fog_memory: Map<(i32, i32, i32), TileMemory>,
    visibility: Option<VisibilitySnapshot>,
) -> bool {
    if !entity_mode {
        false
    } else {
        match visibility {
            None => fog_visible.len() != 0 || fog_memory.len() != 0,
            Some(v) => fog_visible.len() != v.visible@.len() || (exists|i: int|
                0 <= i < v.visible@.len() && !fog_visible.contains(#[trigger] v.visible@[i].key()))
                || fog_memory != v.memory@,
        }
    }
}

/// Whether two fog memories are the same.
fn same_memory(
    a: &BTreeMap<(i32, i32, i32), TileMemory>,
    b: &BTreeMap<(i32, i32, i32), TileMemory>,
) -> (r: bool)
    ensures
        r == (a@ == b@),
{
    let mut ok = true;
    let ghost mut done: Set<(i32, i32, i32)> = Set::empty();
    for k in it: a.keys()
        invariant
            forall|i: int| 0 <= i < it.seq().len() ==> a@.dom().contains(*#[trigger] it.seq()[i]),
            forall|q: (i32, i32, i32)| #[trigger] done.contains(q) ==> a@.contains_key(q),
            forall|q: (i32, i32, i32)| #[trigger]
                a@.contains_key(q) ==> done.contains(q) || exists|i: int| it.index() <= i < it.seq().len() && *it.seq()[i] == q,
            ok == forall|q: (i32, i32, i32)| #[trigger] done.contains(q) ==> b@.contains_key(q) && b@[q] == a@[q],
    {
        let ghost n = it.index();
        let in_b = match (b.get(k), a.get(k)) {
            (Some(vb), Some(va)) => *vb == *va,
            _ => false,
        };
        ok = ok && in_b;
        proof {
            done = done.insert(*k);
            assert forall|q: (i32, i32, i32)| #[trigger] a@.contains_key(q) implies done.contains(q) || exists|i: int| n + 1 <= i < it.seq().len() && *it.seq()[i] == q by {
                if !done.contains(q) {
                    let i = choose|i: int| n <= i < it.seq().len() && *it.seq()[i] == q;
                    assert(i != n);
                }
            }
        }
    }
    proof {
        assert(done =~= a@.dom());
    }
    let mut back = ok;
    let ghost mut done2: Set<(i32, i32, i32)> = Set::empty();
    for k in it2: b.keys()
        invariant
            forall|i: int| 0 <= i < it2.seq().len() ==> b@.dom().contains(*#[trigger] it2.seq()[i]),
            forall|q: (i32, i32, i32)| #[trigger] done2.contains(q) ==> b@.contains_key(q),
            forall|q: (i32, i32, i32)| #[trigger]
                b@.contains_key(q) ==> done2.contains(q) || exists|i: int| it2.index() <= i < it2.seq().len() && *it2.seq()[i] == q,
            back == (ok && forall|q: (i32, i32, i32)| #[trigger] done2.contains(q) ==> a@.contains_key(q)),
    {
        let ghost n = it2.index();
        back = back && a.contains_key(k);
        proof {
            done2 = done2.insert(*k);
            assert forall|q: (i32, i32, i32)| #[trigger] b@.contains_key(q) implies done2.contains(q) || exists|i: int| n + 1 <= i < it2.seq().len() && *it2.seq()[i] == q by {
                if !done2.contains(q) {
                    let i = choose|i: int| n <= i < it2.seq().len() && *it2.seq()[i] == q;
                    assert(i != n);
                }
            }
        }
    }
    proof {
        assert(done2 =~= b@.dom());
        if back {
            assert(a@ =~= b@);
        }
    }
    back
}

/// Whether the snapshot's visibility differs from the held fog.
pub fn snapshot_visibility_changed(entity_mode: bool, fog: &FogData, visibility: Option<&VisibilitySnapshot>) -> (r: bool)
    ensures
        r == visibility_changed_spec(
            entity_mode,
            fog.visible@,
            fog.memory@,
            match visibility {
                Some(v) => Some(*v),
                None => None,
            },
        ),
{
    if !entity_mode {
        return false;
    }
    match visibility {
        None => fog.visible.len() != 0 || fog.memory.len() != 0,
        Some(v) => {
            if fog.visible.len() != v.visible.len() {
                return true;
            }
            let n = v.visible.len();
            let mut i: usize = 0;
            while i < n
                invariant
                    entity_mode,
                    visibility == Some(v),
                    fog.visible@.len() == v.visible@.len(),
                    n == v.visible@.len(),
                    i <= n,
                    forall|j: int| 0 <= j < i ==> fog.visible@.contains(#[trigger] v.visible@[j].key()),
                decreases n - i,
            {
                let p = v.visible[i];
                if !fog.visible.contains(&(p.x, p.y, p.z)) {
                    proof {
                        assert(v.visible@[i as int].key() == (p.x, p.y, p.z));
                    }
                    return true;
                }
                i = i + 1;
            }
            !same_memory(&fog.memory, &v.memory)
        },
    }
}


/// Every position seen or remembered.
pub open spec fn all_positions(visible: Set<(i32, i32, i32)>, memory: Map<(i32, i32, i32), TileMemory>) -> Set<(i32, i32, i32)> {
    visible.union(memory.dom())
}

/// The block entity mode draws at `p`: the terrain where it is seen (air
/// where the terrain has none), the remembered block elsewhere.
pub open spec fn expected_block(
    visible: Set<(i32, i32, i32)>,
    memory: Map<(i32, i32, i32), TileMemory>,
    source: Map<(i32, i32, i32), BlockType>,
    p: (i32, i32, i32),
) -> BlockType {
    if visible.contains(p) {
        if source.contains_key(p) {
            source[p]
        } else {
            BlockType::Air
        }
    } else {
        memory[p].block
    }
}

/// Position `p` of the new view must be (re)drawn: it is new, it is seen
/// on replaced terrain, or its drawn block is not the expected one.
pub open spec fn refreshed(
    prev_all: Set<(i32, i32, i32)>,
    visible: Set<(i32, i32, i32)>,
    memory: Map<(i32, i32, i32), TileMemory>,
    source: Map<(i32, i32, i32), BlockType>,
    blocks: Map<(i32, i32, i32), BlockType>,
    terrain_changed: bool,
    p: (i32, i32, i32),
) -> bool {
    &&& all_positions(visible, memory).contains(p)
    &&& (!prev_all.contains(p) || (terrain_changed && visible.contains(p)) || !blocks.contains_key(p)
        || blocks[p] != expected_block(visible, memory, source, p))
}

/// What the viewer knows of `p` changed: seen then and not now (or the
/// reverse), or its memory changed.
pub open spec fn fog_touched(
    prev_visible: Set<(i32, i32, i32)>,
    prev_memory: Map<(i32, i32, i32), TileMemory>,
    visible: Set<(i32, i32, i32)>,
    memory: Map<(i32, i32, i32), TileMemory>,
    p: (i32, i32, i32),
) -> bool {
    ||| prev_visible.contains(p) != visible.contains(p)
    ||| prev_memory.contains_key(p) != memory.contains_key(p)
    ||| (prev_memory.contains_key(p) && memory.contains_key(p) && prev_memory[p] != memory[p])
}

/// Voxels well inside the range of `i32` (neighbours and the level below
/// stay representable).
pub open spec fn positions_ok(s: Set<(i32, i32, i32)>) -> bool {
    forall|p: (i32, i32, i32)| #[trigger] s.contains(p) ==> i32::MIN < p.0 < i32::MAX && i32::MIN < p.1 < i32::MAX && i32::MIN < p.2
}

/// The dirty entries block changes at the positions `touched` selects mark.
pub open spec fn block_marks(
    touched: Set<(i32, i32, i32)>,
    chunk_edge: u32,
    view_mode: ViewMode,
    layers: TileLayerDebugState,
) -> Set<(i32, i32, i32, u8)> {
    Set::new(
        |k: (i32, i32, i32, u8)|
            exists|p: (i32, i32, i32)| touched.contains(p) && #[trigger] block_change_marks(key_vec(p), chunk_edge, view_mode, layers).contains(k),
    )
}

/// The fog entries visibility changes at the positions `touched` selects mark.
pub open spec fn fog_marks(touched: Set<(i32, i32, i32)>, chunk_edge: u32) -> Set<(i32, i32, i32, u8)> {
    Set::new(
        |k: (i32, i32, i32, u8)|
            k.3 == 3 && exists|p: (i32, i32, i32)| touched.contains(p) && #[trigger] fog_change_cells(key_vec(p), chunk_edge).contains((k.0, k.1, k.2)),
    )
}

/// The chunk levels block changes at the positions `touched` selects touch.
pub open spec fn block_cells(touched: Set<(i32, i32, i32)>, chunk_edge: u32) -> Set<(i32, i32, i32)> {
    Set::new(
        |k: (i32, i32, i32)|
            exists|p: (i32, i32, i32)| touched.contains(p) && #[trigger] block_change_cells(key_vec(p), chunk_edge).contains(k),
    )
}

/// The chunk levels visibility changes at the positions `touched` selects touch.
pub open spec fn fog_cells(touched: Set<(i32, i32, i32)>, chunk_edge: u32) -> Set<(i32, i32, i32)> {
    Set::new(
        |k: (i32, i32, i32)|
            exists|p: (i32, i32, i32)| touched.contains(p) && #[trigger] fog_change_cells(key_vec(p), chunk_edge).contains(k),
    )
}

/// Geometry entries (not fog) of the given chunk levels.
pub open spec fn geometry_keys(cells: Set<(i32, i32, i32)>) -> Set<(i32, i32, i32, u8)> {
    Set::new(|k: (i32, i32, i32, u8)| k.3 < 3 && cells.contains((k.0, k.1, k.2)))
}

/// The keys of a memory, as a set.
fn memory_keys(m: &BTreeMap<(i32, i32, i32), TileMemory>) -> (r: BTreeSet<(i32, i32, i32)>)
    ensures
        r@ == m@.dom(),
{
    let mut out: BTreeSet<(i32, i32, i32)> = BTreeSet::new();
    let ghost mut done: Set<(i32, i32, i32)> = Set::empty();
    for k in it: m.keys()
        invariant
            forall|i: int| 0 <= i < it.seq().len() ==> m@.dom().contains(*#[trigger] it.seq()[i]),
            forall|q: (i32, i32, i32)| #[trigger] done.contains(q) ==> m@.contains_key(q),
            forall|q: (i32, i32, i32)| #[trigger]
                m@.contains_key(q) ==> done.contains(q) || exists|i: int| it.index() <= i < it.seq().len() && *it.seq()[i] == q,
            out@ == done,
    {
        let ghost n = it.index();
        out.insert(*k);
        proof {
            done = done.insert(*k);
            assert forall|q: (i32, i32, i32)| #[trigger] m@.contains_key(q) implies done.contains(q) || exists|i: int| n + 1 <= i < it.seq().len() && *it.seq()[i] == q by {
                if !done.contains(q) {
                    let i = choose|i: int| n <= i < it.seq().len() && *it.seq()[i] == q;
                    assert(i != n);
                }
            }
        }
    }
    proof {
        assert(done =~= m@.dom());
    }
    out
}

/// The positions of a visibility list, as a set.
fn listed_set(v: &Vec<Vec3i>) -> (r: BTreeSet<(i32, i32, i32)>)
    ensures
        r@ == listed(v@),
{
    let mut out: BTreeSet<(i32, i32, i32)> = BTreeSet::new();
    let n = v.len();
    let mut i: usize = 0;
    while i < n
        invariant
            n == v@.len(),
            i <= n,
            forall|k: (i32, i32, i32)| #[trigger] out@.contains(k) <==> exists|j: int| 0 <= j < i && #[trigger] v@[j].key() == k,
        decreases n - i,
    {
        let p = v[i];
        out.insert((p.x, p.y, p.z));
        proof {
            assert(v@[i as int].key() == (p.x, p.y, p.z));
        }
        i = i + 1;
    }
    proof {
        assert(out@ =~= listed(v@));
    }
    out
}


/// Adding one position to a set adds its marks.
proof fn lemma_block_marks_insert(
    s: Set<(i32, i32, i32)>,
    p: (i32, i32, i32),
    chunk_edge: u32,
    view_mode: ViewMode,
    layers: TileLayerDebugState,
)
    ensures
        block_marks(s.insert(p), chunk_edge, view_mode, layers) == block_marks(s, chunk_edge, view_mode, layers).union(
            block_change_marks(key_vec(p), chunk_edge, view_mode, layers),
        ),
        block_cells(s.insert(p), chunk_edge) == block_cells(s, chunk_edge).union(block_change_cells(key_vec(p), chunk_edge)),
        geometry_keys(block_cells(s.insert(p), chunk_edge)) == geometry_keys(block_cells(s, chunk_edge)).union(
            geometry_keys(block_change_cells(key_vec(p), chunk_edge)),
        ),
{
    let a = block_marks(s.insert(p), chunk_edge, view_mode, layers);
    let b = block_marks(s, chunk_edge, view_mode, layers).union(block_change_marks(key_vec(p), chunk_edge, view_mode, layers));
    assert forall|k: (i32, i32, i32, u8)| a.contains(k) <==> b.contains(k) by {
        if a.contains(k) {
            let q = choose|q: (i32, i32, i32)| s.insert(p).contains(q) && #[trigger] block_change_marks(key_vec(q), chunk_edge, view_mode, layers).contains(k);
            if q != p {
                assert(s.contains(q));
            }
        }
        if block_change_marks(key_vec(p), chunk_edge, view_mode, layers).contains(k) {
            assert(s.insert(p).contains(p));
        }
    }
    assert(a =~= b);
    let c = block_cells(s.insert(p), chunk_edge);
    let d = block_cells(s, chunk_edge).union(block_change_cells(key_vec(p), chunk_edge));
    assert forall|k: (i32, i32, i32)| c.contains(k) <==> d.contains(k) by {
        if c.contains(k) {
            let q = choose|q: (i32, i32, i32)| s.insert(p).contains(q) && #[trigger] block_change_cells(key_vec(q), chunk_edge).contains(k);
            if q != p {
                assert(s.contains(q));
            }
        }
        if block_change_cells(key_vec(p), chunk_edge).contains(k) {
            assert(s.insert(p).contains(p));
        }
    }
    assert(c =~= d);
    assert(geometry_keys(c) =~= geometry_keys(block_cells(s, chunk_edge)).union(geometry_keys(block_change_cells(key_vec(p), chunk_edge))));
}

/// Adding one position to a set adds its fog marks and cells.
proof fn lemma_fog_marks_insert(s: Set<(i32, i32, i32)>, p: (i32, i32, i32), chunk_edge: u32)
    ensures
        fog_marks(s.insert(p), chunk_edge) == fog_marks(s, chunk_edge).union(
            Set::new(|k: (i32, i32, i32, u8)| k.3 == 3 && fog_change_cells(key_vec(p), chunk_edge).contains((k.0, k.1, k.2))),
        ),
        fog_cells(s.insert(p), chunk_edge) == fog_cells(s, chunk_edge).union(fog_change_cells(key_vec(p), chunk_edge)),
{
    let a = fog_marks(s.insert(p), chunk_edge);
    let b = fog_marks(s, chunk_edge).union(
        Set::new(|k: (i32, i32, i32, u8)| k.3 == 3 && fog_change_cells(key_vec(p), chunk_edge).contains((k.0, k.1, k.2))),
    );
    assert forall|k: (i32, i32, i32, u8)| a.contains(k) <==> b.contains(k) by {
        if a.contains(k) {
            let q = choose|q: (i32, i32, i32)| s.insert(p).contains(q) && #[trigger] fog_change_cells(key_vec(q), chunk_edge).contains((k.0, k.1, k.2));
            if q != p {
                assert(s.contains(q));
            }
        }
        if k.3 == 3 && fog_change_cells(key_vec(p), chunk_edge).contains((k.0, k.1, k.2)) {
            assert(s.insert(p).contains(p));
        }
    }
    assert(a =~= b);
    let c = fog_cells(s.insert(p), chunk_edge);
    let d = fog_cells(s, chunk_edge).union(fog_change_cells(key_vec(p), chunk_edge));
    assert forall|k: (i32, i32, i32)| c.contains(k) <==> d.contains(k) by {
        if c.contains(k) {
            let q = choose|q: (i32, i32, i32)| s.insert(p).contains(q) && #[trigger] fog_change_cells(key_vec(q), chunk_edge).contains(k);
            if q != p {
                assert(s.contains(q));
            }
        }
        if fog_change_cells(key_vec(p), chunk_edge).contains(k) {
            assert(s.insert(p).contains(p));
        }
    }
    assert(c =~= d);
}

proof fn lemma_marks_empty(chunk_edge: u32, view_mode: ViewMode, layers: TileLayerDebugState)
    ensures
        block_marks(Set::empty(), chunk_edge, view_mode, layers) == Set::<(i32, i32, i32, u8)>::empty(),
        block_cells(Set::empty(), chunk_edge) == Set::<(i32, i32, i32)>::empty(),
        geometry_keys(Set::empty()) == Set::<(i32, i32, i32, u8)>::empty(),
        fog_marks(Set::empty(), chunk_edge) == Set::<(i32, i32, i32, u8)>::empty(),
        fog_cells(Set::empty(), chunk_edge) == Set::<(i32, i32, i32)>::empty(),
{
    assert(block_marks(Set::empty(), chunk_edge, view_mode, layers) =~= Set::<(i32, i32, i32, u8)>::empty());
    assert(block_cells(Set::empty(), chunk_edge) =~= Set::<(i32, i32, i32)>::empty());
    assert(geometry_keys(Set::empty()) =~= Set::<(i32, i32, i32, u8)>::empty());
    assert(fog_marks(Set::empty(), chunk_edge) =~= Set::<(i32, i32, i32, u8)>::empty());
    assert(fog_cells(Set::empty(), chunk_edge) =~= Set::<(i32, i32, i32)>::empty());
}


/// Forget the drawn blocks of the positions no longer seen or remembered,
/// invalidating what each touched.
fn forget_left_view(
    blocks: &mut TerrainBlocks,
    prev_all: &BTreeSet<(i32, i32, i32)>,
    new_all: &BTreeSet<(i32, i32, i32)>,
    chunk_edge: u32,
    view_mode: ViewMode,
    layers: &TileLayerDebugState,
    invalidation: &mut TilemapInvalidation,
    cache: &mut TileDataCache,
)
    requires
        1 <= chunk_edge <= i32::MAX,
        positions_ok(prev_all@),
    ensures
        final(blocks)@ == old(blocks)@.remove_keys(prev_all@.difference(new_all@)),
        final(invalidation)@ == (InvalidationModel {
            dirty: old(invalidation)@.dirty.union(block_marks(prev_all@.difference(new_all@), chunk_edge, view_mode, *layers)),
            ..old(invalidation)@
        }),
        final(cache).geometry@ == old(cache).geometry@.remove_keys(geometry_keys(block_cells(prev_all@.difference(new_all@), chunk_edge))),
        final(cache).fog@ == old(cache).fog@.remove_keys(block_cells(prev_all@.difference(new_all@), chunk_edge)),
{
    let ghost b0 = blocks@;
    let ghost i0 = invalidation@;
    let ghost g0 = cache.geometry@;
    let ghost f0 = cache.fog@;
    let ghost mut done: Set<(i32, i32, i32)> = Set::empty();
    let ghost mut gs: Set<(i32, i32, i32)> = Set::empty();
    proof {
        lemma_marks_empty(chunk_edge, view_mode, *layers);
        assert(blocks@ =~= b0.remove_keys(gs));
        assert(invalidation@.dirty =~= i0.dirty.union(block_marks(gs, chunk_edge, view_mode, *layers)));
        assert(cache.geometry@ =~= g0.remove_keys(geometry_keys(block_cells(gs, chunk_edge))));
        assert(cache.fog@ =~= f0.remove_keys(block_cells(gs, chunk_edge)));
    }
    for p in it: prev_all.iter()
        invariant
            1 <= chunk_edge <= i32::MAX,
            positions_ok(prev_all@),
            forall|i: int| 0 <= i < it.seq().len() ==> prev_all@.contains(*#[trigger] it.seq()[i]),
            forall|q: (i32, i32, i32)| #[trigger] done.contains(q) ==> prev_all@.contains(q),
            forall|q: (i32, i32, i32)| #[trigger]
                prev_all@.contains(q) ==> done.contains(q) || exists|i: int| it.index() <= i < it.seq().len() && *it.seq()[i] == q,
            gs == done.difference(new_all@),
            blocks@ == b0.remove_keys(gs),
            invalidation@ == (InvalidationModel { dirty: i0.dirty.union(block_marks(gs, chunk_edge, view_mode, *layers)), ..i0 }),
            cache.geometry@ == g0.remove_keys(geometry_keys(block_cells(gs, chunk_edge))),
            cache.fog@ == f0.remove_keys(block_cells(gs, chunk_edge)),
    {
        let c = *p;
        let ghost n = it.index();
        proof {
            assert(prev_all@.contains(c));
        }
        if !new_all.contains(&c) {
            let v = Vec3i { x: c.0, y: c.1, z: c.2 };
            proof {
                assert(v == key_vec(c));
            }
            let ghost gm = cache.geometry@;
            let ghost fm = cache.fog@;
            blocks.remove(&c);
            cache.invalidate_block(v, chunk_edge);
            invalidation.mark_block_change(v, chunk_edge, view_mode, layers);
            proof {
                lemma_block_marks_insert(gs, c, chunk_edge, view_mode, *layers);
                let g2 = gs.insert(c);
                assert(blocks@ =~= b0.remove_keys(g2));
                assert(invalidation@.dirty =~= i0.dirty.union(block_marks(g2, chunk_edge, view_mode, *layers)));
                assert(cache.geometry@ =~= g0.remove_keys(geometry_keys(block_cells(g2, chunk_edge))));
                assert(cache.fog@ =~= f0.remove_keys(block_cells(g2, chunk_edge)));
                gs = g2;
            }
        }
        proof {
            done = done.insert(c);
            assert(gs =~= done.difference(new_all@));
            assert forall|q: (i32, i32, i32)| #[trigger] prev_all@.contains(q) implies done.contains(q) || exists|i: int| n + 1 <= i < it.seq().len() && *it.seq()[i] == q by {
                if !done.contains(q) {
                    let i = choose|i: int| n <= i < it.seq().len() && *it.seq()[i] == q;
                    assert(i != n);
                }
            }
        }
    }
    proof {
        assert(done =~= prev_all@);
    }
}


/// The positions of the new view whose drawn block must be (re)set.
pub open spec fn refreshed_set(
    prev_all: Set<(i32, i32, i32)>,
    visible: Set<(i32, i32, i32)>,
    memory: Map<(i32, i32, i32), TileMemory>,
    source: Map<(i32, i32, i32), BlockType>,
    blocks: Map<(i32, i32, i32), BlockType>,
    terrain_changed: bool,
) -> Set<(i32, i32, i32)> {
    Set::new(|p: (i32, i32, i32)| refreshed(prev_all, visible, memory, source, blocks, terrain_changed, p))
}

/// Draw the expected block at every position of the new view that needs
/// it, invalidating what each touched.
fn refresh_blocks(
    blocks: &mut TerrainBlocks,
    prev_all: &BTreeSet<(i32, i32, i32)>,
    new_visible: &BTreeSet<(i32, i32, i32)>,
    new_memory: &BTreeMap<(i32, i32, i32), TileMemory>,
    new_all: &BTreeSet<(i32, i32, i32)>,
    source: &TerrainBlocks,
    terrain_changed: bool,
    chunk_edge: u32,
    view_mode: ViewMode,
    layers: &TileLayerDebugState,
    invalidation: &mut TilemapInvalidation,
    cache: &mut TileDataCache,
)
    requires
        1 <= chunk_edge <= i32::MAX,
        positions_ok(new_all@),
        new_all@ == all_positions(new_visible@, new_memory@),
    ensures
        forall|p: (i32, i32, i32)| #[trigger]
            final(blocks)@.contains_key(p) <==> old(blocks)@.contains_key(p) || new_all@.contains(p),
        forall|p: (i32, i32, i32)| #[trigger]
            final(blocks)@.contains_key(p) ==> final(blocks)@[p] == if new_all@.contains(p) {
                expected_block(new_visible@, new_memory@, source@, p)
            } else {
                old(blocks)@[p]
            },
        final(invalidation)@ == (InvalidationModel {
            dirty: old(invalidation)@.dirty.union(
                block_marks(
                    refreshed_set(prev_all@, new_visible@, new_memory@, source@, old(blocks)@, terrain_changed),
                    chunk_edge,
                    view_mode,
                    *layers,
                ),
            ),
            ..old(invalidation)@
        }),
        final(cache).geometry@ == old(cache).geometry@.remove_keys(
            geometry_keys(
                block_cells(
                    refreshed_set(prev_all@, new_visible@, new_memory@, source@, old(blocks)@, terrain_changed),
                    chunk_edge,
                ),
            ),
        ),
        final(cache).fog@ == old(cache).fog@.remove_keys(
            block_cells(refreshed_set(prev_all@, new_visible@, new_memory@, source@, old(blocks)@, terrain_changed), chunk_edge),
        ),
{
    let ghost b0 = blocks@;
    let ghost i0 = invalidation@;
    let ghost g0 = cache.geometry@;
    let ghost f0 = cache.fog@;
    let ghost rset = refreshed_set(prev_all@, new_visible@, new_memory@, source@, b0, terrain_changed);
    let ghost mut done: Set<(i32, i32, i32)> = Set::empty();
    let ghost mut rs: Set<(i32, i32, i32)> = Set::empty();
    proof {
        lemma_marks_empty(chunk_edge, view_mode, *layers);
        assert(invalidation@.dirty =~= i0.dirty.union(block_marks(rs, chunk_edge, view_mode, *layers)));
        assert(cache.geometry@ =~= g0.remove_keys(geometry_keys(block_cells(rs, chunk_edge))));
        assert(cache.fog@ =~= f0.remove_keys(block_cells(rs, chunk_edge)));
    }
    for p in it: new_all.iter()
        invariant
            1 <= chunk_edge <= i32::MAX,
            positions_ok(new_all@),
            new_all@ == all_positions(new_visible@, new_memory@),
            rset == refreshed_set(prev_all@, new_visible@, new_memory@, source@, b0, terrain_changed),
            forall|i: int| 0 <= i < it.seq().len() ==> new_all@.contains(*#[trigger] it.seq()[i]),
            forall|q: (i32, i32, i32)| #[trigger] done.contains(q) ==> new_all@.contains(q),
            forall|q: (i32, i32, i32)| #[trigger]
                new_all@.contains(q) ==> done.contains(q) || exists|i: int| it.index() <= i < it.seq().len() && *it.seq()[i] == q,
            rs == done.intersect(rset),
            forall|i: int| it.index() <= i < it.seq().len() ==> !done.contains(*#[trigger] it.seq()[i]),
            forall|i: int, j: int| 0 <= i < j < it.seq().len() ==> crate::ordered::lex_lt(*it.seq()[i], *it.seq()[j]),
            forall|q: (i32, i32, i32)| #[trigger] blocks@.contains_key(q) <==> b0.contains_key(q) || done.contains(q),
            forall|q: (i32, i32, i32)| #[trigger]
                blocks@.contains_key(q) ==> blocks@[q] == if done.contains(q) {
                    expected_block(new_visible@, new_memory@, source@, q)
                } else {
                    b0[q]
                },
            invalidation@ == (InvalidationModel { dirty: i0.dirty.union(block_marks(rs, chunk_edge, view_mode, *layers)), ..i0 }),
            cache.geometry@ == g0.remove_keys(geometry_keys(block_cells(rs, chunk_edge))),
            cache.fog@ == f0.remove_keys(block_cells(rs, chunk_edge)),
    {
        let c = *p;
        let ghost n = it.index();
        proof {
            assert(new_all@.contains(c));
            assert(!done.contains(c));
        }
        let seen = new_visible.contains(&c);
        let expected = if seen {
            match source.get(&c) {
                Some(b) => *b,
                None => BlockType::Air,
            }
        } else {
            match new_memory.get(&c) {
                Some(m) => m.block,
                None => BlockType::Air,
            }
        };
        proof {
            assert(expected == expected_block(new_visible@, new_memory@, source@, c));
        }
        let drawn_differs = match blocks.get(&c) {
            Some(b) => *b != expected,
            None => true,
        };
        let refresh = !prev_all.contains(&c) || (terrain_changed && seen) || drawn_differs;
        proof {
            assert(refresh == refreshed(prev_all@, new_visible@, new_memory@, source@, b0, terrain_changed, c));
        }
        if refresh {
            let v = Vec3i { x: c.0, y: c.1, z: c.2 };
            proof {
                assert(v == key_vec(c));
            }
            blocks.insert(c, expected);
            cache.invalidate_block(v, chunk_edge);
            invalidation.mark_block_change(v, chunk_edge, view_mode, layers);
            proof {
                lemma_block_marks_insert(rs, c, chunk_edge, view_mode, *layers);
                let r2 = rs.insert(c);
                assert(invalidation@.dirty =~= i0.dirty.union(block_marks(r2, chunk_edge, view_mode, *layers)));
                assert(cache.geometry@ =~= g0.remove_keys(geometry_keys(block_cells(r2, chunk_edge))));
                assert(cache.fog@ =~= f0.remove_keys(block_cells(r2, chunk_edge)));
                rs = r2;
            }
        }
        proof {
            done = done.insert(c);
            assert(rs =~= done.intersect(rset));
            assert forall|i: int| n + 1 <= i < it.seq().len() implies !done.contains(*#[trigger] it.seq()[i]) by {
                assert(crate::ordered::lex_lt(*it.seq()[n], *it.seq()[i]));
            }
            assert forall|q: (i32, i32, i32)| #[trigger] new_all@.contains(q) implies done.contains(q) || exists|i: int| n + 1 <= i < it.seq().len() && *it.seq()[i] == q by {
                if !done.contains(q) {
                    let i = choose|i: int| n <= i < it.seq().len() && *it.seq()[i] == q;
                    assert(i != n);
                }
            }
        }
    }
    proof {
        assert(done =~= new_all@);
        assert(rs =~= rset);
    }
}


/// The positions of `all` whose visibility or memory changed.
pub open spec fn fog_touched_set(
    all: Set<(i32, i32, i32)>,
    prev_visible: Set<(i32, i32, i32)>,
    prev_memory: Map<(i32, i32, i32), TileMemory>,
    visible: Set<(i32, i32, i32)>,
    memory: Map<(i32, i32, i32), TileMemory>,
) -> Set<(i32, i32, i32)> {
    Set::new(|p: (i32, i32, i32)| all.contains(p) && fog_touched(prev_visible, prev_memory, visible, memory, p))
}

/// Invalidate the fog wherever what the viewer knows changed.
fn refresh_fog(
    all: &BTreeSet<(i32, i32, i32)>,
    prev_visible: &BTreeSet<(i32, i32, i32)>,
    prev_memory: &BTreeMap<(i32, i32, i32), TileMemory>,
    new_visible: &BTreeSet<(i32, i32, i32)>,
    new_memory: &BTreeMap<(i32, i32, i32), TileMemory>,
    chunk_edge: u32,
    invalidation: &mut TilemapInvalidation,
    cache: &mut TileDataCache,
)
    requires
        1 <= chunk_edge <= i32::MAX,
        positions_ok(all@),
    ensures
        final(invalidation)@ == (InvalidationModel {
            dirty: old(invalidation)@.dirty.union(
                fog_marks(fog_touched_set(all@, prev_visible@, prev_memory@, new_visible@, new_memory@), chunk_edge),
            ),
            ..old(invalidation)@
        }),
        final(cache).geometry@ == old(cache).geometry@,
        final(cache).fog@ == old(cache).fog@.remove_keys(
            fog_cells(fog_touched_set(all@, prev_visible@, prev_memory@, new_visible@, new_memory@), chunk_edge),
        ),
{
    let ghost i0 = invalidation@;
    let ghost f0 = cache.fog@;
    let ghost tset = fog_touched_set(all@, prev_visible@, prev_memory@, new_visible@, new_memory@);
    let ghost mut done: Set<(i32, i32, i32)> = Set::empty();
    let ghost mut ts: Set<(i32, i32, i32)> = Set::empty();
    proof {
        lemma_marks_empty(chunk_edge, ViewMode::Entity, TileLayerDebugState {
            show_floor: true,
            show_edge_shadow: true,
            show_ceiling_shadow: true,
            show_fog_shadow: true,
            show_depth_stack: true,
        });
        assert(invalidation@.dirty =~= i0.dirty.union(fog_marks(ts, chunk_edge)));
        assert(cache.fog@ =~= f0.remove_keys(fog_cells(ts, chunk_edge)));
    }
    for p in it: all.iter()
        invariant
            1 <= chunk_edge <= i32::MAX,
            positions_ok(all@),
            tset == fog_touched_set(all@, prev_visible@, prev_memory@, new_visible@, new_memory@),
            forall|i: int| 0 <= i < it.seq().len() ==> all@.contains(*#[trigger] it.seq()[i]),
            forall|q: (i32, i32, i32)| #[trigger] done.contains(q) ==> all@.contains(q),
            forall|q: (i32, i32, i32)| #[trigger]
                all@.contains(q) ==> done.contains(q) || exists|i: int| it.index() <= i < it.seq().len() && *it.seq()[i] == q,
            ts == done.intersect(tset),
            invalidation@ == (InvalidationModel { dirty: i0.dirty.union(fog_marks(ts, chunk_edge)), ..i0 }),
            cache.geometry@ == old(cache).geometry@,
            cache.fog@ == f0.remove_keys(fog_cells(ts, chunk_edge)),
    {
        let c = *p;
        let ghost n = it.index();
        proof {
            assert(all@.contains(c));
        }
        let memory_differs = match (prev_memory.get(&c), new_memory.get(&c)) {
            (Some(a), Some(b)) => *a != *b,
            (None, None) => false,
            _ => true,
        };
        let touched = prev_visible.contains(&c) != new_visible.contains(&c) || memory_differs;
        proof {
            assert(touched == fog_touched(prev_visible@, prev_memory@, new_visible@, new_memory@, c));
        }
        if touched {
            let v = Vec3i { x: c.0, y: c.1, z: c.2 };
            proof {
                assert(v == key_vec(c));
            }
            cache.invalidate_fog(v, chunk_edge);
            invalidation.mark_fog_change(v, chunk_edge);
            proof {
                lemma_fog_marks_insert(ts, c, chunk_edge);
                let t2 = ts.insert(c);
                assert(invalidation@.dirty =~= i0.dirty.union(fog_marks(t2, chunk_edge)));
                assert(cache.fog@ =~= f0.remove_keys(fog_cells(t2, chunk_edge)));
                ts = t2;
            }
        }
        proof {
            done = done.insert(c);
            assert(ts =~= done.intersect(tset));
            assert forall|q: (i32, i32, i32)| #[trigger] all@.contains(q) implies done.contains(q) || exists|i: int| n + 1 <= i < it.seq().len() && *it.seq()[i] == q by {
                if !done.contains(q) {
                    let i = choose|i: int| n <= i < it.seq().len() && *it.seq()[i] == q;
                    assert(i != n);
                }
            }
        }
    }
    proof {
        assert(done =~= all@);
        assert(ts =~= tset);
    }
}


/// How the renderer holds one reported entity.
pub open spec fn render_state(e: EntitySnapshot) -> RenderEntityState {
    RenderEntityState {
        position: e.position,
        facing_left: e.facing_left,
        is_prone: e.is_prone,
        movement: match e.movement {
            Some(m) => Some(
                RenderEntityMovementState {
                    start_bits: m.start_bits,
                    origin: m.origin,
                    target: m.target,
                    progress_percent: m.progress_percent,
                },
            ),
            None => None,
        },
    }
}

/// The reported entities by id (a later report of an id wins).
pub open spec fn entity_map(list: Seq<EntitySnapshot>) -> Map<u64, RenderEntityState>
    decreases list.len(),
{
    if list.len() == 0 {
        Map::empty()
    } else {
        entity_map(list.drop_last()).insert(list.last().id, render_state(list.last()))
    }
}

/// The drawn blocks after a visibility change: what left the view is
/// forgotten, everything in the new view shows its expected block.
pub open spec fn blocks_after(
    blocks: Map<(i32, i32, i32), BlockType>,
    prev_all: Set<(i32, i32, i32)>,
    new_all: Set<(i32, i32, i32)>,
    visible: Set<(i32, i32, i32)>,
    memory: Map<(i32, i32, i32), TileMemory>,
    source: Map<(i32, i32, i32), BlockType>,
) -> Map<(i32, i32, i32), BlockType> {
    Map::new(
        |p: (i32, i32, i32)| new_all.contains(p) || (blocks.contains_key(p) && !prev_all.contains(p)),
        |p: (i32, i32, i32)|
            if new_all.contains(p) {
                expected_block(visible, memory, source, p)
            } else {
                blocks[p]
            },
    )
}

/// Every layer shown of every visible chunk level.
pub open spec fn visible_layer_marks(viewport: RenderViewport, layers: TileLayerDebugState) -> Set<(i32, i32, i32, u8)> {
    Set::new(
        |k: (i32, i32, i32, u8)|
            viewport.visible_chunks_xy@.contains((k.0, k.1)) && viewport.visible_z_levels@.contains(k.2) && layer_marks(
                IVec2 { x: k.0, y: k.1 },
                k.2,
                ViewMode::Entity,
                layers,
            ).contains(k),
    )
}

fn render_state_of(e: &EntitySnapshot) -> (r: RenderEntityState)
    ensures
        r == render_state(*e),
{
    RenderEntityState {
        position: e.position,
        facing_left: e.facing_left,
        is_prone: e.is_prone,
        movement: match e.movement {
            Some(m) => Some(
                RenderEntityMovementState {
                    start_bits: m.start_bits,
                    origin: m.origin,
                    target: m.target,
                    progress_percent: m.progress_percent,
                },
            ),
            None => None,
        },
    }
}

fn build_entity_map(list: &Vec<EntitySnapshot>) -> (r: BTreeMap<u64, RenderEntityState>)
    ensures
        r@ == entity_map(list@),
{
    let mut out: BTreeMap<u64, RenderEntityState> = BTreeMap::new();
    let n = list.len();
    let mut i: usize = 0;
    while i < n
        invariant
            n == list@.len(),
            i <= n,
            out@ == entity_map(list@.subrange(0, i as int)),
        decreases n - i,
    {
        let e = &list[i];
        out.insert(e.id, render_state_of(e));
        proof {
            let s = list@.subrange(0, i as int + 1);
            assert(s.drop_last() =~= list@.subrange(0, i as int));
            assert(s.last() == list@[i as int]);
        }
        i = i + 1;
    }
    proof {
        assert(list@.subrange(0, n as int) =~= list@);
    }
    out
}

/// Refreshing at a position of the new view does not depend on whether the
/// positions that left were forgotten first.
proof fn lemma_refreshed_ignores_left(
    prev_all: Set<(i32, i32, i32)>,
    new_all: Set<(i32, i32, i32)>,
    visible: Set<(i32, i32, i32)>,
    memory: Map<(i32, i32, i32), TileMemory>,
    source: Map<(i32, i32, i32), BlockType>,
    blocks: Map<(i32, i32, i32), BlockType>,
    terrain_changed: bool,
)
    requires
        new_all == all_positions(visible, memory),
    ensures
        refreshed_set(prev_all, visible, memory, source, blocks.remove_keys(prev_all.difference(new_all)), terrain_changed)
            == refreshed_set(prev_all, visible, memory, source, blocks, terrain_changed),
{
    assert(refreshed_set(prev_all, visible, memory, source, blocks.remove_keys(prev_all.difference(new_all)), terrain_changed)
        =~= refreshed_set(prev_all, visible, memory, source, blocks, terrain_changed));
}

/// Take in a world snapshot: tick, chunk layout and entities; the terrain
/// when it was replaced; and, in entity mode, the reported visibility. When
/// what is seen or remembered changed (or the terrain did), the drawn
/// blocks follow it: positions that left the view are forgotten, positions
/// of the view that are new, seen on replaced terrain or drawn wrong get
/// their expected block, and every touched chunk level is invalidated
/// (fog levels wherever visibility or memory changed). Without a report the
/// drawn terrain and fog are cleared. Master mode draws the full terrain
/// and only invalidates the view when the terrain changed.
pub fn apply_snapshot(
    view_mode: ViewMode,
    config: &mut TerrainConfig,
    terrain: &mut TerrainData,
    entities: &mut RenderEntityData,
    fog: &mut FogData,
    snapshot: &SimSnapshot,
    new_source: Option<TerrainBlocks>,
    viewport: &RenderViewport,
    layers: &TileLayerDebugState,
    invalidation: &mut TilemapInvalidation,
    tile_cache: &mut TileDataCache,
)
    requires
        view_mode == ViewMode::Entity && snapshot.visibility is Some ==> {
            let v = snapshot.visibility.unwrap();
            &&& 1 <= snapshot.chunk_edge <= i32::MAX
            &&& positions_ok(all_positions(old(fog).visible@, old(fog).memory@))
            &&& positions_ok(all_positions(listed(v.visible@), v.memory@))
        },
    ensures
        ({
            let terrain_changed = old(config).chunk_edge != snapshot.chunk_edge || old(config).world_chunks
                != snapshot.world_chunks || new_source is Some;
            let source = match new_source {
                Some(s) => s@,
                None => old(terrain).source_blocks@,
            };
            let b0 = old(terrain).blocks@;
            let i0 = old(invalidation)@;
            &&& *final(config) == (TerrainConfig { chunk_edge: snapshot.chunk_edge, world_chunks: snapshot.world_chunks })
            &&& final(terrain).source_blocks@ == source
            &&& final(entities).tick == snapshot.tick
            &&& final(entities).entities@ == entity_map(snapshot.entities@)
            &&& final(entities).dirty
            &&& final(fog).dirty == old(fog).dirty
            &&& if view_mode == ViewMode::Entity {
                match snapshot.visibility {
                    Some(v) => {
                        let nv = listed(v.visible@);
                        let nm = v.memory@;
                        let prev_all = all_positions(old(fog).visible@, old(fog).memory@);
                        let new_all = all_positions(nv, nm);
                        let gone = prev_all.difference(new_all);
                        let rs = refreshed_set(prev_all, nv, nm, source, b0, terrain_changed);
                        let ts = fog_touched_set(prev_all.union(new_all), old(fog).visible@, old(fog).memory@, nv, nm);
                        let e = snapshot.chunk_edge;
                        if old(fog).visible@ != nv || old(fog).memory@ != nm || terrain_changed {
                            &&& final(fog).visible@ == nv
                            &&& final(fog).memory@ == nm
                            &&& final(terrain).blocks@ == blocks_after(b0, prev_all, new_all, nv, nm, source)
                            &&& final(invalidation)@ == (InvalidationModel {
                                dirty: i0.dirty.union(block_marks(gone, e, view_mode, *layers)).union(
                                    block_marks(rs, e, view_mode, *layers),
                                ).union(fog_marks(ts, e)),
                                ..i0
                            })
                            &&& final(tile_cache).geometry@ == old(tile_cache).geometry@.remove_keys(
                                geometry_keys(block_cells(gone, e)),
                            ).remove_keys(geometry_keys(block_cells(rs, e)))
                            &&& final(tile_cache).fog@ == old(tile_cache).fog@.remove_keys(block_cells(gone, e)).remove_keys(
                                block_cells(rs, e),
                            ).remove_keys(fog_cells(ts, e))
                        } else {
                            &&& final(fog).visible@ == old(fog).visible@
                            &&& final(fog).memory@ == old(fog).memory@
                            &&& final(terrain).blocks@ == b0
                            &&& final(invalidation)@ == i0
                            &&& final(tile_cache).geometry@ == old(tile_cache).geometry@
                            &&& final(tile_cache).fog@ == old(tile_cache).fog@
                        }
                    },
                    None => {
                        &&& final(tile_cache).geometry@ == old(tile_cache).geometry@
                        &&& final(tile_cache).fog@ == old(tile_cache).fog@
                        &&& if terrain_changed || old(fog).visible@.len() != 0 || old(fog).memory@.len() != 0 {
                            &&& final(fog).visible@ == Set::<(i32, i32, i32)>::empty()
                            &&& final(fog).memory@ == Map::<(i32, i32, i32), TileMemory>::empty()
                            &&& final(terrain).blocks@ == Map::<(i32, i32, i32), BlockType>::empty()
                            &&& final(invalidation)@ == (InvalidationModel {
                                dirty: i0.dirty.union(visible_layer_marks(*viewport, *layers)),
                                ..i0
                            })
                        } else {
                            &&& final(fog).visible@ == old(fog).visible@
                            &&& final(fog).memory@ == old(fog).memory@
                            &&& final(terrain).blocks@ == b0
                            &&& final(invalidation)@ == i0
                        }
                    },
                }
            } else {
                &&& final(fog).visible@ == old(fog).visible@
                &&& final(fog).memory@ == old(fog).memory@
                &&& final(terrain).blocks@ == b0
                &&& final(tile_cache).geometry@ == old(tile_cache).geometry@
                &&& final(tile_cache).fog@ == old(tile_cache).fog@
                &&& final(invalidation)@ == if terrain_changed {
                    InvalidationModel { dirty: i0.dirty.union(visible_layer_marks(*viewport, *layers)), ..i0 }
                } else {
                    i0
                }
            }
        }),
{
    let terrain_changed = config.chunk_edge != snapshot.chunk_edge || config.world_chunks.x != snapshot.world_chunks.x
        || config.world_chunks.y != snapshot.world_chunks.y || config.world_chunks.z != snapshot.world_chunks.z
        || new_source.is_some();
    entities.tick = snapshot.tick;
    config.chunk_edge = snapshot.chunk_edge;
    config.world_chunks = snapshot.world_chunks;
    if let Some(src) = new_source {
        terrain.source_blocks = src;
    }
    entities.entities = build_entity_map(&snapshot.entities);
    if view_mode == ViewMode::Entity {
        match &snapshot.visibility {
            Some(vis) => {
                let new_visible = listed_set(&vis.visible);
                let new_memory = vis.memory.clone();
                let same_visible = subset_of(&new_visible, &fog.visible) && subset_of(&fog.visible, &new_visible);
                let changed = !same_visible || !same_memory(&fog.memory, &new_memory);
                proof {
                    if same_visible {
                        assert(new_visible@ =~= fog.visible@);
                    }
                }
                if changed || terrain_changed {
                    let prev_visible = fog.visible.clone();
                    let prev_memory = fog.memory.clone();
                    fog.visible = new_visible.clone();
                    fog.memory = new_memory.clone();
                    let mut prev_all = prev_visible.clone();
                    let prev_keys = memory_keys(&prev_memory);
                    crate::render::union_into(&mut prev_all, &prev_keys);
                    let mut new_all = new_visible.clone();
                    let new_keys = memory_keys(&new_memory);
                    crate::render::union_into(&mut new_all, &new_keys);
                    let e = snapshot.chunk_edge;
                    let ghost b0 = terrain.blocks@;
                    forget_left_view(&mut terrain.blocks, &prev_all, &new_all, e, view_mode, layers, invalidation, tile_cache);
                    proof {
                        lemma_refreshed_ignores_left(prev_all@, new_all@, new_visible@, new_memory@, terrain.source_blocks@, b0, terrain_changed);
                    }
                    refresh_blocks(
                        &mut terrain.blocks,
                        &prev_all,
                        &new_visible,
                        &new_memory,
                        &new_all,
                        &terrain.source_blocks,
                        terrain_changed,
                        e,
                        view_mode,
                        layers,
                        invalidation,
                        tile_cache,
                    );
                    let mut all = prev_all.clone();
                    crate::render::union_into(&mut all, &new_all);
                    refresh_fog(&all, &prev_visible, &prev_memory, &new_visible, &new_memory, e, invalidation, tile_cache);
                    proof {
                        assert(terrain.blocks@ =~= blocks_after(b0, prev_all@, new_all@, new_visible@, new_memory@, terrain.source_blocks@));
                    }
                }
            },
            None => {
                if terrain_changed || fog.visible.len() != 0 || fog.memory.len() != 0 {
                    fog.visible.clear();
                    fog.memory.clear();
                    terrain.blocks.clear();
                    invalidation.mark_all_visible_layers(viewport, layers);
                    proof {
                        assert(invalidation@.dirty =~= old(invalidation)@.dirty.union(visible_layer_marks(*viewport, *layers)));
                    }
                }
            },
        }
    } else if terrain_changed {
        invalidation.mark_all_visible_layers(viewport, layers);
        proof {
            assert(invalidation@.dirty =~= old(invalidation)@.dirty.union(visible_layer_marks(*viewport, *layers)));
        }
    }
    entities.dirty = true;
}

/// Whether every member of `a` is in `b`.
fn subset_of(a: &BTreeSet<(i32, i32, i32)>, b: &BTreeSet<(i32, i32, i32)>) -> (r: bool)
    ensures
        r == a@.subset_of(b@),
{
    let mut ok = true;
    let ghost mut done: Set<(i32, i32, i32)> = Set::empty();
    for k in it: a.iter()
        invariant
            forall|i: int| 0 <= i < it.seq().len() ==> a@.contains(*#[trigger] it.seq()[i]),
            forall|q: (i32, i32, i32)| #[trigger] done.contains(q) ==> a@.contains(q),
            forall|q: (i32, i32, i32)| #[trigger]
                a@.contains(q) ==> done.contains(q) || exists|i: int| it.index() <= i < it.seq().len() && *it.seq()[i] == q,
            ok == done.subset_of(b@),
    {
        let ghost n = it.index();
        ok = ok && b.contains(k);
        proof {
            done = done.insert(*k);
            assert forall|q: (i32, i32, i32)| #[trigger] a@.contains(q) implies done.contains(q) || exists|i: int| n + 1 <= i < it.seq().len() && *it.seq()[i] == q by {
                if !done.contains(q) {
                    let i = choose|i: int| n <= i < it.seq().len() && *it.seq()[i] == q;
                    assert(i != n);
                }
            }
        }
    }
    proof {
        assert(done =~= a@);
    }
    ok
}


/// An entity that moved since the last update.
#[derive(Debug, Clone, Copy, PartialEq, Eq, Structural)]
pub struct EntityMoved {
    pub id: u64,
    pub to: Vec3i,
    pub facing_left_after: bool,
    pub is_prone_after: bool,
    pub movement_after: Option<crate::world_state::EntityMovementSnapshot>,
}

/// One changed block.
#[derive(Debug, Clone, Copy, PartialEq, Eq, Structural)]
pub struct BlockChange {
    pub position: Vec3i,
    pub to: BlockType,
}

/// What changed since the last update.
#[derive(Debug, Clone)]
pub struct WorldDelta {
    pub tick: u64,
    pub moved_entities: Vec<EntityMoved>,
    pub block_changes: Vec<BlockChange>,
}

/// How the renderer holds an entity after a move.
pub open spec fn moved_state(m: EntityMoved) -> RenderEntityState {
    RenderEntityState {
        position: m.to,
        facing_left: m.facing_left_after,
        is_prone: m.is_prone_after,
        movement: match m.movement_after {
            Some(mv) => Some(
                RenderEntityMovementState {
                    start_bits: mv.start_bits,
                    origin: mv.origin,
                    target: mv.target,
                    progress_percent: mv.progress_percent,
                },
            ),
            None => None,
        },
    }
}

/// The entity map after the first `n` moves.
pub open spec fn entities_after_moves(
    entities: Map<u64, RenderEntityState>,
    moves: Seq<EntityMoved>,
    n: int,
) -> Map<u64, RenderEntityState>
    decreases n,
{
    if n <= 0 {
        entities
    } else {
        entities_after_moves(entities, moves, n - 1).insert(moves[n - 1].id, moved_state(moves[n - 1]))
    }
}

/// The terrain after the first `n` block changes: solid blocks are stored,
/// air is the absence of a block.
pub open spec fn source_after_changes(
    source: Map<(i32, i32, i32), BlockType>,
    changes: Seq<BlockChange>,
    n: int,
) -> Map<(i32, i32, i32), BlockType>
    decreases n,
{
    if n <= 0 {
        source
    } else {
        let prev = source_after_changes(source, changes, n - 1);
        let c = changes[n - 1];
        match c.to {
            BlockType::SolidStone => prev.insert(c.position.key(), c.to),
            BlockType::Air => prev.remove(c.position.key()),
        }
    }
}

/// The drawn blocks after the first `n` block changes: a drawn block
/// becomes solid, air removes it; undrawn positions stay undrawn.
pub open spec fn drawn_after_changes(
    blocks: Map<(i32, i32, i32), BlockType>,
    changes: Seq<BlockChange>,
    n: int,
) -> Map<(i32, i32, i32), BlockType>
    decreases n,
{
    if n <= 0 {
        blocks
    } else {
        let prev = drawn_after_changes(blocks, changes, n - 1);
        let c = changes[n - 1];
        match c.to {
            BlockType::SolidStone => if prev.contains_key(c.position.key()) {
                prev.insert(c.position.key(), c.to)
            } else {
                prev
            },
            BlockType::Air => prev.remove(c.position.key()),
        }
    }
}

/// The positions of the first `n` block changes.
pub open spec fn changed_positions(changes: Seq<BlockChange>, n: int) -> Set<(i32, i32, i32)> {
    Set::new(|p: (i32, i32, i32)| exists|i: int| 0 <= i < n && #[trigger] changes[i].position.key() == p)
}

/// Apply a world delta: the tick, the entities that moved, and the block
/// changes (to the terrain, to the drawn blocks, invalidating what each
/// touched).
pub fn apply_delta(
    view_mode: ViewMode,
    config: &TerrainConfig,
    terrain: &mut TerrainData,
    entities: &mut RenderEntityData,
    delta: &WorldDelta,
    layers: &TileLayerDebugState,
    invalidation: &mut TilemapInvalidation,
    tile_cache: &mut TileDataCache,
)
    requires
        delta.block_changes@.len() > 0 ==> 1 <= config.chunk_edge <= i32::MAX,
        positions_ok(changed_positions(delta.block_changes@, delta.block_changes@.len() as int)),
    ensures
        final(entities).tick == delta.tick,
        final(entities).entities@ == entities_after_moves(
            old(entities).entities@,
            delta.moved_entities@,
            delta.moved_entities@.len() as int,
        ),
        final(entities).dirty,
        final(terrain).source_blocks@ == source_after_changes(
            old(terrain).source_blocks@,
            delta.block_changes@,
            delta.block_changes@.len() as int,
        ),
        final(terrain).blocks@ == drawn_after_changes(
            old(terrain).blocks@,
            delta.block_changes@,
            delta.block_changes@.len() as int,
        ),
        ({
            let touched = changed_positions(delta.block_changes@, delta.block_changes@.len() as int);
            &&& final(invalidation)@ == (InvalidationModel {
                dirty: old(invalidation)@.dirty.union(block_marks(touched, config.chunk_edge, view_mode, *layers)),
                ..old(invalidation)@
            })
            &&& final(tile_cache).geometry@ == old(tile_cache).geometry@.remove_keys(
                geometry_keys(block_cells(touched, config.chunk_edge)),
            )
            &&& final(tile_cache).fog@ == old(tile_cache).fog@.remove_keys(block_cells(touched, config.chunk_edge))
        }),
{
    entities.tick = delta.tick;
    let nm = delta.moved_entities.len();
    let mut i: usize = 0;
    while i < nm
        invariant
            nm == delta.moved_entities@.len(),
            i <= nm,
            entities.entities@ == entities_after_moves(old(entities).entities@, delta.moved_entities@, i as int),
            entities.tick == delta.tick,
        decreases nm - i,
    {
        let m = delta.moved_entities[i];
        let state = RenderEntityState {
            position: m.to,
            facing_left: m.facing_left_after,
            is_prone: m.is_prone_after,
            movement: match m.movement_after {
                Some(mv) => Some(
                    RenderEntityMovementState {
                        start_bits: mv.start_bits,
                        origin: mv.origin,
                        target: mv.target,
                        progress_percent: mv.progress_percent,
                    },
                ),
                None => None,
            },
        };
        entities.entities.insert(m.id, state);
        i = i + 1;
    }
    entities.dirty = true;
    let ghost i0 = invalidation@;
    let ghost g0 = tile_cache.geometry@;
    let ghost f0 = tile_cache.fog@;
    let ghost changes = delta.block_changes@;
    proof {
        lemma_marks_empty(config.chunk_edge, view_mode, *layers);
        assert(changed_positions(changes, 0) =~= Set::empty());
        assert(invalidation@.dirty =~= i0.dirty.union(block_marks(changed_positions(changes, 0), config.chunk_edge, view_mode, *layers)));
        assert(tile_cache.geometry@ =~= g0.remove_keys(geometry_keys(block_cells(changed_positions(changes, 0), config.chunk_edge))));
        assert(tile_cache.fog@ =~= f0.remove_keys(block_cells(changed_positions(changes, 0), config.chunk_edge)));
    }
    let nc = delta.block_changes.len();
    let mut j: usize = 0;
    while j < nc
        invariant
            nc == changes.len(),
            changes == delta.block_changes@,
            j <= nc,
            nc > 0 ==> 1 <= config.chunk_edge <= i32::MAX,
            entities.tick == delta.tick,
            entities.dirty,
            entities.entities@ == entities_after_moves(
                old(entities).entities@,
                delta.moved_entities@,
                delta.moved_entities@.len() as int,
            ),
            positions_ok(changed_positions(changes, nc as int)),
            terrain.source_blocks@ == source_after_changes(old(terrain).source_blocks@, changes, j as int),
            terrain.blocks@ == drawn_after_changes(old(terrain).blocks@, changes, j as int),
            invalidation@ == (InvalidationModel {
                dirty: i0.dirty.union(block_marks(changed_positions(changes, j as int), config.chunk_edge, view_mode, *layers)),
                ..i0
            }),
            tile_cache.geometry@ == g0.remove_keys(geometry_keys(block_cells(changed_positions(changes, j as int), config.chunk_edge))),
            tile_cache.fog@ == f0.remove_keys(block_cells(changed_positions(changes, j as int), config.chunk_edge)),
        decreases nc - j,
    {
        let change = delta.block_changes[j];
        let key = (change.position.x, change.position.y, change.position.z);
        match change.to {
            BlockType::SolidStone => {
                terrain.source_blocks.insert(key, change.to);
                if terrain.blocks.contains_key(&key) {
                    terrain.blocks.insert(key, change.to);
                }
            },
            BlockType::Air => {
                terrain.source_blocks.remove(&key);
                terrain.blocks.remove(&key);
            },
        }
        proof {
            assert(changed_positions(changes, nc as int).contains(key)) by {
                assert(changes[j as int].position.key() == key);
            }
            assert(change.position == key_vec(key));
        }
        tile_cache.invalidate_block(change.position, config.chunk_edge);
        invalidation.mark_block_change(change.position, config.chunk_edge, view_mode, layers);
        proof {
            let before = changed_positions(changes, j as int);
            let after = changed_positions(changes, j as int + 1);
            assert(after =~= before.insert(key)) by {
                assert(changes[j as int].position.key() == key);
            }
            lemma_block_marks_insert(before, key, config.chunk_edge, view_mode, *layers);
            assert(invalidation@.dirty =~= i0.dirty.union(block_marks(after, config.chunk_edge, view_mode, *layers)));
            assert(tile_cache.geometry@ =~= g0.remove_keys(geometry_keys(block_cells(after, config.chunk_edge))));
            assert(tile_cache.fog@ =~= f0.remove_keys(block_cells(after, config.chunk_edge)));
        }
        j = j + 1;
    }
}

/// Whether the rendered world must take in a new snapshot: never during
/// replay playback; otherwise when the tick, the chunk layout or the
/// visibility changed, or the view mode or level changed this frame.
pub fn snapshot_needs_apply(
    replay_active: bool,
    rendered_tick: u64,
    config: &TerrainConfig,
    snapshot: &SimSnapshot,
    visibility_changed: bool,
    view_mode_changed: bool,
    view_z_changed: bool,
) -> (r: bool)
    ensures
        r == (!replay_active && !(rendered_tick == snapshot.tick && config.chunk_edge == snapshot.chunk_edge
            && config.world_chunks == snapshot.world_chunks && !visibility_changed && !view_mode_changed
            && !view_z_changed)),
{
    if replay_active {
        return false;
    }
    let unchanged = rendered_tick == snapshot.tick && config.chunk_edge == snapshot.chunk_edge
        && config.world_chunks.x == snapshot.world_chunks.x && config.world_chunks.y == snapshot.world_chunks.y
        && config.world_chunks.z == snapshot.world_chunks.z && !visibility_changed && !view_mode_changed
        && !view_z_changed;
    !unchanged
}

} // verus!
