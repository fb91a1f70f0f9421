//! Which tilemap chunk layers exist and which are rebuilt each frame.

use std::collections::BTreeSet;
use vstd::prelude::*;
use vstd::std_specs::btree::group_btree_axioms;
use vstd::laws_cmp::group_laws_cmp;

use crate::coords::{IVec2, Z_LEVELS_BELOW_RENDERED, grid_fits, in_chunk_grid, all_world_chunk_coords, z_levels_to_render};
use crate::geometry::Vec3u;
use crate::invalidation::{TileLayer, TileLayerDebugState, TilemapInvalidation, ViewMode, layer_index, InvalidationModel};

verus! {

broadcast use {
    group_btree_axioms,
    group_laws_cmp,
    crate::ordered::lemma_member_of_pair_listing,
    crate::ordered::lemma_member_of_quad_listing,
    crate::ordered::lemma_member_of_listing,
    crate::ordered::lemma_increasing_quads_distinct,
};

/// Most chunk layers rebuilt in one frame.
pub const REBUILD_BUDGET_PER_FRAME: usize = 128;

/// The levels drawn: the depth stack below the view level, or the view
/// level alone.
pub open spec fn rendered_levels_spec(view_z: i32, show_depth_stack: bool) -> Seq<i32> {
    if show_depth_stack {
        Seq::new((Z_LEVELS_BELOW_RENDERED + 1) as nat, |k: int| (view_z - k) as i32)
    } else {
        seq![view_z]
    }
}

pub fn rendered_z_levels(view_z: i32, show_depth_stack: bool) -> (r: Vec<i32>)
    requires
        view_z - Z_LEVELS_BELOW_RENDERED >= i32::MIN,
    ensures
        r@ == rendered_levels_spec(view_z, show_depth_stack),
{
    if show_depth_stack {
        z_levels_to_render(view_z)
    } else {
        let mut v: Vec<i32> = Vec::new();
        v.push(view_z);
        proof {
            assert(v@ =~= seq![view_z]);
        }
        v
    }
}

/// Whether layer `layer` (by order key) of level `world_z` is drawn: the
/// debug menu shows it, ceiling shadows only at the view level, fog only
/// when following an entity.
pub open spec fn layer_shown_spec(layer: u8, world_z: i32, view_z: i32, entity_mode: bool, layers: TileLayerDebugState) -> bool {
    ||| (layer == 0 && layers.show_floor)
    ||| (layer == 1 && layers.show_edge_shadow)
    ||| (layer == 2 && layers.show_ceiling_shadow && world_z == view_z)
    ||| (layer == 3 && entity_mode && layers.show_fog_shadow)
}

pub fn layer_shown(layer: u8, world_z: i32, view_z: i32, entity_mode: bool, layers: &TileLayerDebugState) -> (r: bool)
    ensures
        r == layer_shown_spec(layer, world_z, view_z, entity_mode, *layers),
{
    (layer == 0 && layers.show_floor) || (layer == 1 && layers.show_edge_shadow) || (layer == 2
        && layers.show_ceiling_shadow && world_z == view_z) || (layer == 3 && entity_mode
        && layers.show_fog_shadow)
}

/// Chunk columns the client works on: every grid column during replay or
/// before streaming reported anything, otherwise the streamed-in columns.
pub open spec fn active_columns_spec(replay_active: bool, world_chunks: Vec3u, streamed: Option<Set<(i32, i32, i32)>>, c: (i32, i32)) -> bool {
    match streamed {
        Some(s) if !replay_active && !s.is_empty() => has_column(s, c),
        _ => grid_has_column(world_chunks, c),
    }
}

/// Some chunk of column `c` is in `s`.
pub open spec fn has_column(s: Set<(i32, i32, i32)>, c: (i32, i32)) -> bool {
    exists|z: i32| s.contains((c.0, c.1, z))
}

/// Column `c` is a column of the chunk grid.
pub open spec fn grid_has_column(world_chunks: Vec3u, c: (i32, i32)) -> bool {
    exists|z: i32| in_chunk_grid(world_chunks, (c.0, c.1, z))
}

pub fn active_chunks_xy(replay_active: bool, world_chunks: Vec3u, streamed: Option<&BTreeSet<(i32, i32, i32)>>) -> (r: BTreeSet<(i32, i32)>)
    requires
        grid_fits(world_chunks),
    ensures
        forall|c: (i32, i32)| r@.contains(c) <==> active_columns_spec(replay_active, world_chunks, match streamed {
            Some(s) => Some(s@),
            None => None,
        }, c),
{
    let source: BTreeSet<(i32, i32, i32)> = match streamed {
        Some(s) => {
            if !replay_active && !s.is_empty() {
                s.clone()
            } else {
                all_world_chunk_coords(world_chunks)
            }
        },
        None => all_world_chunk_coords(world_chunks),
    };
    let ghost src = source@;
    let ghost sp = match streamed {
        Some(s) => Some(s@),
        None => None,
    };
    let ghost use_streamed = match sp {
        Some(st) => !replay_active && !st.is_empty(),
        None => false,
    };
    proof {
        if use_streamed {
            assert(src == sp->Some_0);
        } else {
            assert(forall|k: (i32, i32, i32)| src.contains(k) <==> in_chunk_grid(world_chunks, k));
        }
    }
    let mut out: BTreeSet<(i32, i32)> = BTreeSet::new();
    for c in it: source.iter()
        invariant
            src == source@,
            forall|i: int| 0 <= i < it.seq().len() ==> src.contains(*#[trigger] it.seq()[i]),
            forall|k: (i32, i32, i32)| #[trigger]
                src.contains(k) ==> exists|i: int| 0 <= i < it.seq().len() && *it.seq()[i] == k,
            forall|p: (i32, i32)| #[trigger] out@.contains(p) ==> exists|z: i32| src.contains((p.0, p.1, z)),
            forall|i: int| #![trigger it.seq()[i]] 0 <= i < it.index() ==> out@.contains((it.seq()[i].0, it.seq()[i].1)),
    {
        proof {
            assert(src.contains(*c));
            assert(src.contains((c.0, c.1, c.2)));
        }
        out.insert((c.0, c.1));
    }
    proof {
        assert forall|p: (i32, i32)| out@.contains(p) <==> #[trigger] has_column(src, p) by {
            if exists|z: i32| src.contains((p.0, p.1, z)) {
                let z = choose|z: i32| src.contains((p.0, p.1, z));
                assert(src.contains((p.0, p.1, z)));
            }
        }
        if !use_streamed {
            assert forall|p: (i32, i32)| #[trigger] has_column(src, p) <==> grid_has_column(world_chunks, p) by {
                if exists|z: i32| src.contains((p.0, p.1, z)) {
                    let z = choose|z: i32| src.contains((p.0, p.1, z));
                    assert(in_chunk_grid(world_chunks, (p.0, p.1, z)));
                }
                if exists|z: i32| in_chunk_grid(world_chunks, (p.0, p.1, z)) {
                    let z = choose|z: i32| in_chunk_grid(world_chunks, (p.0, p.1, z));
                    assert(src.contains((p.0, p.1, z)));
                }
            }
        }
        assert forall|c: (i32, i32)| out@.contains(c) <==> active_columns_spec(replay_active, world_chunks, sp, c) by {
            assert(out@.contains(c) <==> has_column(src, c));
        }
    }
    out
}

/// What the lifecycle pass asks the renderer to create and destroy.
pub struct ChunkLifecyclePlan {
    pub spawn: BTreeSet<(i32, i32, i32, u8)>,
    pub despawn: BTreeSet<(i32, i32, i32, u8)>,
}

/// A drawn layer of a drawn level of a column.
pub open spec fn wanted_key(xy: Set<(i32, i32)>, levels: Seq<i32>, view_z: i32, entity_mode: bool, layers: TileLayerDebugState, k: (i32, i32, i32, u8)) -> bool {
    &&& xy.contains((k.0, k.1))
    &&& levels.contains(k.2)
    &&& layer_shown_spec(k.3, k.2, view_z, entity_mode, layers)
}

/// Whether `z` is among `levels`.
fn level_in(levels: &Vec<i32>, z: i32) -> (r: bool)
    ensures
        r == levels@.contains(z),
{
    let n = levels.len();
    let mut i: usize = 0;
    while i < n
        invariant
            n == levels@.len(),
            i <= n,
            forall|t: int| 0 <= t < i ==> levels@[t] != z,
        decreases n - i,
    {
        if levels[i] == z {
            return true;
        }
        i = i + 1;
    }
    false
}

/// Create every drawn chunk layer that does not exist yet (over the visible
/// columns, or the active ones before the camera reported any) and mark it
/// for a rebuild; destroy every existing chunk layer outside the active
/// columns, the drawn levels or the drawn layers.
pub fn manage_tilemap_chunk_lifecycle(
    chunk_edge: u32,
    active_xy: &BTreeSet<(i32, i32)>,
    view_z: i32,
    view_mode: ViewMode,
    layers: &TileLayerDebugState,
    existing: &BTreeSet<(i32, i32, i32, u8)>,
    invalidation: &mut TilemapInvalidation,
) -> (r: ChunkLifecyclePlan)
    requires
        view_z - Z_LEVELS_BELOW_RENDERED >= i32::MIN,
    ensures
        chunk_edge == 0 ==> r.spawn@.is_empty() && r.despawn@.is_empty() && final(invalidation)@ == old(invalidation)@,
        chunk_edge != 0 ==> {
            let levels = rendered_levels_spec(view_z, layers.show_depth_stack);
            let em = view_mode == ViewMode::Entity;
            let spawn_xy = if old(invalidation)@.visible_chunks_xy.is_empty() {
                active_xy@
            } else {
                old(invalidation)@.visible_chunks_xy
            };
            &&& forall|k: (i32, i32, i32, u8)| #[trigger] r.spawn@.contains(k) <==> wanted_key(spawn_xy, levels, view_z, em, *layers, k) && !existing@.contains(k)
            &&& forall|k: (i32, i32, i32, u8)| #[trigger] r.despawn@.contains(k) <==> existing@.contains(k) && !wanted_key(active_xy@, levels, view_z, em, *layers, k)
            &&& final(invalidation)@ == (InvalidationModel { dirty: old(invalidation)@.dirty.union(r.spawn@), ..old(invalidation)@ })
        },
{
    let mut spawn: BTreeSet<(i32, i32, i32, u8)> = BTreeSet::new();
    let mut despawn: BTreeSet<(i32, i32, i32, u8)> = BTreeSet::new();
    if chunk_edge == 0 {
        return ChunkLifecyclePlan { spawn, despawn };
    }
    let levels = rendered_z_levels(view_z, layers.show_depth_stack);
    let entity_mode = view_mode == ViewMode::Entity;
    let spawn_xy: BTreeSet<(i32, i32)> = if invalidation.visible_chunks().is_empty() {
        active_xy.clone()
    } else {
        invalidation.visible_chunks().clone()
    };
    let ghost sxy = spawn_xy@;
    let ghost inv0 = invalidation@;
    proof {
        assert(inv0.dirty.union(spawn@) =~= inv0.dirty);
    }
    for c in it: spawn_xy.iter()
        invariant
            sxy == spawn_xy@,
            levels@ == rendered_levels_spec(view_z, layers.show_depth_stack),
            entity_mode == (view_mode == ViewMode::Entity),
            forall|i: int| 0 <= i < it.seq().len() ==> sxy.contains(*#[trigger] it.seq()[i]),
            forall|p: (i32, i32)| #[trigger]
                sxy.contains(p) ==> exists|i: int| 0 <= i < it.seq().len() && *it.seq()[i] == p,
            forall|k: (i32, i32, i32, u8)| #[trigger] spawn@.contains(k) ==> wanted_key(sxy, levels@, view_z, entity_mode, *layers, k) && !existing@.contains(k),
            forall|i: int, k: (i32, i32, i32, u8)| #![trigger it.seq()[i], spawn@.contains(k)] 0 <= i < it.index() && (k.0, k.1) == *it.seq()[i]
                && wanted_key(sxy, levels@, view_z, entity_mode, *layers, k) && !existing@.contains(k) ==> spawn@.contains(k),
            invalidation@ == (InvalidationModel { dirty: inv0.dirty.union(spawn@), ..inv0 }),
    {
        let n = levels.len();
        let mut zi: usize = 0;
        while zi < n
            invariant
                n == levels@.len(),
                zi <= n,
                sxy.contains(*c),
                levels@ == rendered_levels_spec(view_z, layers.show_depth_stack),
                entity_mode == (view_mode == ViewMode::Entity),
                forall|k: (i32, i32, i32, u8)| #[trigger] spawn@.contains(k) ==> wanted_key(sxy, levels@, view_z, entity_mode, *layers, k) && !existing@.contains(k),
                forall|i: int, k: (i32, i32, i32, u8)| #![trigger it.seq()[i], spawn@.contains(k)] 0 <= i < it.index() && (k.0, k.1) == *it.seq()[i]
                    && wanted_key(sxy, levels@, view_z, entity_mode, *layers, k) && !existing@.contains(k) ==> spawn@.contains(k),
                forall|k: (i32, i32, i32, u8)| #[trigger] spawn@.contains(k) || !((k.0, k.1) == *c && (exists|t: int| 0 <= t < zi && levels@[t] == k.2)
                    && wanted_key(sxy, levels@, view_z, entity_mode, *layers, k) && !existing@.contains(k)),
                invalidation@ == (InvalidationModel { dirty: inv0.dirty.union(spawn@), ..inv0 }),
            decreases n - zi,
        {
            let z = levels[zi];
            let mut l: u8 = 0;
            while l < 4
                invariant
                    l <= 4,
                    zi < n,
                    n == levels@.len(),
                    z == levels@[zi as int],
                    sxy.contains(*c),
                    levels@ == rendered_levels_spec(view_z, layers.show_depth_stack),
                    entity_mode == (view_mode == ViewMode::Entity),
                    forall|k: (i32, i32, i32, u8)| #[trigger] spawn@.contains(k) ==> wanted_key(sxy, levels@, view_z, entity_mode, *layers, k) && !existing@.contains(k),
                    forall|i: int, k: (i32, i32, i32, u8)| #![trigger it.seq()[i], spawn@.contains(k)] 0 <= i < it.index() && (k.0, k.1) == *it.seq()[i]
                        && wanted_key(sxy, levels@, view_z, entity_mode, *layers, k) && !existing@.contains(k) ==> spawn@.contains(k),
                    forall|k: (i32, i32, i32, u8)| #[trigger] spawn@.contains(k) || !((k.0, k.1) == *c && ((exists|t: int| 0 <= t < zi && levels@[t] == k.2) || (k.2 == z && k.3 < l))
                        && wanted_key(sxy, levels@, view_z, entity_mode, *layers, k) && !existing@.contains(k)),
                    invalidation@ == (InvalidationModel { dirty: inv0.dirty.union(spawn@), ..inv0 }),
                decreases 4 - l,
            {
                let key = (c.0, c.1, z, l);
                if layer_shown(l, z, view_z, entity_mode, layers) && !existing.contains(&key) {
                    proof {
                        assert(levels@.contains(z));
                    }
                    spawn.insert(key);
                    invalidation.mark(IVec2 { x: c.0, y: c.1 }, z, self::layer_of(l));
                    proof {
                        assert(invalidation@.dirty =~= inv0.dirty.union(spawn@));
                    }
                }
                l = l + 1;
            }
            zi = zi + 1;
        }
    }
    let ghost lv = levels@;
    for k in it2: existing.iter()
        invariant
            lv == levels@,
            forall|i: int| 0 <= i < it2.seq().len() ==> existing@.contains(*#[trigger] it2.seq()[i]),
            forall|q: (i32, i32, i32, u8)| #[trigger]
                existing@.contains(q) ==> exists|i: int| 0 <= i < it2.seq().len() && *it2.seq()[i] == q,
            forall|q: (i32, i32, i32, u8)| #[trigger] despawn@.contains(q) ==> existing@.contains(q) && !wanted_key(active_xy@, lv, view_z, entity_mode, *layers, q),
            forall|i: int| #![trigger it2.seq()[i]] 0 <= i < it2.index() && !wanted_key(active_xy@, lv, view_z, entity_mode, *layers, *it2.seq()[i]) ==> despawn@.contains(*it2.seq()[i]),
    {
        let q = *k;
        let keep = active_xy.contains(&(q.0, q.1)) && level_in(&levels, q.2) && layer_shown(q.3, q.2, view_z, entity_mode, layers);
        if !keep {
            despawn.insert(q);
        }
    }
    proof {
        assert forall|q: (i32, i32, i32, u8)| #[trigger] despawn@.contains(q) <==> existing@.contains(q) && !wanted_key(active_xy@, lv, view_z, entity_mode, *layers, q) by {
            if existing@.contains(q) && !wanted_key(active_xy@, lv, view_z, entity_mode, *layers, q) {
                assert(existing@.contains(q));
            }
        }
        assert forall|q: (i32, i32, i32, u8)| #[trigger] spawn@.contains(q) <==> wanted_key(sxy, lv, view_z, entity_mode, *layers, q) && !existing@.contains(q) by {
            if wanted_key(sxy, lv, view_z, entity_mode, *layers, q) && !existing@.contains(q) {
                assert(sxy.contains((q.0, q.1)));
            }
        }
    }
    ChunkLifecyclePlan { spawn, despawn }
}

/// The layer with order key `l` (`l < 4`).
fn layer_of(l: u8) -> (r: TileLayer)
    ensures
        l < 4 ==> layer_index(r) == l,
{
    if l == 0 {
        TileLayer::Floor
    } else if l == 1 {
        TileLayer::EdgeShadow
    } else if l == 2 {
        TileLayer::CeilingShadow
    } else {
        TileLayer::FogShadow
    }
}

/// Every drawn layer of every drawn level of the given columns.
fn wanted_keys(
    columns: &BTreeSet<(i32, i32)>,
    levels: &Vec<i32>,
    view_z: i32,
    entity_mode: bool,
    layers: &TileLayerDebugState,
) -> (r: BTreeSet<(i32, i32, i32, u8)>)
    ensures
        r@ == Set::new(|k: (i32, i32, i32, u8)| wanted_key(columns@, levels@, view_z, entity_mode, *layers, k)),
{
    let ghost cols = columns@;
    let ghost target = Set::new(|k: (i32, i32, i32, u8)| wanted_key(cols, levels@, view_z, entity_mode, *layers, k));
    let mut out: BTreeSet<(i32, i32, i32, u8)> = BTreeSet::new();
    for c in it: columns.iter()
        invariant
            cols == columns@,
            forall|i: int| 0 <= i < it.seq().len() ==> cols.contains(*#[trigger] it.seq()[i]),
            forall|p: (i32, i32)| #[trigger]
                cols.contains(p) ==> exists|i: int| 0 <= i < it.seq().len() && *it.seq()[i] == p,
            forall|k: (i32, i32, i32, u8)| #[trigger] out@.contains(k) ==> wanted_key(cols, levels@, view_z, entity_mode, *layers, k),
            forall|i: int, k: (i32, i32, i32, u8)| #![trigger it.seq()[i], out@.contains(k)] 0 <= i < it.index() && (k.0, k.1) == *it.seq()[i]
                && wanted_key(cols, levels@, view_z, entity_mode, *layers, k) ==> out@.contains(k),
    {
        let n = levels.len();
        let mut zi: usize = 0;
        while zi < n
            invariant
                n == levels@.len(),
                zi <= n,
                cols.contains(*c),
                forall|k: (i32, i32, i32, u8)| #[trigger] out@.contains(k) ==> wanted_key(cols, levels@, view_z, entity_mode, *layers, k),
                forall|i: int, k: (i32, i32, i32, u8)| #![trigger it.seq()[i], out@.contains(k)] 0 <= i < it.index() && (k.0, k.1) == *it.seq()[i]
                    && wanted_key(cols, levels@, view_z, entity_mode, *layers, k) ==> out@.contains(k),
                forall|k: (i32, i32, i32, u8)| #[trigger] out@.contains(k) || !((k.0, k.1) == *c && (exists|t: int| 0 <= t < zi && levels@[t] == k.2)
                    && wanted_key(cols, levels@, view_z, entity_mode, *layers, k)),
                decreases n - zi,
        {
            let z = levels[zi];
            let mut l: u8 = 0;
            while l < 4
                invariant
                    l <= 4,
                    zi < n,
                    n == levels@.len(),
                    z == levels@[zi as int],
                    cols.contains(*c),
                    forall|k: (i32, i32, i32, u8)| #[trigger] out@.contains(k) ==> wanted_key(cols, levels@, view_z, entity_mode, *layers, k),
                    forall|i: int, k: (i32, i32, i32, u8)| #![trigger it.seq()[i], out@.contains(k)] 0 <= i < it.index() && (k.0, k.1) == *it.seq()[i]
                        && wanted_key(cols, levels@, view_z, entity_mode, *layers, k) ==> out@.contains(k),
                    forall|k: (i32, i32, i32, u8)| #[trigger] out@.contains(k) || !((k.0, k.1) == *c && ((exists|t: int| 0 <= t < zi && levels@[t] == k.2) || (k.2 == z && k.3 < l))
                        && wanted_key(cols, levels@, view_z, entity_mode, *layers, k)),
                        decreases 4 - l,
            {
                if layer_shown(l, z, view_z, entity_mode, layers) {
                    let key = (c.0, c.1, z, l);
                    proof {
                        assert(levels@.contains(z));
                    }
                    out.insert(key);
                }
                l = l + 1;
            }
            zi = zi + 1;
        }
    }
    proof {
        assert forall|k: (i32, i32, i32, u8)| out@.contains(k) <==> #[trigger] target.contains(k) by {
            if target.contains(k) {
                assert(cols.contains((k.0, k.1)));
            }
        }
        assert(out@ =~= target);
    }
    out
}

/// The drawn layers of the drawn levels of the columns that just came into
/// view, which are rebuilt first.
pub open spec fn newly_visible_keys(inv: InvalidationModel, levels: Seq<i32>, view_z: i32, entity_mode: bool, layers: TileLayerDebugState) -> Set<(i32, i32, i32, u8)> {
    if inv.viewport_changed {
        Set::new(|k: (i32, i32, i32, u8)| wanted_key(inv.newly_visible_chunks_xy, levels, view_z, entity_mode, layers, k))
    } else {
        Set::empty()
    }
}

/// Dirty entries inside the camera's visible region.
pub open spec fn visible_dirty(inv: InvalidationModel) -> Set<(i32, i32, i32, u8)> {
    inv.dirty.filter(|k: (i32, i32, i32, u8)| inv.visible_chunks_xy.contains((k.0, k.1)) && inv.visible_z_levels.contains(k.2))
}

/// Up to `budget` of `candidates`, collected in iteration order.
fn take_up_to(candidates: &BTreeSet<(i32, i32, i32, u8)>, budget: usize, out: &mut BTreeSet<(i32, i32, i32, u8)>) -> (r: Ghost<Set<(i32, i32, i32, u8)>>)
    ensures
        r@.subset_of(candidates@),
        r@.finite(),
        r@.len() <= budget,
        r@.len() == budget || r@ == candidates@,
        final(out)@ == old(out)@.union(r@),
{
    let ghost cand = candidates@;
    let ghost mut taken: Set<(i32, i32, i32, u8)> = Set::empty();
    let mut count: usize = 0;
    let ghost out0 = out@;
    proof {
        assert(out0.union(taken) =~= out0);
    }
    for k in it: candidates.iter()
        invariant
            cand == candidates@,
            forall|i: int| 0 <= i < it.seq().len() ==> cand.contains(*#[trigger] it.seq()[i]),
            forall|q: (i32, i32, i32, u8)| #[trigger]
                cand.contains(q) ==> exists|i: int| 0 <= i < it.seq().len() && *it.seq()[i] == q,
            forall|i: int, j: int| 0 <= i < j < it.seq().len() ==> *it.seq()[i] != *it.seq()[j],
            count <= budget,
            taken.finite(),
            taken.len() == count,
            taken.subset_of(cand),
            count < budget ==> forall|i: int| #![trigger it.seq()[i]] 0 <= i < it.index() ==> taken.contains(*it.seq()[i]),
            forall|q: (i32, i32, i32, u8)| #[trigger] taken.contains(q) ==> exists|i: int| 0 <= i < it.index() && *it.seq()[i] == q,
            out@ == out0.union(taken),
    {
        if count < budget {
            proof {
                assert(!taken.contains(*k));
                taken = taken.insert(*k);
            }
            out.insert(*k);
            count = count + 1;
            proof {
                assert(out@ =~= out0.union(taken));
            }
        }
    }
    proof {
        if count < budget {
            assert(taken =~= cand);
        }
    }
    Ghost(taken)
}

/// Dirty entries inside the camera's visible region.
fn visible_dirty_entries(invalidation: &TilemapInvalidation) -> (r: BTreeSet<(i32, i32, i32, u8)>)
    ensures
        r@ == visible_dirty(invalidation@),
{
    let ghost d = invalidation@.dirty;
    let mut out: BTreeSet<(i32, i32, i32, u8)> = BTreeSet::new();
    for k in it: invalidation.dirty_entries().iter()
        invariant
            d == invalidation@.dirty,
            forall|i: int| 0 <= i < it.seq().len() ==> d.contains(*#[trigger] it.seq()[i]),
            forall|q: (i32, i32, i32, u8)| #[trigger]
                d.contains(q) ==> exists|i: int| 0 <= i < it.seq().len() && *it.seq()[i] == q,
            forall|q: (i32, i32, i32, u8)| #[trigger] out@.contains(q) <==> (exists|i: int| 0 <= i < it.index() && *it.seq()[i] == q)
                && invalidation@.visible_chunks_xy.contains((q.0, q.1)) && invalidation@.visible_z_levels.contains(q.2),
    {
        let q = *k;
        if invalidation.visible_chunks().contains(&(q.0, q.1)) && level_in(invalidation.visible_levels(), q.2) {
            out.insert(q);
        }
    }
    proof {
        assert(out@ =~= visible_dirty(invalidation@));
    }
    out
}

/// Choose this frame's rebuilds. A full view invalidation first becomes
/// dirty entries for every drawn layer of the visible (or, before the
/// camera reported, the active) columns. Columns that just came into view
/// are rebuilt first; the rest of the per-frame budget goes to dirty
/// entries in the visible region. Nothing is chosen when nothing is
/// pending.
pub fn select_tiles_to_rebuild(
    invalidation: &mut TilemapInvalidation,
    active_xy: &BTreeSet<(i32, i32)>,
    chunk_edge: u32,
    view_z: i32,
    view_mode: ViewMode,
    layers: &TileLayerDebugState,
) -> (r: BTreeSet<(i32, i32, i32, u8)>)
    requires
        view_z - Z_LEVELS_BELOW_RENDERED >= i32::MIN,
    ensures
        ({
            let o = old(invalidation)@;
            let idle = o.dirty.is_empty() && !o.view_invalidated && !o.viewport_changed;
            let levels = rendered_levels_spec(view_z, layers.show_depth_stack);
            let em = view_mode == ViewMode::Entity;
            let cols = if o.visible_chunks_xy.is_empty() { active_xy@ } else { o.visible_chunks_xy };
            let expanded = if o.view_invalidated {
                o.dirty.union(Set::new(|k: (i32, i32, i32, u8)| wanted_key(cols, levels, view_z, em, *layers, k)))
            } else {
                o.dirty
            };
            let p1 = newly_visible_keys(o, levels, view_z, em, *layers);
            if idle || chunk_edge == 0 {
                r@.is_empty() && final(invalidation)@ == o
            } else {
                &&& final(invalidation)@ == (InvalidationModel { dirty: expanded, view_invalidated: false, viewport_changed: false, ..o })
                &&& exists|s: Set<(i32, i32, i32, u8)>| #[trigger] r@ == p1.union(s) && s.subset_of(visible_dirty(final(invalidation)@))
                    && s.finite() && (s == visible_dirty(final(invalidation)@) || (p1.len() <= REBUILD_BUDGET_PER_FRAME && s.len() == REBUILD_BUDGET_PER_FRAME - p1.len())
                    || (p1.len() >= REBUILD_BUDGET_PER_FRAME && s.is_empty()))
            }
        }),
{
    let mut to_rebuild: BTreeSet<(i32, i32, i32, u8)> = BTreeSet::new();
    if invalidation.is_empty() && !invalidation.viewport_changed() {
        return to_rebuild;
    }
    if chunk_edge == 0 {
        return to_rebuild;
    }
    let levels = rendered_z_levels(view_z, layers.show_depth_stack);
    let entity_mode = view_mode == ViewMode::Entity;
    let ghost o = invalidation@;
    if invalidation.view_invalidated() {
        let cols: BTreeSet<(i32, i32)> = if invalidation.visible_chunks().is_empty() {
            active_xy.clone()
        } else {
            invalidation.visible_chunks().clone()
        };
        let keys = wanted_keys(&cols, &levels, view_z, entity_mode, layers);
        invalidation.mark_keys(&keys);
        invalidation.clear_view_invalidated();
    }
    if invalidation.viewport_changed() {
        let newly: BTreeSet<(i32, i32)> = invalidation.newly_visible_chunks().clone();
        to_rebuild = wanted_keys(&newly, &levels, view_z, entity_mode, layers);
        invalidation.clear_viewport_changed();
    }
    let ghost p1 = to_rebuild@;
    proof {
        assert(p1 == newly_visible_keys(o, levels@, view_z, entity_mode, *layers));
    }
    let used = to_rebuild.len();
    proof {
        assert(used == p1.len());
        let cols = if o.visible_chunks_xy.is_empty() { active_xy@ } else { o.visible_chunks_xy };
        let expanded = if o.view_invalidated {
            o.dirty.union(Set::new(|k: (i32, i32, i32, u8)| wanted_key(cols, levels@, view_z, entity_mode, *layers, k)))
        } else {
            o.dirty
        };
        assert(invalidation@ == (InvalidationModel { dirty: expanded, view_invalidated: false, viewport_changed: false, ..o }));
    }
    if used < REBUILD_BUDGET_PER_FRAME {
        let vd = visible_dirty_entries(invalidation);
        let taken = take_up_to(&vd, REBUILD_BUDGET_PER_FRAME - used, &mut to_rebuild);
        proof {
            let s0 = taken@;
            assert(to_rebuild@ == p1.union(s0));
            assert(s0.subset_of(visible_dirty(invalidation@)));
            assert(s0 == visible_dirty(invalidation@) || (p1.len() <= REBUILD_BUDGET_PER_FRAME && s0.len() == REBUILD_BUDGET_PER_FRAME - p1.len()));
        }
    } else {
        proof {
            let s0 = Set::<(i32, i32, i32, u8)>::empty();
            assert(to_rebuild@ =~= p1.union(s0));
            assert(s0.subset_of(visible_dirty(invalidation@)));
            assert(p1.len() >= REBUILD_BUDGET_PER_FRAME && s0.is_empty());
        }
    }
    to_rebuild
}

} // verus!
