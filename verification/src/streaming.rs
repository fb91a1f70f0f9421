//! Which chunks the simulation keeps loaded around the camera, and which
//! z-level the camera shows.

use std::collections::{BTreeMap, BTreeSet};
use vstd::prelude::*;
use vstd::std_specs::btree::group_btree_axioms;
use vstd::laws_cmp::group_laws_cmp;

use crate::client_world::{FogData, RenderEntityData, TileMemory};
use crate::coords::{RenderViewport, all_world_chunk_coords, desired_streaming_window, grid_fits, in_chunk_grid, streaming_window_spec};
use crate::geometry::{Vec3i, Vec3u};
use crate::invalidation::{InvalidationModel, TilemapInvalidation, ViewMode};
use crate::ordered::{lex_lt, sorted_listing};
use crate::world_state::WorldCommand;

verus! {

broadcast use {
    group_btree_axioms,
    group_laws_cmp,
    crate::ordered::lemma_increasing_triples,
    crate::ordered::lemma_member_of_listing,
};

/// The z-level the camera shows, and the player level it last followed.
#[derive(Debug, Clone, Copy, PartialEq, Eq, Structural)]
pub struct ViewZLevel {
    pub current: i32,
    pub initialized: bool,
    pub last_player_z: Option<i32>,
}

impl Default for ViewZLevel {
    /// Level zero, not yet placed on the player.
    fn default() -> (r: ViewZLevel)
        ensures
            r == (ViewZLevel { current: 0, initialized: false, last_player_z: None }),
    {
        ViewZLevel { current: 0, initialized: false, last_player_z: None }
    }
}

/// Keep the camera on the primary entity's level: the first time it is
/// seen, and whenever its level changes. Either way the view is rebuilt.
pub fn sync_camera_z_to_player(
    view_z: &mut ViewZLevel,
    entity_data: &RenderEntityData,
    primary_entity_id: Option<u64>,
    invalidation: &mut TilemapInvalidation,
)
    ensures
        ({
            let followed = match primary_entity_id {
                Some(id) => if entity_data.entities@.contains_key(id) {
                    Some(entity_data.entities@[id].position.z)
                } else {
                    None
                },
                None => None,
            };
            match followed {
                Some(z) => if !old(view_z).initialized || old(view_z).last_player_z != Some(z) {
                    &&& *final(view_z) == (ViewZLevel { current: z, initialized: true, last_player_z: Some(z) })
                    &&& final(invalidation)@ == (InvalidationModel { view_invalidated: true, ..old(invalidation)@ })
                } else {
                    &&& *final(view_z) == *old(view_z)
                    &&& final(invalidation)@ == old(invalidation)@
                },
                None => {
                    &&& *final(view_z) == *old(view_z)
                    &&& final(invalidation)@ == old(invalidation)@
                },
            }
        }),
{
    let id = match primary_entity_id {
        Some(id) => id,
        None => {
            return ;
        },
    };
    let entity = match entity_data.entities.get(&id) {
        Some(e) => e,
        None => {
            return ;
        },
    };
    let z = entity.position.z;
    if !view_z.initialized {
        view_z.current = z;
        view_z.initialized = true;
        view_z.last_player_z = Some(z);
        invalidation.invalidate_view();
        return ;
    }
    if view_z.last_player_z != Some(z) {
        view_z.current = z;
        view_z.last_player_z = Some(z);
        invalidation.invalidate_view();
    }
}


/// The chunks the simulation was last asked to keep loaded.
#[derive(Debug, Clone)]
pub struct ChunkStreamingState {
    pub loaded_chunks: BTreeSet<(i32, i32, i32)>,
}

impl Default for ChunkStreamingState {
    /// Nothing requested yet.
    fn default() -> (r: ChunkStreamingState)
        ensures
            r.loaded_chunks@ == Set::<(i32, i32, i32)>::empty(),
    {
        ChunkStreamingState { loaded_chunks: BTreeSet::new() }
    }
}

/// The command that loads (`true`) or unloads (`false`) one chunk.
pub open spec fn chunk_loaded_command(chunk: Vec3i, loaded: bool) -> WorldCommand {
    WorldCommand::SetChunkLoaded { chunk, loaded }
}

/// One such command per chunk, in order.
pub open spec fn chunk_loaded_commands(chunks: Seq<Vec3i>, loaded: bool) -> Seq<WorldCommand> {
    chunks.map_values(|c: Vec3i| chunk_loaded_command(c, loaded))
}

/// The chunks a viewport wants resident: its columns, one level beyond its
/// levels on each side, inside the grid.
pub open spec fn streaming_window(viewport: RenderViewport, world_chunks: Vec3u) -> Set<(i32, i32, i32)> {
    Set::new(
        |c: (i32, i32, i32)|
            streaming_window_spec(viewport.visible_chunks_xy@, viewport.visible_z_levels@, world_chunks, c),
    )
}

/// Ask the simulation to load the chunks that entered the viewport's
/// streaming window and unload those that left it. The first call only
/// records the window. Nothing happens during a replay or without a chunk
/// edge. The view is rebuilt only when a chunk was loaded.
pub fn stream_chunks_around_player(
    replay_active: bool,
    chunk_edge: u32,
    world_chunks: Vec3u,
    viewport: &RenderViewport,
    state: &mut ChunkStreamingState,
    commands: &mut Vec<WorldCommand>,
    invalidation: &mut TilemapInvalidation,
)
    requires
        !replay_active && chunk_edge != 0 ==> grid_fits(world_chunks),
    ensures
        replay_active || chunk_edge == 0 ==> {
            &&& final(state).loaded_chunks@ == old(state).loaded_chunks@
            &&& final(commands)@ == old(commands)@
            &&& final(invalidation)@ == old(invalidation)@
        },
        !replay_active && chunk_edge != 0 ==> {
            let desired = streaming_window(*viewport, world_chunks);
            let before = old(state).loaded_chunks@;
            &&& final(state).loaded_chunks@ == desired
            &&& before.is_empty() ==> final(commands)@ == old(commands)@ && final(invalidation)@ == old(
                invalidation,
            )@
            &&& !before.is_empty() ==> exists|loads: Seq<Vec3i>, unloads: Seq<Vec3i>|
                #![trigger sorted_listing(loads, desired.difference(before)), sorted_listing(unloads, before.difference(desired))]
                {
                    &&& sorted_listing(loads, desired.difference(before))
                    &&& sorted_listing(unloads, before.difference(desired))
                    &&& final(commands)@ == old(commands)@ + chunk_loaded_commands(loads, true)
                        + chunk_loaded_commands(unloads, false)
                }
            &&& !before.is_empty() ==> final(invalidation)@ == if desired.difference(before).is_empty() {
                old(invalidation)@
            } else {
                InvalidationModel { view_invalidated: true, ..old(invalidation)@ }
            }
        },
{
    if replay_active || chunk_edge == 0 {
        return ;
    }
    let desired = desired_streaming_window(viewport, world_chunks);
    proof {
        assert(desired@ =~= streaming_window(*viewport, world_chunks));
    }
    if state.loaded_chunks.is_empty() {
        state.loaded_chunks = desired;
        return ;
    }
    let ghost before = state.loaded_chunks@;
    let ghost d = desired@;
    let ghost c0 = commands@;
    let ghost mut loads: Seq<Vec3i> = Seq::empty();
    let mut any_loaded = false;
    for c in it: desired.iter()
        invariant
            before == state.loaded_chunks@,
            d == desired@,
            c0 == old(commands)@,
            forall|i: int, j: int| 0 <= i < j < it.seq().len() ==> lex_lt(*it.seq()[i], *it.seq()[j]),
            forall|i: int| 0 <= i < it.seq().len() ==> d.contains(*#[trigger] it.seq()[i]),
            forall|k: (i32, i32, i32)| #[trigger]
                d.contains(k) ==> exists|i: int| 0 <= i < it.seq().len() && *it.seq()[i] == k,
            commands@ == c0 + chunk_loaded_commands(loads, true),
            any_loaded == (loads.len() > 0),
            forall|i: int, j: int| 0 <= i < j < loads.len() ==> lex_lt(loads[i].key(), loads[j].key()),
            forall|i: int|
                0 <= i < loads.len() ==> d.contains(#[trigger] loads[i].key()) && !before.contains(loads[i].key()),
            forall|i: int, t: int|
                0 <= i < loads.len() && it.index() <= t < it.seq().len() ==> lex_lt(
                    #[trigger] loads[i].key(),
                    *#[trigger] it.seq()[t],
                ),
            forall|t: int|
                0 <= t < it.index() && !before.contains(*#[trigger] it.seq()[t]) ==> exists|i: int|
                    0 <= i < loads.len() && loads[i].key() == *it.seq()[t],
    {
        let key = *c;
        let ghost n = it.index();
        if !state.loaded_chunks.contains(&key) {
            let chunk = Vec3i { x: key.0, y: key.1, z: key.2 };
            commands.push(WorldCommand::SetChunkLoaded { chunk, loaded: true });
            proof {
                let prev = loads;
                loads = loads.push(chunk);
                assert(chunk_loaded_commands(loads, true) =~= chunk_loaded_commands(prev, true).push(
                    chunk_loaded_command(chunk, true),
                ));
                assert forall|i: int, t: int|
                    0 <= i < loads.len() && n + 1 <= t < it.seq().len() implies lex_lt(
                    #[trigger] loads[i].key(),
                    *#[trigger] it.seq()[t],
                ) by {
                    if i < prev.len() {
                        assert(lex_lt(prev[i].key(), *it.seq()[t]));
                    } else {
                        assert(lex_lt(*it.seq()[n], *it.seq()[t]));
                    }
                }
                assert forall|t: int|
                    0 <= t < n + 1 && !before.contains(*#[trigger] it.seq()[t]) implies exists|i: int|
                    0 <= i < loads.len() && loads[i].key() == *it.seq()[t] by {
                    if t == n {
                        assert(loads[prev.len() as int].key() == *it.seq()[t]);
                    } else {
                        let i = choose|i: int| 0 <= i < prev.len() && prev[i].key() == *it.seq()[t];
                        assert(loads[i].key() == *it.seq()[t]);
                    }
                }
                assert forall|i: int, j: int| 0 <= i < j < loads.len() implies lex_lt(
                    loads[i].key(),
                    loads[j].key(),
                ) by {
                    if j == prev.len() {
                        assert(lex_lt(prev[i].key(), *it.seq()[n]));
                    }
                }
            }
            any_loaded = true;
        } else {
            proof {
                assert forall|t: int|
                    0 <= t < n + 1 && !before.contains(*#[trigger] it.seq()[t]) implies exists|i: int|
                    0 <= i < loads.len() && loads[i].key() == *it.seq()[t] by {
                    assert(t != n);
                }
            }
        }
    }
    let ghost c1 = commands@;
    let ghost mut unloads: Seq<Vec3i> = Seq::empty();
    for c in it: state.loaded_chunks.iter()
        invariant
            before == state.loaded_chunks@,
            d == desired@,
            c1 == c0 + chunk_loaded_commands(loads, true),
            forall|i: int, j: int| 0 <= i < j < it.seq().len() ==> lex_lt(*it.seq()[i], *it.seq()[j]),
            forall|i: int| 0 <= i < it.seq().len() ==> before.contains(*#[trigger] it.seq()[i]),
            forall|k: (i32, i32, i32)| #[trigger]
                before.contains(k) ==> exists|i: int| 0 <= i < it.seq().len() && *it.seq()[i] == k,
            commands@ == c1 + chunk_loaded_commands(unloads, false),
            forall|i: int, j: int| 0 <= i < j < unloads.len() ==> lex_lt(unloads[i].key(), unloads[j].key()),
            forall|i: int|
                0 <= i < unloads.len() ==> before.contains(#[trigger] unloads[i].key()) && !d.contains(
                    unloads[i].key(),
                ),
            forall|i: int, t: int|
                0 <= i < unloads.len() && it.index() <= t < it.seq().len() ==> lex_lt(
                    #[trigger] unloads[i].key(),
                    *#[trigger] it.seq()[t],
                ),
            forall|t: int|
                0 <= t < it.index() && !d.contains(*#[trigger] it.seq()[t]) ==> exists|i: int|
                    0 <= i < unloads.len() && unloads[i].key() == *it.seq()[t],
    {
        let key = *c;
        let ghost n = it.index();
        if !desired.contains(&key) {
            let chunk = Vec3i { x: key.0, y: key.1, z: key.2 };
            commands.push(WorldCommand::SetChunkLoaded { chunk, loaded: false });
            proof {
                let prev = unloads;
                unloads = unloads.push(chunk);
                assert(chunk_loaded_commands(unloads, false) =~= chunk_loaded_commands(prev, false).push(
                    chunk_loaded_command(chunk, false),
                ));
                assert forall|i: int, t: int|
                    0 <= i < unloads.len() && n + 1 <= t < it.seq().len() implies lex_lt(
                    #[trigger] unloads[i].key(),
                    *#[trigger] it.seq()[t],
                ) by {
                    if i < prev.len() {
                        assert(lex_lt(prev[i].key(), *it.seq()[t]));
                    } else {
                        assert(lex_lt(*it.seq()[n], *it.seq()[t]));
                    }
                }
                assert forall|t: int|
                    0 <= t < n + 1 && !d.contains(*#[trigger] it.seq()[t]) implies exists|i: int|
                    0 <= i < unloads.len() && unloads[i].key() == *it.seq()[t] by {
                    if t == n {
                        assert(unloads[prev.len() as int].key() == *it.seq()[t]);
                    } else {
                        let i = choose|i: int| 0 <= i < prev.len() && prev[i].key() == *it.seq()[t];
                        assert(unloads[i].key() == *it.seq()[t]);
                    }
                }
                assert forall|i: int, j: int| 0 <= i < j < unloads.len() implies lex_lt(
                    unloads[i].key(),
                    unloads[j].key(),
                ) by {
                    if j == prev.len() {
                        assert(lex_lt(prev[i].key(), *it.seq()[n]));
                    }
                }
            }
        } else {
            proof {
                assert forall|t: int|
                    0 <= t < n + 1 && !d.contains(*#[trigger] it.seq()[t]) implies exists|i: int|
                    0 <= i < unloads.len() && unloads[i].key() == *it.seq()[t] by {
                    assert(t != n);
                }
            }
        }
    }
    state.loaded_chunks = desired;
    if any_loaded {
        invalidation.invalidate_view();
    }
    proof {
        let added = d.difference(before);
        let removed = before.difference(d);
        assert forall|k: (i32, i32, i32)| #[trigger] added.contains(k) implies exists|i: int|
            0 <= i < loads.len() && loads[i].key() == k by {
            assert(d.contains(k));
        }
        assert forall|k: (i32, i32, i32)| #[trigger] removed.contains(k) implies exists|i: int|
            0 <= i < unloads.len() && unloads[i].key() == k by {
            assert(before.contains(k));
        }
        assert(sorted_listing(loads, added));
        assert(sorted_listing(unloads, removed));
        if loads.len() > 0 {
            assert(added.contains(loads[0].key()));
        }
        if !added.is_empty() {
            let k = added.choose();
            assert(added.contains(k));
        }
    }
}


/// The z-coordinates of a set of points.
pub open spec fn levels_of(points: Set<(i32, i32, i32)>) -> Set<int> {
    Set::new(|z: int| exists|p: (i32, i32, i32)| #[trigger] points.contains(p) && p.2 == z)
}

pub open spec fn is_least(s: Set<int>, m: int) -> bool {
    s.contains(m) && forall|x: int| #[trigger] s.contains(x) ==> m <= x
}

pub open spec fn is_greatest(s: Set<int>, m: int) -> bool {
    s.contains(m) && forall|x: int| #[trigger] s.contains(x) ==> x <= m
}

/// The least member of `s`, or `fallback` when it has none.
pub open spec fn least_or(s: Set<int>, fallback: int) -> int {
    if exists|m: int| is_least(s, m) {
        choose|m: int| is_least(s, m)
    } else {
        fallback
    }
}

/// The greatest member of `s`, or `fallback` when it has none.
pub open spec fn greatest_or(s: Set<int>, fallback: int) -> int {
    if exists|m: int| is_greatest(s, m) {
        choose|m: int| is_greatest(s, m)
    } else {
        fallback
    }
}

/// `span` is the least and greatest member of `s`, or `None` for an empty `s`.
pub open spec fn spans(s: Set<int>, span: Option<(i32, i32)>) -> bool {
    match span {
        None => s == Set::<int>::empty(),
        Some((lo, hi)) => is_least(s, lo as int) && is_greatest(s, hi as int),
    }
}

proof fn lemma_span_insert(s: Set<int>, lo: i32, hi: i32, z: i32)
    requires
        spans(s, Some((lo, hi))),
    ensures
        spans(
            s.insert(z as int),
            Some((if z < lo { z } else { lo }, if z > hi { z } else { hi })),
        ),
{
}

proof fn lemma_span_least(s: Set<int>, span: Option<(i32, i32)>, fallback_lo: int, fallback_hi: int)
    requires
        spans(s, span),
    ensures
        least_or(s, fallback_lo) == match span {
            Some((lo, _)) => lo as int,
            None => fallback_lo,
        },
        greatest_or(s, fallback_hi) == match span {
            Some((_, hi)) => hi as int,
            None => fallback_hi,
        },
{
    match span {
        Some((lo, hi)) => {
            let m = choose|m: int| is_least(s, m);
            assert(is_least(s, lo as int));
            assert(m <= lo && lo <= m);
            let g = choose|g: int| is_greatest(s, g);
            assert(is_greatest(s, hi as int));
            assert(g <= hi && hi <= g);
        },
        None => {
            assert forall|m: int| !is_least(s, m) by {
                assert(!s.contains(m));
            }
            assert forall|m: int| !is_greatest(s, m) by {
                assert(!s.contains(m));
            }
        },
    }
}

/// Widen `span`, which spans `seen`, by the levels of `points`.
fn widen_by_set(
    points: &BTreeSet<(i32, i32, i32)>,
    span: Option<(i32, i32)>,
    Ghost(seen): Ghost<Set<int>>,
) -> (r: Option<(i32, i32)>)
    requires
        spans(seen, span),
    ensures
        spans(seen.union(levels_of(points@)), r),
{
    let mut r = span;
    let ghost mut cur = seen;
    let ghost mut done: Set<(i32, i32, i32)> = Set::empty();
    for p in it: points.iter()
        invariant
            spans(cur, r),
            forall|i: int| 0 <= i < it.seq().len() ==> points@.contains(*#[trigger] it.seq()[i]),
            forall|q: (i32, i32, i32)| #[trigger] done.contains(q) ==> points@.contains(q),
            forall|q: (i32, i32, i32)| #[trigger]
                points@.contains(q) ==> done.contains(q) || exists|i: int|
                    it.index() <= i < it.seq().len() && *it.seq()[i] == q,
            cur == seen.union(levels_of(done)),
    {
        let ghost n = it.index();
        let z = p.2;
        let ghost prev = cur;
        r = match r {
            None => Some((z, z)),
            Some((lo, hi)) => {
                proof {
                    lemma_span_insert(cur, lo, hi, z);
                }
                Some((if z < lo { z } else { lo }, if z > hi { z } else { hi }))
            },
        };
        proof {
            let q0 = *p;
            cur = cur.insert(z as int);
            if prev == Set::<int>::empty() {
                assert(cur =~= Set::<int>::empty().insert(z as int));
            }
            let done0 = done;
            done = done.insert(q0);
            assert(levels_of(done) =~= levels_of(done0).insert(z as int)) by {
                assert forall|w: int| levels_of(done).contains(w) implies levels_of(done0).insert(z as int).contains(w) by {
                    let q = choose|q: (i32, i32, i32)| #[trigger] done.contains(q) && q.2 == w;
                    if q != q0 {
                        assert(done0.contains(q));
                    }
                }
                assert forall|w: int| levels_of(done0).insert(z as int).contains(w) implies levels_of(done).contains(w) by {
                    if w == z as int {
                        assert(done.contains(q0) && q0.2 == w);
                    } else {
                        let q = choose|q: (i32, i32, i32)| #[trigger] done0.contains(q) && q.2 == w;
                        assert(done.contains(q));
                    }
                }
            }
            assert(cur =~= seen.union(levels_of(done)));
            assert forall|q: (i32, i32, i32)| #[trigger] points@.contains(q) implies done.contains(q) || exists|i: int|
                n + 1 <= i < it.seq().len() && *it.seq()[i] == q by {
                if !done.contains(q) {
                    let i = choose|i: int| n <= i < it.seq().len() && *it.seq()[i] == q;
                    assert(i != n);
                }
            }
        }
    }
    proof {
        assert(done =~= points@);
    }
    r
}

/// Widen `span`, which spans `seen`, by the levels of the keys of `points`.
fn widen_by_keys(
    points: &BTreeMap<(i32, i32, i32), TileMemory>,
    span: Option<(i32, i32)>,
    Ghost(seen): Ghost<Set<int>>,
) -> (r: Option<(i32, i32)>)
    requires
        spans(seen, span),
    ensures
        spans(seen.union(levels_of(points@.dom())), r),
{
    let mut r = span;
    let ghost mut cur = seen;
    let ghost mut done: Set<(i32, i32, i32)> = Set::empty();
    for p in it: points.keys()
        invariant
            spans(cur, r),
            forall|i: int| 0 <= i < it.seq().len() ==> points@.dom().contains(*#[trigger] it.seq()[i]),
            forall|q: (i32, i32, i32)| #[trigger] done.contains(q) ==> points@.dom().contains(q),
            forall|q: (i32, i32, i32)| #[trigger]
                points@.dom().contains(q) ==> done.contains(q) || exists|i: int|
                    it.index() <= i < it.seq().len() && *it.seq()[i] == q,
            cur == seen.union(levels_of(done)),
    {
        let ghost n = it.index();
        let z = p.2;
        let ghost prev = cur;
        r = match r {
            None => Some((z, z)),
            Some((lo, hi)) => {
                proof {
                    lemma_span_insert(cur, lo, hi, z);
                }
                Some((if z < lo { z } else { lo }, if z > hi { z } else { hi }))
            },
        };
        proof {
            let q0 = *p;
            cur = cur.insert(z as int);
            if prev == Set::<int>::empty() {
                assert(cur =~= Set::<int>::empty().insert(z as int));
            }
            let done0 = done;
            done = done.insert(q0);
            assert(levels_of(done) =~= levels_of(done0).insert(z as int)) by {
                assert forall|w: int| levels_of(done).contains(w) implies levels_of(done0).insert(z as int).contains(w) by {
                    let q = choose|q: (i32, i32, i32)| #[trigger] done.contains(q) && q.2 == w;
                    if q != q0 {
                        assert(done0.contains(q));
                    }
                }
                assert forall|w: int| levels_of(done0).insert(z as int).contains(w) implies levels_of(done).contains(w) by {
                    if w == z as int {
                        assert(done.contains(q0) && q0.2 == w);
                    } else {
                        let q = choose|q: (i32, i32, i32)| #[trigger] done0.contains(q) && q.2 == w;
                        assert(done.contains(q));
                    }
                }
            }
            assert(cur =~= seen.union(levels_of(done)));
            assert forall|q: (i32, i32, i32)| #[trigger] points@.dom().contains(q) implies done.contains(q) || exists|i: int|
                n + 1 <= i < it.seq().len() && *it.seq()[i] == q by {
                if !done.contains(q) {
                    let i = choose|i: int| n <= i < it.seq().len() && *it.seq()[i] == q;
                    assert(i != n);
                }
            }
        }
    }
    proof {
        assert(done =~= points@.dom());
    }
    r
}


/// The lowest and highest voxel level of a world `chunk_edge * chunks_z` high.
pub open spec fn world_z_bounds(chunk_edge: u32, chunks_z: u32) -> (int, int) {
    let size = chunk_edge * chunks_z;
    let lo = -(size / 2);
    (lo, lo + size - 1)
}

/// The levels the camera may show. In entity view with a followed entity,
/// only levels that entity sees or remembers (within the world); otherwise
/// every level of the world.
pub open spec fn view_z_bounds(
    chunk_edge: u32,
    chunks_z: u32,
    view_mode: ViewMode,
    primary_entity_id: Option<u64>,
    visible: Set<(i32, i32, i32)>,
    remembered: Set<(i32, i32, i32)>,
) -> (int, int) {
    let (lo, hi) = world_z_bounds(chunk_edge, chunks_z);
    if view_mode == ViewMode::Entity && primary_entity_id is Some {
        let known = levels_of(visible.union(remembered));
        let a = least_or(known, lo);
        let b = greatest_or(known, hi);
        (if a >= lo { a } else { lo }, if b <= hi { b } else { hi })
    } else {
        (lo, hi)
    }
}

/// The camera level after one frame: a step up and a step down as pressed,
/// each stopped at the bounds, then pulled back inside them.
pub open spec fn next_view_z(current: int, up: bool, down: bool, bounds: (int, int)) -> int {
    let a = if up {
        if current + 1 <= bounds.1 { current + 1 } else { bounds.1 }
    } else {
        current
    };
    let b = if down {
        if a - 1 >= bounds.0 { a - 1 } else { bounds.0 }
    } else {
        a
    };
    if b < bounds.0 {
        bounds.0
    } else if b > bounds.1 {
        bounds.1
    } else {
        b
    }
}

/// Whether the frame redraws: a level key was pressed, or the level had to
/// be pulled back inside the bounds.
pub open spec fn view_z_moved(current: int, up: bool, down: bool, bounds: (int, int)) -> bool {
    let a = if up {
        if current + 1 <= bounds.1 { current + 1 } else { bounds.1 }
    } else {
        current
    };
    let b = if down {
        if a - 1 >= bounds.0 { a - 1 } else { bounds.0 }
    } else {
        a
    };
    up || down || next_view_z(current, up, down, bounds) != b
}

/// Move the camera a level up or down on key presses, within the levels it
/// may show, and keep it inside them when they shrink. Any change marks the
/// entities for redrawing and the view for rebuilding.
pub fn update_view_z_level(
    z_up_pressed: bool,
    z_down_pressed: bool,
    chunk_edge: u32,
    world_chunks: Vec3u,
    view_mode: ViewMode,
    primary_entity_id: Option<u64>,
    fog: &FogData,
    view_z: &mut ViewZLevel,
    entity_data: &mut RenderEntityData,
    invalidation: &mut TilemapInvalidation,
)
    requires
        chunk_edge * world_chunks.z <= i32::MAX,
        view_z_bounds(chunk_edge, world_chunks.z, view_mode, primary_entity_id, fog.visible@, fog.memory@.dom()).0
            <= view_z_bounds(chunk_edge, world_chunks.z, view_mode, primary_entity_id, fog.visible@, fog.memory@.dom()).1,
        z_up_pressed ==> old(view_z).current < i32::MAX,
        z_down_pressed && !z_up_pressed ==> old(view_z).current > i32::MIN,
    ensures
        ({
            let bounds = view_z_bounds(
                chunk_edge,
                world_chunks.z,
                view_mode,
                primary_entity_id,
                fog.visible@,
                fog.memory@.dom(),
            );
            let moved = view_z_moved(old(view_z).current as int, z_up_pressed, z_down_pressed, bounds);
            &&& final(view_z).current == next_view_z(old(view_z).current as int, z_up_pressed, z_down_pressed, bounds)
            &&& final(view_z).initialized == old(view_z).initialized
            &&& final(view_z).last_player_z == old(view_z).last_player_z
            &&& final(entity_data).tick == old(entity_data).tick
            &&& final(entity_data).entities@ == old(entity_data).entities@
            &&& final(entity_data).dirty == (old(entity_data).dirty || moved)
            &&& final(invalidation)@ == if moved {
                InvalidationModel { view_invalidated: true, ..old(invalidation)@ }
            } else {
                old(invalidation)@
            }
        }),
{
    let size_z = (chunk_edge as u64 * world_chunks.z as u64) as i64;
    let world_min_z = (-(size_z / 2)) as i32;
    let world_max_z = (world_min_z as i64 + size_z - 1) as i32;
    let ghost bounds = view_z_bounds(
        chunk_edge,
        world_chunks.z,
        view_mode,
        primary_entity_id,
        fog.visible@,
        fog.memory@.dom(),
    );
    let (min_z, max_z) = if view_mode == ViewMode::Entity && primary_entity_id.is_some() {
        let span = widen_by_set(&fog.visible, None, Ghost(Set::empty()));
        proof {
            assert(Set::<int>::empty().union(levels_of(fog.visible@)) =~= levels_of(fog.visible@));
        }
        let span = widen_by_keys(&fog.memory, span, Ghost(levels_of(fog.visible@)));
        let ghost known = levels_of(fog.visible@.union(fog.memory@.dom()));
        proof {
            assert(Set::<int>::empty().union(levels_of(fog.visible@)) =~= levels_of(fog.visible@));
            assert(levels_of(fog.visible@).union(levels_of(fog.memory@.dom())) =~= known) by {
                assert forall|w: int| known.contains(w) implies levels_of(fog.visible@).contains(w) || levels_of(
                    fog.memory@.dom(),
                ).contains(w) by {
                    let q = choose|q: (i32, i32, i32)| #[trigger] fog.visible@.union(fog.memory@.dom()).contains(q)
                        && q.2 == w;
                    if fog.visible@.contains(q) {
                        assert(levels_of(fog.visible@).contains(w));
                    } else {
                        assert(fog.memory@.dom().contains(q));
                    }
                }
                assert forall|w: int| levels_of(fog.visible@).contains(w) implies known.contains(w) by {
                    let q = choose|q: (i32, i32, i32)| #[trigger] fog.visible@.contains(q) && q.2 == w;
                    assert(fog.visible@.union(fog.memory@.dom()).contains(q));
                }
                assert forall|w: int| levels_of(fog.memory@.dom()).contains(w) implies known.contains(w) by {
                    let q = choose|q: (i32, i32, i32)| #[trigger] fog.memory@.dom().contains(q) && q.2 == w;
                    assert(fog.visible@.union(fog.memory@.dom()).contains(q));
                }
            }
            lemma_span_least(known, span, world_min_z as int, world_max_z as int);
        }
        let (known_min, known_max) = match span {
            Some((lo, hi)) => (lo, hi),
            None => (world_min_z, world_max_z),
        };
        (
            if known_min >= world_min_z { known_min } else { world_min_z },
            if known_max <= world_max_z { known_max } else { world_max_z },
        )
    } else {
        (world_min_z, world_max_z)
    };
    assert(min_z == bounds.0 && max_z == bounds.1);
    if z_up_pressed {
        let up = view_z.current + 1;
        view_z.current = if up <= max_z { up } else { max_z };
        entity_data.dirty = true;
        invalidation.invalidate_view();
    }
    if z_down_pressed {
        let down = view_z.current - 1;
        view_z.current = if down >= min_z { down } else { min_z };
        entity_data.dirty = true;
        invalidation.invalidate_view();
    }
    let clamped = if view_z.current < min_z {
        min_z
    } else if view_z.current > max_z {
        max_z
    } else {
        view_z.current
    };
    if clamped != view_z.current {
        view_z.current = clamped;
        entity_data.dirty = true;
        invalidation.invalidate_view();
    }
}


/// Chunks kept loaded around the player's chunk: two columns each way,
/// one level each way.
pub const CHUNK_STREAM_RADIUS_XY: i32 = 2;
pub const CHUNK_STREAM_RADIUS_Z: i32 = 1;

/// The chunk holding world position `p`, or `None` outside the grid (or when
/// the grid's voxel size does not fit `i32`). A chunk edge of zero counts as one.
pub open spec fn chunk_of_position(p: Vec3i, chunk_edge: u32, world_chunks: Vec3u) -> Option<(int, int, int)> {
    let edge: int = if chunk_edge >= 1 { chunk_edge as int } else { 1 };
    let sx = world_chunks.x * edge;
    let sy = world_chunks.y * edge;
    let sz = world_chunks.z * edge;
    if sx > i32::MAX || sy > i32::MAX || sz > i32::MAX {
        None
    } else {
        let lx = p.x + sx / 2;
        let ly = p.y + sy / 2;
        let lz = p.z + sz / 2;
        if lx < 0 || ly < 0 || lz < 0 || lx >= sx || ly >= sy || lz >= sz {
            None
        } else {
            Some((
                lx / edge - world_chunks.x / 2,
                ly / edge - world_chunks.y / 2,
                lz / edge - world_chunks.z / 2,
            ))
        }
    }
}

/// Shifting `p` to the grid's corner stays in `i32`.
pub open spec fn position_shift_fits(p: Vec3i, chunk_edge: u32, world_chunks: Vec3u) -> bool {
    let edge: int = if chunk_edge >= 1 { chunk_edge as int } else { 1 };
    let sx = world_chunks.x * edge;
    let sy = world_chunks.y * edge;
    let sz = world_chunks.z * edge;
    sx <= i32::MAX && sy <= i32::MAX && sz <= i32::MAX ==> {
        &&& p.x + sx / 2 <= i32::MAX
        &&& p.y + sy / 2 <= i32::MAX
        &&& p.z + sz / 2 <= i32::MAX
    }
}

/// The chunk holding a world position.
pub fn world_pos_to_chunk_coord(world_position: Vec3i, chunk_edge: u32, world_chunks: Vec3u) -> (r: Option<Vec3i>)
    requires
        position_shift_fits(world_position, chunk_edge, world_chunks),
    ensures
        match chunk_of_position(world_position, chunk_edge, world_chunks) {
            None => r is None,
            Some(c) => r matches Some(v) && (v.x as int, v.y as int, v.z as int) == c,
        },
{
    let edge: u64 = if chunk_edge >= 1 { chunk_edge as u64 } else { 1 };
    proof {
        assert(world_chunks.x as u64 * edge <= u64::MAX && world_chunks.y as u64 * edge <= u64::MAX
            && world_chunks.z as u64 * edge <= u64::MAX) by (nonlinear_arith)
            requires
                edge <= u32::MAX,
                world_chunks.x <= u32::MAX,
                world_chunks.y <= u32::MAX,
                world_chunks.z <= u32::MAX,
        ;
    }
    let sx = world_chunks.x as u64 * edge;
    let sy = world_chunks.y as u64 * edge;
    let sz = world_chunks.z as u64 * edge;
    if sx > i32::MAX as u64 || sy > i32::MAX as u64 || sz > i32::MAX as u64 {
        return None;
    }
    let lx = world_position.x as i64 + (sx / 2) as i64;
    let ly = world_position.y as i64 + (sy / 2) as i64;
    let lz = world_position.z as i64 + (sz / 2) as i64;
    if lx < 0 || ly < 0 || lz < 0 || lx >= sx as i64 || ly >= sy as i64 || lz >= sz as i64 {
        return None;
    }
    let e = edge as i64;
    proof {
        assert(world_chunks.x <= sx && world_chunks.y <= sy && world_chunks.z <= sz) by (nonlinear_arith)
            requires
                sx == world_chunks.x * edge,
                sy == world_chunks.y * edge,
                sz == world_chunks.z * edge,
                edge >= 1,
        ;
        vstd::arithmetic::div_mod::lemma_div_is_ordered(lx as int, sx as int, e as int);
        vstd::arithmetic::div_mod::lemma_div_is_ordered(ly as int, sy as int, e as int);
        vstd::arithmetic::div_mod::lemma_div_is_ordered(lz as int, sz as int, e as int);
        assert(lx / e <= lx && ly / e <= ly && lz / e <= lz) by (nonlinear_arith)
            requires
                e >= 1,
                lx >= 0,
                ly >= 0,
                lz >= 0,
        ;
        vstd::arithmetic::div_mod::lemma_div_is_ordered(0, lx as int, e as int);
        vstd::arithmetic::div_mod::lemma_div_is_ordered(0, ly as int, e as int);
        vstd::arithmetic::div_mod::lemma_div_is_ordered(0, lz as int, e as int);
    }
    Some(
        Vec3i {
            x: (lx / e - (world_chunks.x / 2) as i64) as i32,
            y: (ly / e - (world_chunks.y / 2) as i64) as i32,
            z: (lz / e - (world_chunks.z / 2) as i64) as i32,
        },
    )
}

/// The chunks of the grid within the streaming radius of `center`.
pub open spec fn chunk_window_spec(center: Vec3i, world_chunks: Vec3u, k: (i32, i32, i32)) -> bool {
    &&& center.x - CHUNK_STREAM_RADIUS_XY <= k.0 <= center.x + CHUNK_STREAM_RADIUS_XY
    &&& center.y - CHUNK_STREAM_RADIUS_XY <= k.1 <= center.y + CHUNK_STREAM_RADIUS_XY
    &&& center.z - CHUNK_STREAM_RADIUS_Z <= k.2 <= center.z + CHUNK_STREAM_RADIUS_Z
    &&& in_chunk_grid(world_chunks, k)
}

/// The chunks kept loaded around `center_chunk`.
pub fn chunk_window(center_chunk: Vec3i, world_chunks: Vec3u) -> (r: BTreeSet<(i32, i32, i32)>)
    requires
        grid_fits(world_chunks),
        i32::MIN + CHUNK_STREAM_RADIUS_XY <= center_chunk.x <= i32::MAX - CHUNK_STREAM_RADIUS_XY,
        i32::MIN + CHUNK_STREAM_RADIUS_XY <= center_chunk.y <= i32::MAX - CHUNK_STREAM_RADIUS_XY,
        i32::MIN + CHUNK_STREAM_RADIUS_Z <= center_chunk.z <= i32::MAX - CHUNK_STREAM_RADIUS_Z,
    ensures
        forall|k: (i32, i32, i32)| #[trigger] r@.contains(k) <==> chunk_window_spec(center_chunk, world_chunks, k),
{
    let all_chunks = all_world_chunk_coords(world_chunks);
    let mut window: BTreeSet<(i32, i32, i32)> = BTreeSet::new();
    let cx = center_chunk.x as i64;
    let cy = center_chunk.y as i64;
    let cz = center_chunk.z as i64;
    let rxy = CHUNK_STREAM_RADIUS_XY as i64;
    let rz = CHUNK_STREAM_RADIUS_Z as i64;
    let mut z: i64 = cz - rz;
    while z <= cz + rz
        invariant
            cx == center_chunk.x && cy == center_chunk.y && cz == center_chunk.z,
            rxy == CHUNK_STREAM_RADIUS_XY && rz == CHUNK_STREAM_RADIUS_Z,
            cz - rz <= z <= cz + rz + 1,
            i32::MIN + CHUNK_STREAM_RADIUS_XY <= center_chunk.x <= i32::MAX - CHUNK_STREAM_RADIUS_XY,
            i32::MIN + CHUNK_STREAM_RADIUS_XY <= center_chunk.y <= i32::MAX - CHUNK_STREAM_RADIUS_XY,
            i32::MIN + CHUNK_STREAM_RADIUS_Z <= center_chunk.z <= i32::MAX - CHUNK_STREAM_RADIUS_Z,
            forall|k: (i32, i32, i32)| #[trigger] all_chunks@.contains(k) <==> in_chunk_grid(world_chunks, k),
            forall|k: (i32, i32, i32)| #[trigger]
                window@.contains(k) <==> chunk_window_spec(center_chunk, world_chunks, k) && k.2 < z,
        decreases cz + rz + 1 - z,
    {
        let mut y: i64 = cy - rxy;
        while y <= cy + rxy
            invariant
                cx == center_chunk.x && cy == center_chunk.y && cz == center_chunk.z,
                rxy == CHUNK_STREAM_RADIUS_XY && rz == CHUNK_STREAM_RADIUS_Z,
                cz - rz <= z <= cz + rz,
                cy - rxy <= y <= cy + rxy + 1,
                i32::MIN + CHUNK_STREAM_RADIUS_XY <= center_chunk.x <= i32::MAX - CHUNK_STREAM_RADIUS_XY,
                i32::MIN + CHUNK_STREAM_RADIUS_XY <= center_chunk.y <= i32::MAX - CHUNK_STREAM_RADIUS_XY,
                i32::MIN + CHUNK_STREAM_RADIUS_Z <= center_chunk.z <= i32::MAX - CHUNK_STREAM_RADIUS_Z,
                forall|k: (i32, i32, i32)| #[trigger] all_chunks@.contains(k) <==> in_chunk_grid(world_chunks, k),
                forall|k: (i32, i32, i32)| #[trigger]
                    window@.contains(k) <==> chunk_window_spec(center_chunk, world_chunks, k) && (k.2 < z || (k.2
                        == z && k.1 < y)),
            decreases cy + rxy + 1 - y,
        {
            let mut x: i64 = cx - rxy;
            while x <= cx + rxy
                invariant
                    cx == center_chunk.x && cy == center_chunk.y && cz == center_chunk.z,
                    rxy == CHUNK_STREAM_RADIUS_XY && rz == CHUNK_STREAM_RADIUS_Z,
                    cz - rz <= z <= cz + rz,
                    cy - rxy <= y <= cy + rxy,
                    cx - rxy <= x <= cx + rxy + 1,
                    i32::MIN + CHUNK_STREAM_RADIUS_XY <= center_chunk.x <= i32::MAX - CHUNK_STREAM_RADIUS_XY,
                    i32::MIN + CHUNK_STREAM_RADIUS_XY <= center_chunk.y <= i32::MAX - CHUNK_STREAM_RADIUS_XY,
                    i32::MIN + CHUNK_STREAM_RADIUS_Z <= center_chunk.z <= i32::MAX - CHUNK_STREAM_RADIUS_Z,
                    forall|k: (i32, i32, i32)| #[trigger] all_chunks@.contains(k) <==> in_chunk_grid(world_chunks, k),
                    forall|k: (i32, i32, i32)| #[trigger]
                        window@.contains(k) <==> chunk_window_spec(center_chunk, world_chunks, k) && (k.2 < z || (
                        k.2 == z && k.1 < y) || (k.2 == z && k.1 == y && k.0 < x)),
                decreases cx + rxy + 1 - x,
            {
                let key = (x as i32, y as i32, z as i32);
                if all_chunks.contains(&key) {
                    window.insert(key);
                }
                x = x + 1;
            }
            y = y + 1;
        }
        z = z + 1;
    }
    window
}

} // verus!
