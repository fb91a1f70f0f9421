//! The client's cache of tile layers that the world runtime sends, one entry
//! per chunk and layer, with how recently each was touched; and the queue of
//! commands bound for the runtime.

use std::collections::BTreeMap;
use vstd::prelude::*;
use vstd::std_specs::btree::group_btree_axioms;
use vstd::laws_cmp::group_laws_cmp;

use crate::geometry::Vec3i;
use crate::invalidation::ViewMode;
use crate::world_state::WorldCommand;

verus! {

broadcast use {
    group_btree_axioms,
    group_laws_cmp,
    crate::ordered::lemma_member_of_quad_listing,
    crate::ordered::lemma_increasing_quads_distinct,
};

/// A chunk of the runtime's grid.
#[derive(Debug, Clone, Copy, PartialEq, Eq, Structural)]
pub struct ChunkKey {
    pub x: i32,
    pub y: i32,
    pub z: i32,
}

impl ChunkKey {
    pub fn new(x: i32, y: i32, z: i32) -> (r: ChunkKey)
        ensures
            r == (ChunkKey { x, y, z }),
    {
        ChunkKey { x, y, z }
    }
}

/// A tile layer as the runtime names it.
#[derive(Debug, Clone, Copy, PartialEq, Eq, Structural)]
pub enum LayerId {
    Floor,
    EdgeShadow,
    CeilingShadow,
    Fog,
}

/// The number a layer is ordered and stored by.
pub open spec fn layer_id_code(l: LayerId) -> u8 {
    match l {
        LayerId::Floor => 0,
        LayerId::EdgeShadow => 1,
        LayerId::CeilingShadow => 2,
        LayerId::Fog => 3,
    }
}

pub fn layer_id_key(l: LayerId) -> (r: u8)
    ensures
        r == layer_id_code(l),
{
    match l {
        LayerId::Floor => 0,
        LayerId::EdgeShadow => 1,
        LayerId::CeilingShadow => 2,
        LayerId::Fog => 3,
    }
}

/// Which tile layers the runtime is to build, one bit each: floor, edge
/// shadow, ceiling shadow, fog (lowest bit first).
#[derive(Debug, Clone, Copy, PartialEq, Eq, Structural)]
pub struct LayerMask(pub u8);

/// What the client asks the runtime to prepare: the followed position, the
/// voxel box around it, the levels that matter, the layers and the view mode.
#[derive(Debug, Clone, Copy, PartialEq, Eq, Structural)]
pub struct ViewportIntent {
    pub camera_center: Vec3i,
    pub desired_bounds_min: Vec3i,
    pub desired_bounds_max: Vec3i,
    pub relevant_z_min: i32,
    pub relevant_z_max: i32,
    pub active_layers: LayerMask,
    pub view_mode: ViewMode,
}

/// The viewport last sent to the runtime, if any.
#[derive(Debug, Clone, Copy, PartialEq, Eq, Structural)]
pub struct RuntimeViewportIntentState {
    pub current: Option<ViewportIntent>,
}

impl Default for RuntimeViewportIntentState {
    fn default() -> (r: RuntimeViewportIntentState)
        ensures
            r.current is None,
    {
        RuntimeViewportIntentState { current: None }
    }
}

/// How recently a cached layer was touched.
#[derive(Debug, Clone, Copy, PartialEq, Eq, Structural)]
pub enum ChunkLayerResidency {
    Hot,
    Warm,
    Cold,
}

/// One layer of one chunk.
#[derive(Debug, Clone, Copy, PartialEq, Eq, Structural)]
pub struct ChunkLayerKey {
    pub chunk: ChunkKey,
    pub layer: LayerId,
}

impl ChunkLayerKey {
    pub fn new(chunk: ChunkKey, layer: LayerId) -> (r: ChunkLayerKey)
        ensures
            r == (ChunkLayerKey { chunk, layer }),
    {
        ChunkLayerKey { chunk, layer }
    }

    /// The key the cache stores this layer under.
    pub open spec fn code(self) -> (i32, i32, i32, u8) {
        (self.chunk.x, self.chunk.y, self.chunk.z, layer_id_code(self.layer))
    }

    pub fn to_code(&self) -> (r: (i32, i32, i32, u8))
        ensures
            r == self.code(),
    {
        (self.chunk.x, self.chunk.y, self.chunk.z, layer_id_key(self.layer))
    }
}

/// A cached layer: the runtime's payload with its revision and bookkeeping.
#[derive(Debug, Clone)]
pub struct ChunkLayerCacheEntry {
    pub revision: u64,
    pub worker_frame_id: u64,
    pub residency: ChunkLayerResidency,
    pub stale_since_unix_ms: Option<u128>,
    pub last_touched_unix_ms: u128,
    pub full_chunk: bool,
    pub payload: Vec<u8>,
    pub materialized: bool,
    pub dirty: bool,
}

/// A freshly received layer: hot, never stale, touched `now`, still to be
/// shown.
pub open spec fn fresh_entry_spec(
    revision: u64,
    worker_frame_id: u64,
    full_chunk: bool,
    payload: Vec<u8>,
    now: u128,
) -> ChunkLayerCacheEntry {
    ChunkLayerCacheEntry {
        revision,
        worker_frame_id,
        residency: ChunkLayerResidency::Hot,
        stale_since_unix_ms: None,
        last_touched_unix_ms: now,
        full_chunk,
        payload,
        materialized: false,
        dirty: true,
    }
}

impl ChunkLayerCacheEntry {
    fn new(revision: u64, worker_frame_id: u64, full_chunk: bool, payload: Vec<u8>, now: u128) -> (r:
        ChunkLayerCacheEntry)
        ensures
            r == fresh_entry_spec(revision, worker_frame_id, full_chunk, payload, now),
    {
        ChunkLayerCacheEntry {
            revision,
            worker_frame_id,
            residency: ChunkLayerResidency::Hot,
            stale_since_unix_ms: None,
            last_touched_unix_ms: now,
            full_chunk,
            payload,
            materialized: false,
            dirty: true,
        }
    }
}

/// The entry after a staleness sweep at `now`: cold (and stale from `now`
/// if it was not yet) when untouched for longer than `stale_after_ms`, warm
/// when for longer than half of it, hot otherwise; only cold entries are
/// left to redraw.
pub open spec fn swept_entry(e: ChunkLayerCacheEntry, now: u128, stale_after_ms: u64) -> ChunkLayerCacheEntry {
    let elapsed: int = if now >= e.last_touched_unix_ms {
        now - e.last_touched_unix_ms
    } else {
        0
    };
    if elapsed > stale_after_ms {
        ChunkLayerCacheEntry {
            materialized: true,
            stale_since_unix_ms: if e.stale_since_unix_ms is None {
                Some(now)
            } else {
                e.stale_since_unix_ms
            },
            residency: ChunkLayerResidency::Cold,
            dirty: true,
            ..e
        }
    } else if elapsed > stale_after_ms / 2 {
        ChunkLayerCacheEntry { materialized: true, residency: ChunkLayerResidency::Warm, dirty: false, ..e }
    } else {
        ChunkLayerCacheEntry { materialized: true, residency: ChunkLayerResidency::Hot, dirty: false, ..e }
    }
}

/// A property of entries that the cache counts.
#[derive(Debug, Clone, Copy, PartialEq, Eq, Structural)]
pub enum EntryTest {
    Hot,
    Warm,
    Cold,
    FullChunk,
    Materialized,
    Dirty,
}

pub open spec fn passes(test: EntryTest, e: ChunkLayerCacheEntry) -> bool {
    match test {
        EntryTest::Hot => e.residency == ChunkLayerResidency::Hot,
        EntryTest::Warm => e.residency == ChunkLayerResidency::Warm,
        EntryTest::Cold => e.residency == ChunkLayerResidency::Cold,
        EntryTest::FullChunk => e.full_chunk,
        EntryTest::Materialized => e.materialized,
        EntryTest::Dirty => e.dirty,
    }
}

/// How many entries of `m` pass `test`.
pub open spec fn count_passing(m: Map<(i32, i32, i32, u8), ChunkLayerCacheEntry>, test: EntryTest) -> nat {
    m.dom().filter(|k: (i32, i32, i32, u8)| passes(test, m[k])).len()
}

fn entry_passes(test: EntryTest, e: &ChunkLayerCacheEntry) -> (r: bool)
    ensures
        r == passes(test, *e),
{
    match test {
        EntryTest::Hot => e.residency == ChunkLayerResidency::Hot,
        EntryTest::Warm => e.residency == ChunkLayerResidency::Warm,
        EntryTest::Cold => e.residency == ChunkLayerResidency::Cold,
        EntryTest::FullChunk => e.full_chunk,
        EntryTest::Materialized => e.materialized,
        EntryTest::Dirty => e.dirty,
    }
}

/// `latest` is the largest worker frame id in `m`, or zero for an empty `m`.
pub open spec fn is_latest_frame(m: Map<(i32, i32, i32, u8), ChunkLayerCacheEntry>, latest: u64) -> bool {
    &&& forall|k: (i32, i32, i32, u8)| #[trigger] m.contains_key(k) ==> m[k].worker_frame_id <= latest
    &&& latest == 0 || exists|k: (i32, i32, i32, u8)| #[trigger] m.contains_key(k) && m[k].worker_frame_id == latest
}

/// Cached runtime layers by chunk and layer.
#[derive(Debug, Clone)]
pub struct ChunkLayerCacheMap {
    pub entries: BTreeMap<(i32, i32, i32, u8), ChunkLayerCacheEntry>,
}

impl Default for ChunkLayerCacheMap {
    fn default() -> (r: ChunkLayerCacheMap)
        ensures
            r.entries@ == Map::<(i32, i32, i32, u8), ChunkLayerCacheEntry>::empty(),
    {
        ChunkLayerCacheMap { entries: BTreeMap::new() }
    }
}

impl ChunkLayerCacheMap {
    /// Store a layer the runtime sent unless a newer revision is cached;
    /// a stored layer is to be shown. Returns whether it was stored.
    pub fn apply_patch(
        &mut self,
        chunk: ChunkKey,
        layer: LayerId,
        revision: u64,
        worker_frame_id: u64,
        full_chunk: bool,
        payload: Vec<u8>,
        now: u128,
    ) -> (r: bool)
        ensures
            ({
                let k = ChunkLayerKey { chunk, layer }.code();
                let stored = !old(self).entries@.contains_key(k) || revision >= old(self).entries@[k].revision;
                &&& r == stored
                &&& stored ==> final(self).entries@ == old(self).entries@.insert(
                    k,
                    ChunkLayerCacheEntry {
                        materialized: true,
                        dirty: true,
                        ..fresh_entry_spec(revision, worker_frame_id, full_chunk, payload, now)
                    },
                )
                &&& !stored ==> final(self).entries@ == old(self).entries@
            }),
    {
        let key = ChunkLayerKey::new(chunk, layer).to_code();
        let should_replace = match self.entries.get(&key) {
            Some(entry) => revision >= entry.revision,
            None => true,
        };
        if !should_replace {
            return false;
        }
        let mut entry = ChunkLayerCacheEntry::new(revision, worker_frame_id, full_chunk, payload, now);
        entry.materialized = true;
        entry.dirty = true;
        self.entries.insert(key, entry);
        true
    }

    /// Sweep every entry for staleness at `now`.
    pub fn mark_all_stale(&mut self, now: u128, stale_after_ms: u64)
        ensures
            final(self).entries@.dom() == old(self).entries@.dom(),
            forall|k: (i32, i32, i32, u8)| #[trigger]
                final(self).entries@.contains_key(k) ==> final(self).entries@[k] == swept_entry(
                    old(self).entries@[k],
                    now,
                    stale_after_ms,
                ),
    {
        let ghost m0 = self.entries@;
        let mut keys: Vec<(i32, i32, i32, u8)> = Vec::new();
        for k in it: self.entries.keys()
            invariant
                self.entries@ == m0,
                keys@.len() == it.index(),
                forall|i: int| 0 <= i < it.index() ==> keys@[i] == *it.seq()[i],
                forall|i: int| 0 <= i < it.seq().len() ==> m0.dom().contains(*#[trigger] it.seq()[i]),
                forall|q: (i32, i32, i32, u8)| #[trigger]
                    m0.dom().contains(q) ==> exists|i: int| 0 <= i < it.seq().len() && *it.seq()[i] == q,
                forall|i: int, j: int| 0 <= i < j < it.seq().len() ==> *it.seq()[i] != *it.seq()[j],
        {
            keys.push(*k);
        }
        let n = keys.len();
        let mut i: usize = 0;
        while i < n
            invariant
                n == keys@.len(),
                i <= n,
                self.entries@.dom() == m0.dom(),
                forall|q: (i32, i32, i32, u8)| #[trigger] m0.dom().contains(q) ==> exists|t: int| 0 <= t < n && keys@[t] == q,
                forall|t: int| 0 <= t < n ==> m0.dom().contains(#[trigger] keys@[t]),
                forall|s: int, t: int| 0 <= s < t < n ==> keys@[s] != keys@[t],
                forall|t: int|
                    0 <= t < i ==> self.entries@[#[trigger] keys@[t]] == swept_entry(m0[keys@[t]], now, stale_after_ms),
                forall|t: int| i <= t < n ==> self.entries@[#[trigger] keys@[t]] == m0[keys@[t]],
            decreases n - i,
        {
            let key = keys[i];
            match self.entries.remove(&key) {
                Some(mut entry) => {
                    let elapsed = now.saturating_sub(entry.last_touched_unix_ms);
                    entry.materialized = true;
                    if elapsed > stale_after_ms as u128 {
                        if entry.stale_since_unix_ms.is_none() {
                            entry.stale_since_unix_ms = Some(now);
                        }
                        entry.residency = ChunkLayerResidency::Cold;
                        entry.dirty = true;
                    } else if elapsed > (stale_after_ms / 2) as u128 {
                        entry.residency = ChunkLayerResidency::Warm;
                        entry.dirty = false;
                    } else {
                        entry.residency = ChunkLayerResidency::Hot;
                        entry.dirty = false;
                    }
                    self.entries.insert(key, entry);
                },
                None => {},
            }
            proof {
                assert(self.entries@.dom() =~= m0.dom());
            }
            i = i + 1;
        }
        proof {
            assert forall|k: (i32, i32, i32, u8)| #[trigger]
                self.entries@.contains_key(k) implies self.entries@[k] == swept_entry(m0[k], now, stale_after_ms) by {
                let t = choose|t: int| 0 <= t < n && keys@[t] == k;
            }
        }
    }

    /// How many entries pass `test`.
    fn count(&self, test: EntryTest) -> (r: usize)
        ensures
            r == count_passing(self.entries@, test),
    {
        let ghost m = self.entries@;
        let ghost mut done: Set<(i32, i32, i32, u8)> = Set::empty();
        let mut c: usize = 0;
        proof {
            assert(done.filter(|q: (i32, i32, i32, u8)| passes(test, m[q])) =~= Set::empty());
        }
        for k in it: self.entries.keys()
            invariant
                self.entries@ == m,
                done.finite(),
                done.subset_of(m.dom()),
                forall|i: int| 0 <= i < it.seq().len() ==> m.dom().contains(*#[trigger] it.seq()[i]),
                forall|q: (i32, i32, i32, u8)| #[trigger]
                    m.dom().contains(q) ==> done.contains(q) || exists|i: int|
                        it.index() <= i < it.seq().len() && *it.seq()[i] == q,
                forall|i: int| it.index() <= i < it.seq().len() ==> !done.contains(*#[trigger] it.seq()[i]),
                forall|i: int, j: int| 0 <= i < j < it.seq().len() ==> *it.seq()[i] != *it.seq()[j],
                c == done.filter(|q: (i32, i32, i32, u8)| passes(test, m[q])).len(),
        {
            let ghost n = it.index();
            let ghost key = *k;
            proof {
                vstd::set_lib::lemma_len_subset(
                    done.filter(|q: (i32, i32, i32, u8)| passes(test, m[q])),
                    m.dom(),
                );
                vstd::set_lib::lemma_len_subset(done.insert(key), m.dom());
                assert(m.dom().len() == self.entries@.len());
            }
            let n_entries = self.entries.len();
            let pass = match self.entries.get(k) {
                Some(e) => entry_passes(test, e),
                None => false,
            };
            proof {
                let f0 = done.filter(|q: (i32, i32, i32, u8)| passes(test, m[q]));
                let d1 = done.insert(key);
                let f1 = d1.filter(|q: (i32, i32, i32, u8)| passes(test, m[q]));
                if pass {
                    assert(f1 =~= f0.insert(key));
                } else {
                    assert(f1 =~= f0);
                }
                assert forall|q: (i32, i32, i32, u8)| #[trigger] m.dom().contains(q) implies d1.contains(q) || exists|i: int|
                    n + 1 <= i < it.seq().len() && *it.seq()[i] == q by {
                    if !d1.contains(q) {
                        let i = choose|i: int| n <= i < it.seq().len() && *it.seq()[i] == q;
                        assert(i != n);
                    }
                }
                assert forall|i: int| n + 1 <= i < it.seq().len() implies !d1.contains(*#[trigger] it.seq()[i]) by {
                    assert(*it.seq()[i] != *it.seq()[n]);
                }
                vstd::set_lib::lemma_len_subset(f1, m.dom());
                vstd::set_lib::lemma_len_subset(d1, m.dom());
            }
            if pass {
                c = c + 1;
            }
            proof {
                done = done.insert(key);
            }
        }
        proof {
            assert(done =~= m.dom());
        }
        c
    }

    /// Numbers of hot, warm and cold entries.
    pub fn residency_counts(&self) -> (r: (usize, usize, usize))
        ensures
            r == (
                count_passing(self.entries@, EntryTest::Hot) as usize,
                count_passing(self.entries@, EntryTest::Warm) as usize,
                count_passing(self.entries@, EntryTest::Cold) as usize,
            ),
    {
        (self.count(EntryTest::Hot), self.count(EntryTest::Warm), self.count(EntryTest::Cold))
    }

    /// The latest worker frame id, and the numbers of whole-chunk,
    /// materialized and dirty entries.
    pub fn entry_shape_counts(&self) -> (r: (u64, usize, usize, usize))
        ensures
            is_latest_frame(self.entries@, r.0),
            r.1 == count_passing(self.entries@, EntryTest::FullChunk),
            r.2 == count_passing(self.entries@, EntryTest::Materialized),
            r.3 == count_passing(self.entries@, EntryTest::Dirty),
    {
        let ghost m = self.entries@;
        let ghost mut done: Set<(i32, i32, i32, u8)> = Set::empty();
        let mut latest: u64 = 0;
        for k in it: self.entries.keys()
            invariant
                self.entries@ == m,
                forall|i: int| 0 <= i < it.seq().len() ==> m.dom().contains(*#[trigger] it.seq()[i]),
                forall|q: (i32, i32, i32, u8)| #[trigger] done.contains(q) ==> m.dom().contains(q),
                forall|q: (i32, i32, i32, u8)| #[trigger]
                    m.dom().contains(q) ==> done.contains(q) || exists|i: int|
                        it.index() <= i < it.seq().len() && *it.seq()[i] == q,
                forall|q: (i32, i32, i32, u8)| #[trigger] done.contains(q) ==> m[q].worker_frame_id <= latest,
                latest == 0 || exists|q: (i32, i32, i32, u8)| #[trigger] done.contains(q) && m[q].worker_frame_id == latest,
        {
            let ghost n = it.index();
            let ghost key = *k;
            match self.entries.get(k) {
                Some(e) => {
                    if e.worker_frame_id > latest {
                        latest = e.worker_frame_id;
                    }
                },
                None => {},
            }
            proof {
                done = done.insert(key);
                assert(done.contains(key));
                assert forall|q: (i32, i32, i32, u8)| #[trigger] m.dom().contains(q) implies done.contains(q) || exists|i: int|
                    n + 1 <= i < it.seq().len() && *it.seq()[i] == q by {
                    if !done.contains(q) {
                        let i = choose|i: int| n <= i < it.seq().len() && *it.seq()[i] == q;
                        assert(i != n);
                    }
                }
            }
        }
        proof {
            assert(done =~= m.dom());
        }
        (latest, self.count(EntryTest::FullChunk), self.count(EntryTest::Materialized), self.count(EntryTest::Dirty))
    }
}

/// Commands gathered for the runtime until the next batch.
#[derive(Debug, Clone)]
pub struct RuntimeInputQueue {
    pub commands: Vec<WorldCommand>,
}

impl Default for RuntimeInputQueue {
    fn default() -> (r: RuntimeInputQueue)
        ensures
            r.commands@ == Seq::<WorldCommand>::empty(),
    {
        RuntimeInputQueue { commands: Vec::new() }
    }
}

impl RuntimeInputQueue {
    pub fn push(&mut self, command: WorldCommand)
        ensures
            final(self).commands@ == old(self).commands@.push(command),
    {
        self.commands.push(command);
    }

    pub fn move_entity(&mut self, id: u64, direction: Vec3i)
        ensures
            final(self).commands@ == old(self).commands@.push(WorldCommand::MoveEntity { id, direction }),
    {
        self.push(WorldCommand::MoveEntity { id, direction });
    }

    /// Take every queued command, oldest first, leaving the queue empty.
    pub fn drain(&mut self) -> (r: Vec<WorldCommand>)
        ensures
            r@ == old(self).commands@,
            final(self).commands@ == Seq::<WorldCommand>::empty(),
    {
        let mut taken: Vec<WorldCommand> = Vec::new();
        std::mem::swap(&mut taken, &mut self.commands);
        taken
    }
}

/// Counters the debug overlay shows for the runtime cache.
#[derive(Debug, Clone, Copy, PartialEq, Eq, Structural)]
pub struct ChunkCacheState {
    pub stale_grace_ms: u64,
    pub estimated_payload_bytes: usize,
    pub hot_chunks: usize,
    pub warm_chunks: usize,
    pub cold_chunks: usize,
    pub snapshot_progress_percent: u8,
    pub active_layers: usize,
    pub last_event_count: usize,
    pub latest_worker_frame_id: u64,
    pub full_chunk_entries: usize,
    pub materialized_entries: usize,
    pub dirty_entries: usize,
}

impl Default for ChunkCacheState {
    /// A quarter-second grace before a layer counts as stale; all counters zero.
    fn default() -> (r: ChunkCacheState)
        ensures
            r == (ChunkCacheState {
                stale_grace_ms: 250,
                estimated_payload_bytes: 0,
                hot_chunks: 0,
                warm_chunks: 0,
                cold_chunks: 0,
                snapshot_progress_percent: 0,
                active_layers: 0,
                last_event_count: 0,
                latest_worker_frame_id: 0,
                full_chunk_entries: 0,
                materialized_entries: 0,
                dirty_entries: 0,
            }),
    {
        ChunkCacheState {
            stale_grace_ms: 250,
            estimated_payload_bytes: 0,
            hot_chunks: 0,
            warm_chunks: 0,
            cold_chunks: 0,
            snapshot_progress_percent: 0,
            active_layers: 0,
            last_event_count: 0,
            latest_worker_frame_id: 0,
            full_chunk_entries: 0,
            materialized_entries: 0,
            dirty_entries: 0,
        }
    }
}

} // verus!
