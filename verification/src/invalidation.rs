//! Which tilemap layers of which chunk levels must be rebuilt.

use std::collections::BTreeSet;
use vstd::prelude::*;
use vstd::std_specs::btree::group_btree_axioms;
use vstd::laws_cmp::group_laws_cmp;
use vstd::arithmetic::div_mod::{lemma_fundamental_div_mod, lemma_fundamental_div_mod_converse};

use crate::coords::{IVec2, RenderViewport, world_pos_in_chunk_spec};
use crate::geometry::Vec3i;

verus! {

broadcast use {
    group_btree_axioms,
    group_laws_cmp,
    crate::ordered::lemma_member_of_pair_listing,
    crate::ordered::lemma_member_of_quad_listing,
};

/// A drawn layer of a chunk level.
#[derive(Debug, Clone, Copy, PartialEq, Eq, Structural, Hash)]
pub enum TileLayer {
    Floor,
    EdgeShadow,
    CeilingShadow,
    FogShadow,
}

/// Which layers are switched on in the debug menu.
#[derive(Debug, Clone, Copy, PartialEq, Eq, Structural)]
pub struct TileLayerDebugState {
    pub show_floor: bool,
    pub show_edge_shadow: bool,
    pub show_ceiling_shadow: bool,
    pub show_fog_shadow: bool,
    pub show_depth_stack: bool,
}

/// Whether the camera follows an entity (with fog of war) or sees all.
#[derive(Debug, Clone, Copy, PartialEq, Eq, Structural)]
pub enum ViewMode {
    Entity,
    Master,
}

/// The order key of a layer.
pub open spec fn layer_index(l: TileLayer) -> u8 {
    match l {
        TileLayer::Floor => 0,
        TileLayer::EdgeShadow => 1,
        TileLayer::CeilingShadow => 2,
        TileLayer::FogShadow => 3,
    }
}

pub fn layer_key(l: TileLayer) -> (r: u8)
    ensures
        r == layer_index(l),
{
    match l {
        TileLayer::Floor => 0,
        TileLayer::EdgeShadow => 1,
        TileLayer::CeilingShadow => 2,
        TileLayer::FogShadow => 3,
    }
}

/// A dirty entry: chunk column, level and layer.
pub open spec fn dirty_key(c: IVec2, z: i32, layer: TileLayer) -> (i32, i32, i32, u8) {
    (c.x, c.y, z, layer_index(layer))
}

/// Chunk column of a world position: chunks are centred, so column `c`
/// covers `c * edge - edge / 2 .. c * edge - edge / 2 + edge`.
pub open spec fn chunk_of_xy_spec(p: Vec3i, chunk_edge: u32) -> IVec2 {
    let half = (chunk_edge as int) / 2;
    IVec2 { x: ((p.x + half) / (chunk_edge as int)) as i32, y: ((p.y + half) / (chunk_edge as int)) as i32 }
}

/// Floor of `a / e` for a positive `e`.
pub(crate) fn floor_div(a: i64, e: i64) -> (r: i64)
    requires
        e > 0,
        a > i64::MIN,
    ensures
        r == a / e,
{
    if a >= 0 {
        let q = ((a as u64) / (e as u64)) as i64;
        proof {
            lemma_fundamental_div_mod(a as int, e as int);
            assert(q == a / e);
        }
        q
    } else {
        let n: u64 = (-a) as u64;
        let q1: u64 = (n - 1) / (e as u64);
        let r1: u64 = (n - 1) % (e as u64);
        proof {
            lemma_fundamental_div_mod((n - 1) as int, e as int);
            assert((n - 1) as int == e * q1 + r1);
            assert(e * q1 == q1 * e) by (nonlinear_arith);
            assert(a == (-(q1 as int) - 1) * e + (e - 1 - r1)) by (nonlinear_arith)
                requires
                    (n - 1) as int == q1 * e + r1,
                    n == -a,
            ;
            lemma_fundamental_div_mod_converse(a as int, e as int, -(q1 as int) - 1, e - 1 - r1);
        }
        -(q1 as i64) - 1
    }
}

proof fn lemma_div_in_i32(v: int, half: int, e: int)
    requires
        1 <= e <= i32::MAX,
        i32::MIN <= v <= i32::MAX,
        0 <= half,
        2 * half <= e,
    ensures
        i32::MIN <= (v + half) / e <= i32::MAX,
{
    lemma_fundamental_div_mod(v + half, e);
    let q = (v + half) / e;
    let r = (v + half) % e;
    assert(e * q + r == v + half);
    assert(e * q == q * e) by (nonlinear_arith);
    assert(0 <= r < e);
    if q > i32::MAX {
        assert((i32::MAX + 1) * e <= q * e) by (nonlinear_arith)
            requires
                q >= i32::MAX + 1,
                e >= 1,
        ;
        assert(i32::MAX * e >= i32::MAX) by (nonlinear_arith)
            requires
                e >= 1,
        ;
        assert((i32::MAX + 1) * e == i32::MAX * e + e) by (nonlinear_arith);
    }
    if q < i32::MIN {
        assert((i32::MIN - 1) * e >= q * e) by (nonlinear_arith)
            requires
                q <= i32::MIN - 1,
                e >= 1,
        ;
        assert(i32::MIN * e <= i32::MIN) by (nonlinear_arith)
            requires
                e >= 1,
        ;
        assert((i32::MIN - 1) * e == i32::MIN * e - e) by (nonlinear_arith);
    }
}

/// The chunk column containing `p` (the inverse of placing a local tile).
pub fn chunk_of_xy(p: Vec3i, chunk_edge: u32) -> (r: IVec2)
    requires
        1 <= chunk_edge <= i32::MAX,
    ensures
        r == chunk_of_xy_spec(p, chunk_edge),
{
    let edge = chunk_edge as i64;
    let half = edge / 2;
    let x = floor_div((p.x as i64) + half, edge);
    let y = floor_div((p.y as i64) + half, edge);
    proof {
        let ei = edge as int;
        let hi = half as int;
        assert(hi == (chunk_edge as int) / 2);
        lemma_div_in_i32(p.x as int, hi, ei);
        lemma_div_in_i32(p.y as int, hi, ei);
    }
    IVec2 { x: x as i32, y: y as i32 }
}

/// A local tile of chunk column `(cx, cy)` lies in that column.
pub proof fn lemma_chunk_of_world_pos_in_chunk(chunk_coord: Vec3i, chunk_edge: u32, lx: u32, ly: u32, z: i32)
    requires
        1 <= chunk_edge,
        lx < chunk_edge,
        ly < chunk_edge,
        i32::MIN <= world_pos_in_chunk_spec(chunk_coord, chunk_edge, lx, ly, z).0 <= i32::MAX,
        i32::MIN <= world_pos_in_chunk_spec(chunk_coord, chunk_edge, lx, ly, z).1 <= i32::MAX,
    ensures
        chunk_of_xy_spec(
            Vec3i {
                x: world_pos_in_chunk_spec(chunk_coord, chunk_edge, lx, ly, z).0 as i32,
                y: world_pos_in_chunk_spec(chunk_coord, chunk_edge, lx, ly, z).1 as i32,
                z,
            },
            chunk_edge,
        ) == (IVec2 { x: chunk_coord.x, y: chunk_coord.y }),
{
    let e = chunk_edge as int;
    lemma_fundamental_div_mod_converse(chunk_coord.x * e + lx, e, chunk_coord.x as int, lx as int);
    lemma_fundamental_div_mod_converse(chunk_coord.y * e + ly, e, chunk_coord.y as int, ly as int);
}

/// The entries a rebuild of column `c` at level `z` marks: each layer the
/// debug menu shows, fog only when following an entity.
pub open spec fn layer_marks(c: IVec2, z: i32, view_mode: ViewMode, layers: TileLayerDebugState) -> Set<
    (i32, i32, i32, u8),
> {
    Set::new(
        |k: (i32, i32, i32, u8)|
            k.0 == c.x && k.1 == c.y && k.2 == z && ((k.3 == 0 && layers.show_floor) || (k.3 == 1
                && layers.show_edge_shadow) || (k.3 == 2 && layers.show_ceiling_shadow) || (k.3 == 3
                && view_mode == ViewMode::Entity && layers.show_fog_shadow)),
    )
}

/// The eight horizontal neighbours of a tile.
pub open spec fn neighbour_offsets() -> Seq<(int, int)> {
    seq![(1, 0), (-1, 0), (0, 1), (0, -1), (1, 1), (1, -1), (-1, 1), (-1, -1)]
}

/// The chunk column of the `i`-th horizontal neighbour of `p`.
pub open spec fn neighbour_chunk(p: Vec3i, chunk_edge: u32, i: int) -> IVec2 {
    chunk_of_xy_spec(
        Vec3i {
            x: (p.x + neighbour_offsets()[i].0) as i32,
            y: (p.y + neighbour_offsets()[i].1) as i32,
            z: p.z,
        },
        chunk_edge,
    )
}

/// What the `i`-th neighbour of `p` adds: its column at `p.z` and `p.z - 1`
/// when that column is not `p`'s own.
pub open spec fn neighbour_marks(
    p: Vec3i,
    chunk_edge: u32,
    view_mode: ViewMode,
    layers: TileLayerDebugState,
    i: int,
) -> Set<(i32, i32, i32, u8)> {
    let nc = neighbour_chunk(p, chunk_edge, i);
    if nc != chunk_of_xy_spec(p, chunk_edge) {
        layer_marks(nc, p.z, view_mode, layers).union(
            layer_marks(nc, (p.z - 1) as i32, view_mode, layers),
        )
    } else {
        Set::empty()
    }
}

/// The chunk levels a block change at `p` touches: its column at `p.z` and
/// `p.z - 1`, and likewise every other column a horizontal neighbour of `p`
/// falls in.
pub open spec fn block_change_cells(p: Vec3i, chunk_edge: u32) -> Set<(i32, i32, i32)> {
    let c = chunk_of_xy_spec(p, chunk_edge);
    Set::new(
        |k: (i32, i32, i32)|
            (k.2 == p.z || k.2 == p.z - 1) && ((k.0 == c.x && k.1 == c.y) || exists|i: int|
                0 <= i < 8 && #[trigger] neighbour_chunk(p, chunk_edge, i) != c && neighbour_chunk(
                    p,
                    chunk_edge,
                    i,
                ).x == k.0 && neighbour_chunk(p, chunk_edge, i).y == k.1),
    )
}

/// The chunk levels a change of what the viewer sees at `p` touches: its
/// column at `p.z` and `p.z - 1`, and every other column a horizontal
/// neighbour falls in at `p.z`.
pub open spec fn fog_change_cells(p: Vec3i, chunk_edge: u32) -> Set<(i32, i32, i32)> {
    let c = chunk_of_xy_spec(p, chunk_edge);
    Set::new(
        |k: (i32, i32, i32)|
            ((k.0 == c.x && k.1 == c.y) && (k.2 == p.z || k.2 == p.z - 1)) || (k.2 == p.z && exists|i: int|
                0 <= i < 8 && #[trigger] neighbour_chunk(p, chunk_edge, i) != c && neighbour_chunk(
                    p,
                    chunk_edge,
                    i,
                ).x == k.0 && neighbour_chunk(p, chunk_edge, i).y == k.1),
    )
}

/// Everything a block change at `p` invalidates: its column at `p.z` and
/// `p.z - 1` (shadows one level down read it), and likewise every other
/// column a horizontal neighbour of `p` falls in.
pub open spec fn block_change_marks(p: Vec3i, chunk_edge: u32, view_mode: ViewMode, layers: TileLayerDebugState) -> Set<
    (i32, i32, i32, u8),
> {
    let c = chunk_of_xy_spec(p, chunk_edge);
    let own = layer_marks(c, p.z, view_mode, layers).union(
        layer_marks(c, (p.z - 1) as i32, view_mode, layers),
    );
    Set::new(
        |k: (i32, i32, i32, u8)|
            own.contains(k) || exists|i: int|
                0 <= i < 8 && #[trigger] neighbour_marks(p, chunk_edge, view_mode, layers, i).contains(k),
    )
}

/// Abstract state of the invalidation tracker.
pub struct InvalidationModel {
    pub dirty: Set<(i32, i32, i32, u8)>,
    pub view_invalidated: bool,
    pub visible_chunks_xy: Set<(i32, i32)>,
    pub visible_z_levels: Seq<i32>,
    pub viewport_changed: bool,
    pub newly_visible_chunks_xy: Set<(i32, i32)>,
}

/// Dirty tilemap entries plus the camera's last visible region.
pub struct TilemapInvalidation {
    dirty: BTreeSet<(i32, i32, i32, u8)>,
    view_invalidated: bool,
    pub visible_chunks_xy: BTreeSet<(i32, i32)>,
    pub visible_z_levels: Vec<i32>,
    pub viewport_changed: bool,
    pub newly_visible_chunks_xy: BTreeSet<(i32, i32)>,
}

impl View for TilemapInvalidation {
    type V = InvalidationModel;

    closed spec fn view(&self) -> InvalidationModel {
        InvalidationModel {
            dirty: self.dirty@,
            view_invalidated: self.view_invalidated,
            visible_chunks_xy: self.visible_chunks_xy@,
            visible_z_levels: self.visible_z_levels@,
            viewport_changed: self.viewport_changed,
            newly_visible_chunks_xy: self.newly_visible_chunks_xy@,
        }
    }
}

impl Default for TilemapInvalidation {
    fn default() -> (r: TilemapInvalidation)
        ensures
            r@.dirty == Set::<(i32, i32, i32, u8)>::empty(),
            !r@.view_invalidated,
            r@.visible_chunks_xy == Set::<(i32, i32)>::empty(),
            r@.visible_z_levels.len() == 0,
            !r@.viewport_changed,
            r@.newly_visible_chunks_xy == Set::<(i32, i32)>::empty(),
    {
        TilemapInvalidation {
            dirty: BTreeSet::new(),
            view_invalidated: false,
            visible_chunks_xy: BTreeSet::new(),
            visible_z_levels: Vec::new(),
            viewport_changed: false,
            newly_visible_chunks_xy: BTreeSet::new(),
        }
    }
}

impl Default for TileLayerDebugState {
    /// Every layer on, depth stack on.
    fn default() -> (r: TileLayerDebugState)
        ensures
            r == (TileLayerDebugState {
                show_floor: true,
                show_edge_shadow: true,
                show_ceiling_shadow: true,
                show_fog_shadow: true,
                show_depth_stack: true,
            }),
    {
        TileLayerDebugState {
            show_floor: true,
            show_edge_shadow: true,
            show_ceiling_shadow: true,
            show_fog_shadow: true,
            show_depth_stack: true,
        }
    }
}

impl TilemapInvalidation {
    /// Mark one layer of one chunk level dirty.
    pub fn mark(&mut self, chunk_xy: IVec2, z: i32, layer: TileLayer)
        ensures
            final(self)@ == (InvalidationModel {
                dirty: old(self)@.dirty.insert(dirty_key(chunk_xy, z, layer)),
                ..old(self)@
            }),
    {
        self.dirty.insert((chunk_xy.x, chunk_xy.y, z, layer_key(layer)));
    }

    /// Mark every layer of one chunk level dirty.
    pub fn mark_all_layers_at(&mut self, chunk_xy: IVec2, z: i32)
        ensures
            final(self)@.dirty == old(self)@.dirty.union(
                layer_marks(
                    chunk_xy,
                    z,
                    ViewMode::Entity,
                    TileLayerDebugState {
                        show_floor: true,
                        show_edge_shadow: true,
                        show_ceiling_shadow: true,
                        show_fog_shadow: true,
                        show_depth_stack: true,
                    },
                ),
            ),
            final(self)@ == (InvalidationModel { dirty: final(self)@.dirty, ..old(self)@ }),
    {
        self.mark(chunk_xy, z, TileLayer::Floor);
        self.mark(chunk_xy, z, TileLayer::EdgeShadow);
        self.mark(chunk_xy, z, TileLayer::CeilingShadow);
        self.mark(chunk_xy, z, TileLayer::FogShadow);
        proof {
            let all = TileLayerDebugState {
                show_floor: true,
                show_edge_shadow: true,
                show_ceiling_shadow: true,
                show_fog_shadow: true,
                show_depth_stack: true,
            };
            assert(self@.dirty =~= old(self)@.dirty.union(
                layer_marks(chunk_xy, z, ViewMode::Entity, all),
            ));
        }
    }

    fn mark_layers_for_chunk_z(
        &mut self,
        c: IVec2,
        z: i32,
        view_mode: ViewMode,
        layers: &TileLayerDebugState,
    )
        ensures
            final(self)@.dirty == old(self)@.dirty.union(layer_marks(c, z, view_mode, *layers)),
            final(self)@ == (InvalidationModel { dirty: final(self)@.dirty, ..old(self)@ }),
    {
        if layers.show_floor {
            self.mark(c, z, TileLayer::Floor);
        }
        if layers.show_edge_shadow {
            self.mark(c, z, TileLayer::EdgeShadow);
        }
        if layers.show_ceiling_shadow {
            self.mark(c, z, TileLayer::CeilingShadow);
        }
        if view_mode == ViewMode::Entity && layers.show_fog_shadow {
            self.mark(c, z, TileLayer::FogShadow);
        }
        proof {
            assert(self@.dirty =~= old(self)@.dirty.union(layer_marks(c, z, view_mode, *layers)));
        }
    }

    /// Mark the layers the debug menu shows for every visible chunk level.
    pub fn mark_all_visible_layers(
        &mut self,
        viewport: &RenderViewport,
        tile_layer_debug_state: &TileLayerDebugState,
    )
        ensures
            forall|k: (i32, i32, i32, u8)|
                final(self)@.dirty.contains(k) <==> old(self)@.dirty.contains(k) || (
                viewport.visible_chunks_xy@.contains((k.0, k.1))
                    && viewport.visible_z_levels@.contains(k.2) && layer_marks(
                    IVec2 { x: k.0, y: k.1 },
                    k.2,
                    ViewMode::Entity,
                    *tile_layer_debug_state,
                ).contains(k)),
            final(self)@ == (InvalidationModel { dirty: final(self)@.dirty, ..old(self)@ }),
    {
        let ghost vis = viewport.visible_chunks_xy@;
        let ghost zs = viewport.visible_z_levels@;
        let ghost d0 = self@.dirty;
        let ghost layers = *tile_layer_debug_state;
        for xy in it: viewport.visible_chunks_xy.iter()
            invariant
                vis == viewport.visible_chunks_xy@,
                zs == viewport.visible_z_levels@,
                layers == *tile_layer_debug_state,
                self@ == (InvalidationModel { dirty: self@.dirty, ..old(self)@ }),
                d0 == old(self)@.dirty,
                forall|i: int| 0 <= i < it.seq().len() ==> vis.contains(*#[trigger] it.seq()[i]),
                forall|p: (i32, i32)| #[trigger]
                    vis.contains(p) ==> exists|i: int| 0 <= i < it.seq().len() && *it.seq()[i] == p,
                forall|k: (i32, i32, i32, u8)| #[trigger]
                    self@.dirty.contains(k) <==> d0.contains(k) || ((exists|i: int|
                        0 <= i < it.index() && *it.seq()[i] == (k.0, k.1)) && zs.contains(k.2)
                        && layer_marks(IVec2 { x: k.0, y: k.1 }, k.2, ViewMode::Entity, layers).contains(k)),
        {
            let c = IVec2 { x: xy.0, y: xy.1 };
            let n = viewport.visible_z_levels.len();
            let mut j: usize = 0;
            while j < n
                invariant
                    n == zs.len(),
                    zs == viewport.visible_z_levels@,
                    layers == *tile_layer_debug_state,
                    j <= n,
                    c.x == xy.0 && c.y == xy.1,
                    self@ == (InvalidationModel { dirty: self@.dirty, ..old(self)@ }),
                    forall|k: (i32, i32, i32, u8)| #[trigger]
                        self@.dirty.contains(k) <==> d0.contains(k) || ((exists|i: int|
                            0 <= i < it.index() && *it.seq()[i] == (k.0, k.1)) && zs.contains(k.2)
                            && layer_marks(IVec2 { x: k.0, y: k.1 }, k.2, ViewMode::Entity, layers).contains(k))
                            || ((k.0, k.1) == (c.x, c.y) && (exists|t: int| 0 <= t < j && zs[t] == k.2)
                            && layer_marks(c, k.2, ViewMode::Entity, layers).contains(k)),
                decreases n - j,
            {
                let z = viewport.visible_z_levels[j];
                self.mark_layers_for_chunk_z(c, z, ViewMode::Entity, tile_layer_debug_state);
                j = j + 1;
            }
        }
    }

    /// Mark everything a change of the block at `p` invalidates.
    pub fn mark_block_change(
        &mut self,
        p: Vec3i,
        chunk_edge: u32,
        view_mode: ViewMode,
        layers: &TileLayerDebugState,
    )
        requires
            1 <= chunk_edge <= i32::MAX,
            i32::MIN < p.x < i32::MAX,
            i32::MIN < p.y < i32::MAX,
            i32::MIN < p.z,
        ensures
            final(self)@.dirty == old(self)@.dirty.union(
                block_change_marks(p, chunk_edge, view_mode, *layers),
            ),
            final(self)@ == (InvalidationModel { dirty: final(self)@.dirty, ..old(self)@ }),
    {
        let c = chunk_of_xy(p, chunk_edge);
        self.mark_layers_for_chunk_z(c, p.z, view_mode, layers);
        self.mark_layers_for_chunk_z(c, p.z - 1, view_mode, layers);
        let ghost base = self@.dirty;
        let offsets: [(i32, i32); 8] = [(1, 0), (-1, 0), (0, 1), (0, -1), (1, 1), (1, -1), (-1, 1), (-1, -1)];
        let mut i: usize = 0;
        while i < 8
            invariant
                0 <= i <= 8,
                offsets@ == seq![(1i32, 0i32), (-1i32, 0i32), (0i32, 1i32), (0i32, -1i32), (1i32, 1i32), (1i32, -1i32), (-1i32, 1i32), (-1i32, -1i32)],
                1 <= chunk_edge <= i32::MAX,
                i32::MIN < p.x < i32::MAX,
                i32::MIN < p.y < i32::MAX,
                i32::MIN < p.z,
                c == chunk_of_xy_spec(p, chunk_edge),
                base == old(self)@.dirty.union(layer_marks(c, p.z, view_mode, *layers)).union(
                    layer_marks(c, (p.z - 1) as i32, view_mode, *layers),
                ),
                self@ == (InvalidationModel { dirty: self@.dirty, ..old(self)@ }),
                forall|k: (i32, i32, i32, u8)| #[trigger]
                    self@.dirty.contains(k) <==> base.contains(k) || exists|t: int|
                        0 <= t < i && #[trigger] neighbour_marks(p, chunk_edge, view_mode, *layers, t).contains(k),
            decreases 8 - i,
        {
            let (dx, dy) = offsets[i];
            let neighbor = Vec3i::new(p.x + dx, p.y + dy, p.z);
            let nc = chunk_of_xy(neighbor, chunk_edge);
            let ghost before = self@.dirty;
            proof {
                assert(nc == neighbour_chunk(p, chunk_edge, i as int));
            }
            if nc != c {
                self.mark_layers_for_chunk_z(nc, p.z, view_mode, layers);
                self.mark_layers_for_chunk_z(nc, p.z - 1, view_mode, layers);
            }
            proof {
                assert(self@.dirty =~= before.union(neighbour_marks(p, chunk_edge, view_mode, *layers, i as int)));
            }
            i = i + 1;
        }
        proof {
            assert(self@.dirty =~= old(self)@.dirty.union(
                block_change_marks(p, chunk_edge, view_mode, *layers),
            ));
        }
    }

    /// Mark the fog layer of every chunk level a change of what the viewer
    /// sees at `p` touches.
    pub fn mark_fog_change(&mut self, p: Vec3i, chunk_edge: u32)
        requires
            1 <= chunk_edge <= i32::MAX,
            i32::MIN < p.x < i32::MAX,
            i32::MIN < p.y < i32::MAX,
            i32::MIN < p.z,
        ensures
            final(self)@.dirty == old(self)@.dirty.union(
                Set::new(|k: (i32, i32, i32, u8)| k.3 == 3 && fog_change_cells(p, chunk_edge).contains((k.0, k.1, k.2))),
            ),
            final(self)@ == (InvalidationModel { dirty: final(self)@.dirty, ..old(self)@ }),
    {
        let c = chunk_of_xy(p, chunk_edge);
        self.mark(c, p.z, TileLayer::FogShadow);
        self.mark(c, p.z - 1, TileLayer::FogShadow);
        let ghost base = self@.dirty;
        let offsets: [(i32, i32); 8] = [(1, 0), (-1, 0), (0, 1), (0, -1), (1, 1), (1, -1), (-1, 1), (-1, -1)];
        let mut i: usize = 0;
        while i < 8
            invariant
                0 <= i <= 8,
                offsets@ == seq![(1i32, 0i32), (-1i32, 0i32), (0i32, 1i32), (0i32, -1i32), (1i32, 1i32), (1i32, -1i32), (-1i32, 1i32), (-1i32, -1i32)],
                1 <= chunk_edge <= i32::MAX,
                i32::MIN < p.x < i32::MAX,
                i32::MIN < p.y < i32::MAX,
                i32::MIN < p.z,
                c == chunk_of_xy_spec(p, chunk_edge),
                base == old(self)@.dirty.insert((c.x, c.y, p.z, 3u8)).insert((c.x, c.y, (p.z - 1) as i32, 3u8)),
                self@ == (InvalidationModel { dirty: self@.dirty, ..old(self)@ }),
                forall|k: (i32, i32, i32, u8)| #[trigger]
                    self@.dirty.contains(k) <==> base.contains(k) || (k.3 == 3 && k.2 == p.z && exists|t: int|
                        0 <= t < i && #[trigger] neighbour_chunk(p, chunk_edge, t) != c && neighbour_chunk(p, chunk_edge, t).x
                            == k.0 && neighbour_chunk(p, chunk_edge, t).y == k.1),
            decreases 8 - i,
        {
            let (dx, dy) = offsets[i];
            let neighbor = Vec3i::new(p.x + dx, p.y + dy, p.z);
            let nc = chunk_of_xy(neighbor, chunk_edge);
            proof {
                assert(nc == neighbour_chunk(p, chunk_edge, i as int));
            }
            if nc != c {
                self.mark(nc, p.z, TileLayer::FogShadow);
            }
            i = i + 1;
        }
        proof {
            let target = old(self)@.dirty.union(
                Set::new(|k: (i32, i32, i32, u8)| k.3 == 3 && fog_change_cells(p, chunk_edge).contains((k.0, k.1, k.2))),
            );
            assert(self@.dirty =~= target);
        }
    }

    /// Ask for a full rebuild of the visible region.
    pub fn invalidate_view(&mut self)
        ensures
            final(self)@ == (InvalidationModel { view_invalidated: true, ..old(self)@ }),
    {
        self.view_invalidated = true;
    }

    /// Whether the camera moved since the last rebuild.
    pub fn viewport_changed(&self) -> (r: bool)
        ensures
            r == self@.viewport_changed,
    {
        self.viewport_changed
    }

    /// The chunk columns the camera shows.
    pub fn visible_chunks(&self) -> (r: &BTreeSet<(i32, i32)>)
        ensures
            r@ == self@.visible_chunks_xy,
    {
        &self.visible_chunks_xy
    }

    /// Nothing to rebuild.
    pub fn is_empty(&self) -> (r: bool)
        ensures
            r == (self@.dirty.is_empty() && !self@.view_invalidated),
    {
        self.dirty.is_empty() && !self.view_invalidated
    }

    pub fn view_invalidated(&self) -> (r: bool)
        ensures
            r == self@.view_invalidated,
    {
        self.view_invalidated
    }

    /// Mark every entry of `keys` dirty.
    pub fn mark_keys(&mut self, keys: &BTreeSet<(i32, i32, i32, u8)>)
        ensures
            final(self)@ == (InvalidationModel { dirty: old(self)@.dirty.union(keys@), ..old(self)@ }),
    {
        let ghost ks = keys@;
        let ghost d0 = self@.dirty;
        for k in it: keys.iter()
            invariant
                ks == keys@,
                forall|i: int| 0 <= i < it.seq().len() ==> ks.contains(*#[trigger] it.seq()[i]),
                forall|q: (i32, i32, i32, u8)| #[trigger]
                    ks.contains(q) ==> exists|i: int| 0 <= i < it.seq().len() && *it.seq()[i] == q,
                forall|q: (i32, i32, i32, u8)| #[trigger] self@.dirty.contains(q) <==> d0.contains(q) || exists|i: int| 0 <= i < it.index() && *it.seq()[i] == q,
                self@ == (InvalidationModel { dirty: self@.dirty, ..old(self)@ }),
                d0 == old(self)@.dirty,
        {
            self.dirty.insert(*k);
        }
        proof {
            assert(self@.dirty =~= old(self)@.dirty.union(keys@));
        }
    }

    /// Forget that the camera moved.
    pub fn clear_viewport_changed(&mut self)
        ensures
            final(self)@ == (InvalidationModel { viewport_changed: false, ..old(self)@ }),
    {
        self.viewport_changed = false;
    }

    /// The columns that came into view with the last camera move.
    pub fn newly_visible_chunks(&self) -> (r: &BTreeSet<(i32, i32)>)
        ensures
            r@ == self@.newly_visible_chunks_xy,
    {
        &self.newly_visible_chunks_xy
    }

    /// The levels the camera shows.
    pub fn visible_levels(&self) -> (r: &Vec<i32>)
        ensures
            r@ == self@.visible_z_levels,
    {
        &self.visible_z_levels
    }

    /// The dirty entries.
    pub fn dirty_entries(&self) -> (r: &BTreeSet<(i32, i32, i32, u8)>)
        ensures
            r@ == self@.dirty,
    {
        &self.dirty
    }

    pub fn clear_view_invalidated(&mut self)
        ensures
            final(self)@ == (InvalidationModel { view_invalidated: false, ..old(self)@ }),
    {
        self.view_invalidated = false;
    }

    /// Copy the dirty entries that lie in the visible region into `out`;
    /// the entries stay dirty.
    pub fn drain_visible_into(
        &self,
        viewport: &RenderViewport,
        out: &mut BTreeSet<(i32, i32, i32, u8)>,
    )
        ensures
            forall|k: (i32, i32, i32, u8)|
                final(out)@.contains(k) <==> old(out)@.contains(k) || (self@.dirty.contains(k)
                    && viewport.visible_chunks_xy@.contains((k.0, k.1))
                    && viewport.visible_z_levels@.contains(k.2)),
    {
        let ghost d = self@.dirty;
        for key in it: self.dirty.iter()
            invariant
                d == self@.dirty,
                forall|i: int| 0 <= i < it.seq().len() ==> d.contains(*#[trigger] it.seq()[i]),
                forall|k: (i32, i32, i32, u8)| #[trigger]
                    d.contains(k) ==> exists|i: int| 0 <= i < it.seq().len() && *it.seq()[i] == k,
                forall|k: (i32, i32, i32, u8)| #[trigger]
                    out@.contains(k) <==> old(out)@.contains(k) || ((exists|i: int|
                        0 <= i < it.index() && *it.seq()[i] == k) && viewport.visible_chunks_xy@.contains((k.0, k.1))
                        && viewport.visible_z_levels@.contains(k.2)),
        {
            let k = *key;
            if viewport.visible_chunks_xy.contains(&(k.0, k.1)) && contains_level(&viewport.visible_z_levels, k.2) {
                out.insert(k);
            }
        }
    }

    /// Forget one dirty entry.
    pub fn remove(&mut self, chunk_xy: IVec2, z: i32, layer: TileLayer)
        ensures
            final(self)@ == (InvalidationModel {
                dirty: old(self)@.dirty.remove(dirty_key(chunk_xy, z, layer)),
                ..old(self)@
            }),
    {
        self.dirty.remove(&(chunk_xy.x, chunk_xy.y, z, layer_key(layer)));
    }

    /// Forget every dirty entry and the view invalidation.
    pub fn clear(&mut self)
        ensures
            final(self)@ == (InvalidationModel {
                dirty: Set::<(i32, i32, i32, u8)>::empty(),
                view_invalidated: false,
                ..old(self)@
            }),
    {
        self.dirty.clear();
        self.view_invalidated = false;
    }
}

/// Whether `z` is among `levels`.
fn contains_level(levels: &Vec<i32>, z: i32) -> (r: bool)
    ensures
        r == levels@.contains(z),
{
    let n = levels.len();
    let mut i: usize = 0;
    while i < n
        invariant
            n == levels@.len(),
            i <= n,
            forall|t: int| 0 <= t < i ==> levels@[t] != z,
        decreases n - i,
    {
        if levels[i] == z {
            return true;
        }
        i = i + 1;
    }
    false
}

/// Hand the camera's visible region to the invalidation tracker.
pub fn sync_viewport_to_invalidation(viewport: &RenderViewport, invalidation: &mut TilemapInvalidation)
    ensures
        final(invalidation)@ == (InvalidationModel {
            visible_chunks_xy: viewport.visible_chunks_xy@,
            visible_z_levels: viewport.visible_z_levels@,
            viewport_changed: viewport.viewport_changed,
            newly_visible_chunks_xy: viewport.newly_visible_chunks_xy@,
            ..old(invalidation)@
        }),
{
    invalidation.visible_chunks_xy = viewport.visible_chunks_xy.clone();
    invalidation.visible_z_levels = viewport.visible_z_levels.clone();
    invalidation.viewport_changed = viewport.viewport_changed;
    invalidation.newly_visible_chunks_xy = viewport.newly_visible_chunks_xy.clone();
}

} // verus!
