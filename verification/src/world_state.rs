//! The authoritative voxel world: terrain, chunk residency, entities and
//! their tick-driven movement.

use std::collections::{BTreeMap, BTreeSet};
use vstd::prelude::*;
use vstd::std_specs::btree::group_btree_axioms;
use vstd::laws_cmp::group_laws_cmp;

use crate::ordered::{lex_lt, sorted_listing};
use crate::geometry::{BlockType, Vec3i, Vec3u, is_adjacent_direction, step_direction};

verus! {

broadcast use {group_btree_axioms, group_laws_cmp, crate::ordered::lemma_increasing_triples, crate::ordered::lemma_member_of_listing, crate::ordered::lemma_increasing_u64};

/// Construction parameters of a world.
#[derive(Debug, Clone, Copy, PartialEq, Eq, Structural)]
pub struct WorldConfig {
    pub chunk_edge: u32,
    pub world_chunks: Vec3u,
    pub movement_ticks_per_tile: u32,
}

impl WorldConfig {
    /// Voxels along x, y and z.
    pub open spec fn size_x(self) -> int {
        self.world_chunks.x * self.chunk_edge
    }

    pub open spec fn size_y(self) -> int {
        self.world_chunks.y * self.chunk_edge
    }

    pub open spec fn size_z(self) -> int {
        self.world_chunks.z * self.chunk_edge
    }

    pub open spec fn block_count(self) -> int {
        self.size_x() * self.size_y() * self.size_z()
    }

    /// The configurations this world can be built from: a nonzero chunk edge,
    /// every axis addressable with `i32` voxels, and a block array that fits
    /// in memory.
    pub open spec fn supported(self) -> bool {
        &&& self.chunk_edge >= 1
        &&& self.size_x() <= i32::MAX
        &&& self.size_y() <= i32::MAX
        &&& self.size_z() <= i32::MAX
        &&& self.block_count() <= usize::MAX
    }
}

/// Raw `f32` bit patterns of a render-space start position.
#[derive(Debug, Clone, Copy, PartialEq, Eq, Structural, Default)]
pub struct StartBits {
    pub x: u32,
    pub y: u32,
    pub z: u32,
}

/// One in-progress move. `start_bits` carries the render start position as
/// raw `f32` bit patterns; the simulation only stores and reports them.
#[derive(Debug, Clone, Copy, PartialEq, Eq, Structural)]
pub struct EntityMovement {
    pub origin: Vec3i,
    pub target: Vec3i,
    pub start_bits: StartBits,
    pub elapsed_ticks: u32,
    pub total_ticks: u32,
}

/// One simulated entity.
#[derive(Debug, Clone, Copy, PartialEq, Eq, Structural)]
pub struct EntityState {
    pub position: Vec3i,
    pub facing_left: bool,
    pub is_prone: bool,
    pub movement: Option<EntityMovement>,
}

/// Progress of a move in whole percent, rounded down.
pub open spec fn progress_spec(m: EntityMovement) -> int {
    let scaled = if m.elapsed_ticks * 100 > u32::MAX {
        u32::MAX as int
    } else {
        m.elapsed_ticks * 100
    };
    scaled / (if m.total_ticks == 0 { 1int } else { m.total_ticks as int })
}

/// The entity still blocks the cell it left (first three quarters of the move).
pub open spec fn occupies_origin_spec(m: EntityMovement) -> bool {
    progress_spec(m) < 75
}

/// The entity already blocks the cell it enters (from one quarter on).
pub open spec fn occupies_target_spec(m: EntityMovement) -> bool {
    progress_spec(m) >= 25
}

/// A stored move: at least one tick long and not yet complete.
pub open spec fn movement_wf(m: EntityMovement) -> bool {
    m.total_ticks >= 1 && m.elapsed_ticks < m.total_ticks
}

/// Abstract state of the world.
pub struct WorldModel {
    pub tick: u64,
    pub config: WorldConfig,
    pub blocks: Seq<BlockType>,
    pub revisions: Seq<u64>,
    pub entities: Map<u64, EntityState>,
    pub loaded: Set<(i32, i32, i32)>,
    pub next_entity_id: u64,
}

impl WorldModel {
    pub open spec fn min_x(self) -> int {
        -(self.config.size_x() / 2)
    }

    pub open spec fn min_y(self) -> int {
        -(self.config.size_y() / 2)
    }

    pub open spec fn min_z(self) -> int {
        -(self.config.size_z() / 2)
    }

    pub open spec fn max_x(self) -> int {
        self.min_x() + self.config.size_x() - 1
    }

    pub open spec fn max_y(self) -> int {
        self.min_y() + self.config.size_y() - 1
    }

    pub open spec fn max_z(self) -> int {
        self.min_z() + self.config.size_z() - 1
    }

    /// Whether an integer point lies inside the centered world box.
    pub open spec fn contains_int(self, x: int, y: int, z: int) -> bool {
        &&& self.min_x() <= x <= self.max_x()
        &&& self.min_y() <= y <= self.max_y()
        &&& self.min_z() <= z <= self.max_z()
    }

    pub open spec fn contains(self, p: Vec3i) -> bool {
        self.contains_int(p.x as int, p.y as int, p.z as int)
    }

    /// Index of an in-world voxel in the block array (z-major, x fastest).
    pub open spec fn voxel_index(self, x: int, y: int, z: int) -> int {
        let lx = x - self.min_x();
        let ly = y - self.min_y();
        let lz = z - self.min_z();
        lz * self.config.size_x() * self.config.size_y() + ly * self.config.size_x() + lx
    }

    /// The block at an integer point, `None` outside the world.
    pub open spec fn block_at_int(self, x: int, y: int, z: int) -> Option<BlockType> {
        if self.contains_int(x, y, z) {
            Some(self.blocks[self.voxel_index(x, y, z)])
        } else {
            None
        }
    }

    pub open spec fn block_at(self, p: Vec3i) -> Option<BlockType> {
        self.block_at_int(p.x as int, p.y as int, p.z as int)
    }

    pub open spec fn solid_int(self, x: int, y: int, z: int) -> bool {
        self.block_at_int(x, y, z) == Some(BlockType::SolidStone)
    }

    /// Chunk grid coordinate containing a voxel, `None` outside the world.
    pub open spec fn chunk_of(self, p: Vec3i) -> Option<Vec3i> {
        if self.contains(p) {
            let e = self.config.chunk_edge as int;
            Some(
                Vec3i {
                    x: ((p.x - self.min_x()) / e - self.config.world_chunks.x / 2) as i32,
                    y: ((p.y - self.min_y()) / e - self.config.world_chunks.y / 2) as i32,
                    z: ((p.z - self.min_z()) / e - self.config.world_chunks.z / 2) as i32,
                },
            )
        } else {
            None
        }
    }

    /// Whether a chunk coordinate names a chunk of the grid.
    pub open spec fn in_grid(self, c: (i32, i32, i32)) -> bool {
        let w = self.config.world_chunks;
        &&& -(w.x / 2) <= c.0 < w.x - w.x / 2
        &&& -(w.y / 2) <= c.1 < w.y - w.y / 2
        &&& -(w.z / 2) <= c.2 < w.z - w.z / 2
    }

    pub open spec fn chunk_count(self) -> int {
        self.config.world_chunks.x * self.config.world_chunks.y * self.config.world_chunks.z
    }

    /// Index of a grid chunk in the revision array (z-major, x fastest).
    pub open spec fn chunk_index(self, c: (i32, i32, i32)) -> int {
        let w = self.config.world_chunks;
        (c.2 + w.z / 2) * w.x * w.y + (c.1 + w.y / 2) * w.x + (c.0 + w.x / 2)
    }

    pub open spec fn entity_wf(self, e: EntityState) -> bool {
        &&& self.contains(e.position)
        &&& match e.movement {
            Some(m) => movement_wf(m) && self.contains(m.target) && self.contains(m.origin),
            None => true,
        }
    }

    /// Invariant of every reachable world state.
    pub open spec fn wf(self) -> bool {
        &&& self.config.supported()
        &&& self.config.movement_ticks_per_tile >= 1
        &&& self.blocks.len() == self.config.block_count()
        &&& self.revisions.len() == self.chunk_count()
        &&& forall|id: u64| #[trigger] self.entities.contains_key(id) ==> self.entity_wf(
            self.entities[id],
        )
        &&& self.entities.dom().finite()
    }
}

impl WorldModel {
    /// Air at `z` resting on solid stone at `z - 1`.
    pub open spec fn supported_at(self, x: int, y: int, z: int) -> bool {
        &&& self.block_at_int(x, y, z) == Some(BlockType::Air)
        &&& self.block_at_int(x, y, z - 1) == Some(BlockType::SolidStone)
    }

    /// Highest supported standing cell at or below `z` (strictly above the floor of the world).
    pub open spec fn supported_from(self, x: int, y: int, z: int) -> Option<int>
        decreases z - self.min_z(),
    {
        if z <= self.min_z() {
            None
        } else if self.supported_at(x, y, z) {
            Some(z)
        } else {
            self.supported_from(x, y, z - 1)
        }
    }

    pub open spec fn in_xy(self, x: int, y: int) -> bool {
        self.min_x() <= x <= self.max_x() && self.min_y() <= y <= self.max_y()
    }

    /// Highest z of the column `(x, y)` where an entity can stand.
    pub open spec fn highest_supported_z(self, x: int, y: int) -> Option<int> {
        if self.in_xy(x, y) {
            self.supported_from(x, y, self.max_z())
        } else {
            None
        }
    }

    /// Standing height of a spawn candidate column (never the top layer).
    pub open spec fn spawn_height(self, x: int, y: int) -> Option<int> {
        match self.highest_supported_z(x, y) {
            Some(z) => if z < self.max_z() {
                Some(z)
            } else {
                None
            },
            None => None,
        }
    }
}

/// Spawn preference: higher ground, then closer to the preferred column,
/// then smaller `(x, y)`.
pub open spec fn spawn_better(a: (int, int, int, int), b: (int, int, int, int)) -> bool {
    ||| a.0 > b.0
    ||| (a.0 == b.0 && a.1 < b.1)
    ||| (a.0 == b.0 && a.1 == b.1 && a.2 < b.2)
    ||| (a.0 == b.0 && a.1 == b.1 && a.2 == b.2 && a.3 < b.3)
}

pub open spec fn abs_int(v: int) -> int {
    if v < 0 {
        -v
    } else {
        v
    }
}

pub open spec fn clamp_int(v: int, lo: int, hi: int) -> int {
    if v < lo {
        lo
    } else if v > hi {
        hi
    } else {
        v
    }
}

impl WorldModel {
    /// Manhattan distance of column `(x, y)` to the clamped preferred column.
    pub open spec fn spawn_distance(self, preferred: Vec3i, x: int, y: int) -> int {
        abs_int(x - clamp_int(preferred.x as int, self.min_x(), self.max_x())) + abs_int(
            y - clamp_int(preferred.y as int, self.min_y(), self.max_y()),
        )
    }

    pub open spec fn spawn_rank(self, preferred: Vec3i, x: int, y: int) -> (int, int, int, int) {
        (self.spawn_height(x, y).unwrap(), self.spawn_distance(preferred, x, y), x, y)
    }

    /// `p` is the best spawn cell for `preferred`, if any exists.
    pub open spec fn is_spawn_choice(self, preferred: Vec3i, r: Option<Vec3i>) -> bool {
        match r {
            None => forall|x: int, y: int| #[trigger]
                self.in_xy(x, y) ==> self.spawn_height(x, y) is None,
            Some(p) => {
                &&& self.in_xy(p.x as int, p.y as int)
                &&& self.spawn_height(p.x as int, p.y as int) == Some(p.z as int)
                &&& forall|x: int, y: int|
                    #[trigger] self.in_xy(x, y) && self.spawn_height(x, y) is Some ==> !spawn_better(
                        self.spawn_rank(preferred, x, y),
                        self.spawn_rank(preferred, p.x as int, p.y as int),
                    )
            },
        }
    }
}

/// Why a move was refused.
#[derive(Debug, Clone, Copy, PartialEq, Eq, Structural)]
pub enum MoveEntityError {
    NonAdjacentDirection { direction: Vec3i },
    UnknownEntity,
    OutOfBounds { from: Vec3i, to: Vec3i },
    Blocked,
    ChunkNotLoaded { from: Vec3i, to: Vec3i, chunk: Vec3i },
    MovementInProgress,
}

/// An accepted move before its timing is known.
#[derive(Debug, Clone, Copy, PartialEq, Eq, Structural)]
pub struct MovePlan {
    pub target: Vec3i,
    pub direction: Vec3i,
    pub facing_left: bool,
}

/// What the render-space timing of a new move depends on.
#[derive(Debug, Clone, Copy, PartialEq, Eq, Structural)]
pub struct MoveTimingQuery {
    pub position: Vec3i,
    pub target: Vec3i,
    pub direction: Vec3i,
    pub ticks_per_tile: u32,
    pub in_progress: Option<EntityMovement>,
}

/// Render start position and duration of a new move.
#[derive(Debug, Clone, Copy, PartialEq, Eq, Structural)]
pub struct MoveTiming {
    pub start_bits: StartBits,
    pub total_ticks: u32,
}

pub open spec fn offset(p: Vec3i, d: Vec3i) -> Vec3i {
    Vec3i { x: (p.x + d.x) as i32, y: (p.y + d.y) as i32, z: (p.z + d.z) as i32 }
}

pub open spec fn facing_after(d: Vec3i, facing_left: bool) -> bool {
    if d.x > 0 {
        false
    } else if d.x < 0 {
        true
    } else {
        facing_left
    }
}

impl WorldModel {
    /// Direction actually taken by a horizontal step `(dx, dy)` from `p`:
    /// flat onto a floor, one up over a ledge with headroom, or one down.
    pub open spec fn resolve_direction(self, p: Vec3i, dx: int, dy: int) -> Option<Vec3i> {
        let (x, y, z) = (p.x + dx, p.y + dy, p.z as int);
        let flat = self.solid_int(x, y, z);
        if !flat && self.solid_int(x, y, z - 1) {
            Some(Vec3i { x: dx as i32, y: dy as i32, z: 0 })
        } else if flat && !self.solid_int(x, y, z + 1) && !self.solid_int(
            p.x as int,
            p.y as int,
            z + 1,
        ) {
            Some(Vec3i { x: dx as i32, y: dy as i32, z: 1 })
        } else if !flat && !self.solid_int(x, y, z - 1) && self.solid_int(x, y, z - 2) {
            Some(Vec3i { x: dx as i32, y: dy as i32, z: -1i32 })
        } else {
            None
        }
    }

    /// A move along two or three axes is blocked when it would squeeze
    /// between two solid blocks.
    pub open spec fn diagonal_blocked(self, from: Vec3i, to: Vec3i) -> bool {
        let d = crate::geometry::step_direction_spec(from, to);
        let (fx, fy, fz, tx, ty, tz) = (
            from.x as int,
            from.y as int,
            from.z as int,
            to.x as int,
            to.y as int,
            to.z as int,
        );
        if d.x != 0 && d.y != 0 && d.z == 0 {
            self.solid_int(tx, fy, tz) && self.solid_int(fx, ty, tz)
        } else if d.x != 0 && d.z != 0 && d.y == 0 {
            self.solid_int(tx, fy, fz) && self.solid_int(fx, fy, tz)
        } else if d.y != 0 && d.z != 0 && d.x == 0 {
            self.solid_int(fx, ty, fz) && self.solid_int(fx, fy, tz)
        } else if d.x != 0 && d.y != 0 && d.z != 0 {
            (self.solid_int(tx, fy, fz) && self.solid_int(fx, ty, fz)) || (self.solid_int(
                tx,
                fy,
                fz,
            ) && self.solid_int(fx, fy, tz)) || (self.solid_int(fx, ty, fz) && self.solid_int(
                fx,
                fy,
                tz,
            ))
        } else {
            false
        }
    }

    /// Outcome of asking entity `id` to step in `direction`.
    pub open spec fn plan_move(self, id: u64, direction: Vec3i) -> Result<MovePlan, MoveEntityError> {
        if !crate::geometry::is_adjacent_spec(direction) {
            Err(MoveEntityError::NonAdjacentDirection { direction })
        } else if !self.entities.contains_key(id) {
            Err(MoveEntityError::UnknownEntity)
        } else {
            let cur = self.entities[id];
            let pos = cur.position;
            let raw = offset(pos, direction);
            if !self.contains(raw) {
                Err(MoveEntityError::OutOfBounds { from: pos, to: raw })
            } else {
                let resolved = if direction.z == 0 {
                    self.resolve_direction(pos, direction.x as int, direction.y as int)
                } else {
                    Some(direction)
                };
                match resolved {
                    None => Err(MoveEntityError::Blocked),
                    Some(d) => {
                        let target = offset(pos, d);
                        if !self.contains(target) {
                            Err(MoveEntityError::OutOfBounds { from: pos, to: target })
                        } else if self.diagonal_blocked(pos, target) {
                            Err(MoveEntityError::Blocked)
                        } else {
                            match self.chunk_of(target) {
                                None => Err(MoveEntityError::OutOfBounds { from: pos, to: target }),
                                Some(c) => if !self.loaded.contains(c.key()) {
                                    Err(
                                        MoveEntityError::ChunkNotLoaded {
                                            from: pos,
                                            to: target,
                                            chunk: c,
                                        },
                                    )
                                } else if cur.movement is Some && crate::geometry::step_direction_spec(
                                    cur.movement.unwrap().origin,
                                    cur.movement.unwrap().target,
                                ) == d {
                                    Err(MoveEntityError::MovementInProgress)
                                } else {
                                    Ok(
                                        MovePlan {
                                            target,
                                            direction: d,
                                            facing_left: facing_after(d, cur.facing_left),
                                        },
                                    )
                                },
                            }
                        }
                    },
                }
            }
        }
    }

    /// The timing request issued for an accepted plan.
    pub open spec fn timing_query(self, id: u64, plan: MovePlan) -> MoveTimingQuery {
        MoveTimingQuery {
            position: self.entities[id].position,
            target: plan.target,
            direction: plan.direction,
            ticks_per_tile: self.config.movement_ticks_per_tile,
            in_progress: self.entities[id].movement,
        }
    }

    /// State after starting an accepted move with the given timing.
    pub open spec fn commit_move(self, id: u64, plan: MovePlan, timing: MoveTiming) -> WorldModel {
        let cur = self.entities[id];
        WorldModel {
            entities: self.entities.insert(
                id,
                EntityState {
                    position: cur.position,
                    facing_left: plan.facing_left,
                    is_prone: cur.is_prone,
                    movement: Some(
                        EntityMovement {
                            origin: cur.position,
                            target: plan.target,
                            start_bits: timing.start_bits,
                            elapsed_ticks: 0,
                            total_ticks: if timing.total_ticks == 0 {
                                1
                            } else {
                                timing.total_ticks
                            },
                        },
                    ),
                },
            ),
            ..self
        }
    }
}

/// One tick of an entity's movement: progress advances; from 75% on the
/// entity stands on the target; at completion the move ends there.
pub open spec fn advance_entity(e: EntityState) -> EntityState {
    match e.movement {
        None => e,
        Some(m) => {
            let total1: int = if m.total_ticks == 0 {
                1
            } else {
                m.total_ticks as int
            };
            let inc: int = if m.elapsed_ticks == u32::MAX {
                u32::MAX as int
            } else {
                m.elapsed_ticks + 1
            };
            let el: int = if inc < total1 {
                inc
            } else {
                total1
            };
            let m2 = EntityMovement { elapsed_ticks: el as u32, ..m };
            if el >= m.total_ticks {
                EntityState { position: m.target, movement: None, ..e }
            } else if progress_spec(m2) >= 75 {
                EntityState { position: m.target, movement: Some(m2), ..e }
            } else {
                EntityState { movement: Some(m2), ..e }
            }
        },
    }
}

impl WorldModel {
    pub open spec fn any_moving(self) -> bool {
        exists|id: u64| #[trigger]
            self.entities.contains_key(id) && self.entities[id].movement is Some
    }

    pub open spec fn next_tick(self) -> u64 {
        if self.tick == u64::MAX {
            u64::MAX
        } else {
            (self.tick + 1) as u64
        }
    }

    /// Every entity advanced by one tick of movement.
    pub open spec fn advanced_entities(self) -> Map<u64, EntityState> {
        Map::new(|id: u64| self.entities.contains_key(id), |id: u64| advance_entity(self.entities[id]))
    }

    /// One simulation tick: the clock advances (saturating) and every move progresses.
    pub open spec fn tick_step(self) -> WorldModel {
        if self.any_moving() {
            WorldModel { tick: self.next_tick(), entities: self.advanced_entities(), ..self }
        } else {
            WorldModel { tick: self.next_tick(), ..self }
        }
    }

    /// `n` simulation ticks.
    pub open spec fn advance_n(self, n: nat) -> WorldModel
        decreases n,
    {
        if n == 0 {
            self
        } else {
            self.advance_n((n - 1) as nat).tick_step()
        }
    }
}

/// A flat diagonal step that would squeeze between two solid blocks is
/// refused: when entity `id` steps by `direction` with both horizontal
/// components non-zero and no vertical one, onto an open cell with a floor
/// (a flat step), and both cells beside the diagonal, `(to.x, from.y, z)`
/// and `(from.x, to.y, z)`, are solid stone, the move fails with `Blocked`
/// and the world is unchanged, whatever timing the renderer would assign.
pub proof fn lemma_diagonal_squeeze_refused(w: WorldModel, id: u64, direction: Vec3i, timing: MoveTiming)
    requires
        w.wf(),
        w.entities.contains_key(id),
        direction.x == 1 || direction.x == -1,
        direction.y == 1 || direction.y == -1,
        direction.z == 0,
        ({
            let from = w.entities[id].position;
            let (tx, ty, z) = (from.x + direction.x, from.y + direction.y, from.z as int);
            &&& w.contains_int(tx, ty, z)
            &&& w.block_at_int(tx, ty, z) == Some(BlockType::Air)
            &&& w.block_at_int(tx, ty, z - 1) == Some(BlockType::SolidStone)
            &&& w.block_at_int(tx, from.y as int, z) == Some(BlockType::SolidStone)
            &&& w.block_at_int(from.x as int, ty, z) == Some(BlockType::SolidStone)
        }),
    ensures
        w.command_outcome(WorldCommand::MoveEntity { id, direction }, timing) == (
            Err::<(), MoveEntityError>(MoveEntityError::Blocked),
            w,
        ),
{
    let from = w.entities[id].position;
    assert(w.entity_wf(w.entities[id]));
    let to = offset(from, direction);
    assert(w.contains(from));
    assert(to.x == from.x + direction.x && to.y == from.y + direction.y && to.z == from.z);
    assert(w.resolve_direction(from, direction.x as int, direction.y as int) == Some(
        Vec3i { x: direction.x, y: direction.y, z: 0 },
    ));
    assert(crate::geometry::step_direction_spec(from, to) == direction);
    assert(w.diagonal_blocked(from, to));
}

/// A refused command changes nothing, and only a move can be refused.
pub proof fn lemma_refusal_changes_nothing(w: WorldModel, command: WorldCommand, timing: MoveTiming)
    ensures
        w.command_outcome(command, timing).0 is Err ==> w.command_outcome(command, timing).1 == w,
        w.command_outcome(command, timing).0 is Err ==> command is MoveEntity,
{
}

/// How far a move has come, in whole percent, when `elapsed * 100` fits a
/// `u32` (the counters are `u32`).
pub open spec fn percent_done(elapsed: int, total: int) -> int {
    elapsed * 100 / total
}

/// One tick of a move: the elapsed count grows by one; the move ends on
/// the target once the last tick is reached; while it lasts the entity
/// stands on the target from three quarters of the way on and keeps its
/// place before that.
pub proof fn lemma_tick_places_mover(e: EntityState)
    requires
        e.movement matches Some(m) && movement_wf(m) && (m.elapsed_ticks + 1) * 100 <= u32::MAX,
    ensures
        ({
            let m = e.movement.unwrap();
            let n = advance_entity(e);
            let el = m.elapsed_ticks + 1;
            &&& n.facing_left == e.facing_left
            &&& n.is_prone == e.is_prone
            &&& el == m.total_ticks ==> n.position == m.target && n.movement is None
            &&& el < m.total_ticks ==> {
                &&& n.movement == Some(EntityMovement { elapsed_ticks: el as u32, ..m })
                &&& percent_done(el, m.total_ticks as int) >= 75 ==> n.position == m.target
                &&& percent_done(el, m.total_ticks as int) < 75 ==> n.position == e.position
            }
        }),
{
}

/// A newly generated world carves caves only in the playable band: every
/// voxel more than one level away from level 0 is solid stone, whatever
/// the cave field holds there.
pub proof fn lemma_generated_depths_are_solid(config: WorldConfig, cave_open: Seq<bool>, i: int)
    requires
        config.supported(),
        0 <= i < config.block_count(),
    ensures
        ({
            let w = WorldModel::initial(config, cave_open);
            let p = w.voxel_position(i);
            p.z > 1 || p.z < -1 ==> w.blocks[i] == BlockType::SolidStone
        }),
{
    let w = WorldModel::initial(config, cave_open);
    crate::terrain::lemma_caves_only_in_band(w.voxel_position(i), cave_open[i]);
}

/// The tick after `n` more ticks: `tick + n`, held at `u64::MAX`.
pub open spec fn tick_plus(tick: u64, n: nat) -> u64 {
    if tick + n >= u64::MAX {
        u64::MAX
    } else {
        (tick + n) as u64
    }
}

/// `n` ticks move the clock forward by exactly `n` (saturating).
pub proof fn lemma_advance_n_tick(w: WorldModel, n: nat)
    ensures
        w.advance_n(n).tick == tick_plus(w.tick, n),
    decreases n,
{
    if n > 0 {
        lemma_advance_n_tick(w, (n - 1) as nat);
    }
}

/// Why a spawn was refused.
#[derive(Debug, Clone, Copy, PartialEq, Eq, Structural)]
pub enum SpawnError {
    OutOfBounds { position: Vec3i },
}

/// Public view of an in-progress move.
#[derive(Debug, Clone, Copy, PartialEq, Eq, Structural)]
pub struct EntityMovementSnapshot {
    pub origin: Vec3i,
    pub target: Vec3i,
    pub start_bits: StartBits,
    pub progress_percent: u8,
    pub occupies_origin: bool,
    pub occupies_target: bool,
}

/// Public view of one entity.
#[derive(Debug, Clone, Copy, PartialEq, Eq, Structural)]
pub struct EntitySnapshot {
    pub id: u64,
    pub position: Vec3i,
    pub facing_left: bool,
    pub is_prone: bool,
    pub movement: Option<EntityMovementSnapshot>,
}

pub open spec fn movement_snapshot_spec(m: EntityMovement) -> EntityMovementSnapshot {
    EntityMovementSnapshot {
        origin: m.origin,
        target: m.target,
        start_bits: m.start_bits,
        progress_percent: progress_spec(m) as u8,
        occupies_origin: occupies_origin_spec(m),
        occupies_target: occupies_target_spec(m),
    }
}

pub open spec fn entity_snapshot_spec(id: u64, e: EntityState) -> EntitySnapshot {
    EntitySnapshot {
        id,
        position: e.position,
        facing_left: e.facing_left,
        is_prone: e.is_prone,
        movement: match e.movement {
            Some(m) => Some(movement_snapshot_spec(m)),
            None => None,
        },
    }
}

impl WorldModel {
    /// Smallest id not in use at or above `from`.
    pub open spec fn is_first_free_id(self, from: u64, id: u64) -> bool {
        &&& from <= id
        &&& !self.entities.contains_key(id)
        &&& forall|k: u64| from <= k < id ==> #[trigger] self.entities.contains_key(k)
    }

    pub open spec fn auto_id_start(self) -> u64 {
        if self.next_entity_id == 0 {
            1
        } else {
            self.next_entity_id
        }
    }

    /// The entity map after (re)placing an idle entity `id` at `position`.
    pub open spec fn with_spawned(self, id: u64, position: Vec3i) -> WorldModel {
        let bumped: u64 = if id == u64::MAX {
            u64::MAX
        } else {
            (id + 1) as u64
        };
        WorldModel {
            entities: self.entities.insert(
                id,
                EntityState { position, facing_left: false, is_prone: false, movement: None },
            ),
            next_entity_id: if self.next_entity_id >= bumped {
                self.next_entity_id
            } else {
                bumped
            },
            ..self
        }
    }
}

/// `v` lists one snapshot per entity, in strictly increasing id order.
pub open spec fn entity_listing(v: Seq<EntitySnapshot>, ents: Map<u64, EntityState>) -> bool {
    &&& forall|i: int, j: int| 0 <= i < j < v.len() ==> v[i].id < v[j].id
    &&& forall|i: int|
        0 <= i < v.len() ==> ents.contains_key(#[trigger] v[i].id) && v[i] == entity_snapshot_spec(
            v[i].id,
            ents[v[i].id],
        )
    &&& forall|k: u64| #[trigger] ents.contains_key(k) ==> exists|i: int| 0 <= i < v.len() && v[i].id == k
}

/// Logic-essential snapshot of the world.
pub struct WorldSnapshot {
    pub tick: u64,
    pub chunk_edge: u32,
    pub world_chunks: Vec3u,
    /// The blocks of the loaded chunks with their positions, in block-array
    /// order (z-major, x fastest).
    pub terrain_blocks: Vec<(Vec3i, BlockType)>,
    pub loaded_chunks: Vec<Vec3i>,
    pub entities: Vec<EntitySnapshot>,
}

impl WorldModel {
    /// The voxel stored at index `i` of the block array.
    pub open spec fn voxel_position(self, i: int) -> Vec3i {
        let sx = self.config.size_x();
        let sy = self.config.size_y();
        Vec3i {
            x: (i % sx + self.min_x()) as i32,
            y: ((i / sx) % sy + self.min_y()) as i32,
            z: (i / (sx * sy) + self.min_z()) as i32,
        }
    }

    /// Every chunk of the grid.
    pub open spec fn grid_chunks(self) -> Set<(i32, i32, i32)> {
        Set::new(|c: (i32, i32, i32)| self.in_grid(c))
    }

    /// The voxel at block index `i` lies in a loaded chunk.
    pub open spec fn voxel_loaded(self, i: int) -> bool {
        match self.chunk_of(self.voxel_position(i)) {
            Some(c) => self.loaded.contains(c.key()),
            None => false,
        }
    }

    /// The positions and blocks of the first `n` voxels of the block array
    /// that lie in loaded chunks, in block-array order.
    pub open spec fn terrain_listing(self, n: int) -> Seq<(Vec3i, BlockType)>
        decreases n,
    {
        if n <= 0 {
            Seq::empty()
        } else {
            let prev = self.terrain_listing(n - 1);
            if self.voxel_loaded(n - 1) {
                prev.push((self.voxel_position(n - 1), self.blocks[n - 1]))
            } else {
                prev
            }
        }
    }
}

/// Every listed terrain voxel lies in a loaded chunk.
pub proof fn lemma_terrain_in_loaded_chunks(w: WorldModel, n: int)
    ensures
        forall|j: int|
            0 <= j < w.terrain_listing(n).len() ==> (w.chunk_of(#[trigger] w.terrain_listing(n)[j].0) matches Some(c)
                && w.loaded.contains(c.key())),
    decreases n,
{
    if n > 0 {
        lemma_terrain_in_loaded_chunks(w, n - 1);
        let prev = w.terrain_listing(n - 1);
        let cur = w.terrain_listing(n);
        assert forall|j: int| 0 <= j < cur.len() implies (w.chunk_of(#[trigger] cur[j].0) matches Some(c)
            && w.loaded.contains(c.key())) by {
            if j < prev.len() {
                assert(cur[j] == prev[j]);
            }
        }
    }
}

/// A listing over more voxels is at least as long.
proof fn lemma_terrain_listing_grows(w: WorldModel, m: int, n: int)
    requires
        m <= n,
    ensures
        w.terrain_listing(m).len() <= w.terrain_listing(n).len(),
    decreases n - m,
{
    if m < n {
        lemma_terrain_listing_grows(w, m, n - 1);
    }
}

/// A world of at least one voxel whose grid chunks are all loaded (as a
/// new world's are) lists some terrain.
pub proof fn lemma_new_world_has_terrain(w: WorldModel)
    requires
        w.wf(),
        w.config.block_count() > 0,
        w.loaded == w.grid_chunks(),
    ensures
        w.terrain_listing(w.blocks.len() as int).len() > 0,
{
    let sx = w.config.size_x();
    let sy = w.config.size_y();
    let sz = w.config.size_z();
    assert(sx >= 1 && sy >= 1 && sz >= 1) by (nonlinear_arith)
        requires
            sx * sy * sz > 0,
            sx >= 0,
            sy >= 0,
            sz >= 0,
    ;
    assert(sx * sy >= 1) by (nonlinear_arith)
        requires
            sx >= 1,
            sy >= 1,
    ;
    let p = w.voxel_position(0);
    assert(0int % sx == 0 && 0int / sx == 0 && 0int % sy == 0 && 0int / (sx * sy) == 0);
    assert(w.contains(p));
    lemma_chunk_of_in_grid(w, p);
    assert(w.voxel_loaded(0));
    assert(w.terrain_listing(0).len() == 0);
    assert(w.terrain_listing(1) == w.terrain_listing(0).push((p, w.blocks[0])));
    assert(w.terrain_listing(1).len() == 1);
    lemma_terrain_listing_grows(w, 1, w.blocks.len() as int);
}

impl WorldSnapshot {
    /// The snapshot reports exactly the world `w`.
    pub open spec fn describes(self, w: WorldModel) -> bool {
        &&& self.tick == w.tick
        &&& self.chunk_edge == w.config.chunk_edge
        &&& self.world_chunks == w.config.world_chunks
        &&& self.terrain_blocks@ == w.terrain_listing(w.blocks.len() as int)
        &&& sorted_listing(self.loaded_chunks@, w.loaded)
        &&& entity_listing(self.entities@, w.entities)
    }
}

impl WorldSnapshot {
    /// Field-for-field equality of two snapshots.
    pub fn same_as(&self, other: &WorldSnapshot) -> (r: bool)
        ensures
            r == (self.tick == other.tick && self.chunk_edge == other.chunk_edge
                && self.world_chunks == other.world_chunks && self.terrain_blocks@
                == other.terrain_blocks@ && self.loaded_chunks@
                == other.loaded_chunks@ && self.entities@ == other.entities@),
    {
        if self.tick != other.tick || self.chunk_edge != other.chunk_edge
            || self.world_chunks != other.world_chunks
            || self.terrain_blocks.len() != other.terrain_blocks.len()
            || self.loaded_chunks.len() != other.loaded_chunks.len()
            || self.entities.len() != other.entities.len() {
            return false;
        }
        let t = self.terrain_blocks.len();
        let mut k: usize = 0;
        while k < t
            invariant
                t == self.terrain_blocks@.len(),
                t == other.terrain_blocks@.len(),
                k <= t,
                forall|q: int| 0 <= q < k ==> self.terrain_blocks@[q] == other.terrain_blocks@[q],
            decreases t - k,
        {
            let (pa, ba) = self.terrain_blocks[k];
            let (pb, bb) = other.terrain_blocks[k];
            if pa != pb || ba != bb {
                return false;
            }
            k = k + 1;
        }
        assert(self.terrain_blocks@ =~= other.terrain_blocks@);
        let n = self.loaded_chunks.len();
        let mut i: usize = 0;
        while i < n
            invariant
                n == self.loaded_chunks@.len(),
                n == other.loaded_chunks@.len(),
                i <= n,
                forall|k: int| 0 <= k < i ==> self.loaded_chunks@[k] == other.loaded_chunks@[k],
            decreases n - i,
        {
            if self.loaded_chunks[i] != other.loaded_chunks[i] {
                return false;
            }
            i = i + 1;
        }
        assert(self.loaded_chunks@ =~= other.loaded_chunks@);
        let m = self.entities.len();
        let mut j: usize = 0;
        while j < m
            invariant
                m == self.entities@.len(),
                m == other.entities@.len(),
                j <= m,
                forall|k: int| 0 <= k < j ==> self.entities@[k] == other.entities@[k],
            decreases m - j,
        {
            if self.entities[j] != other.entities[j] {
                return false;
            }
            j = j + 1;
        }
        assert(self.entities@ =~= other.entities@);
        true
    }
}

/// An entity map has exactly one listing.
pub proof fn lemma_entity_listing_unique(
    a: Seq<EntitySnapshot>,
    b: Seq<EntitySnapshot>,
    ents: Map<u64, EntityState>,
)
    requires
        entity_listing(a, ents),
        entity_listing(b, ents),
    ensures
        a == b,
{
    let lt = |x: EntitySnapshot, y: EntitySnapshot| x.id < y.id;
    assert forall|x: EntitySnapshot| a.contains(x) <==> b.contains(x) by {
        if a.contains(x) {
            let i = choose|i: int| 0 <= i < a.len() && a[i] == x;
            assert(ents.contains_key(a[i].id));
            let j = choose|j: int| 0 <= j < b.len() && b[j].id == x.id;
            assert(ents.contains_key(b[j].id));
            assert(b[j] == x);
        }
        if b.contains(x) {
            let i = choose|i: int| 0 <= i < b.len() && b[i] == x;
            assert(ents.contains_key(b[i].id));
            let j = choose|j: int| 0 <= j < a.len() && a[j].id == x.id;
            assert(ents.contains_key(a[j].id));
            assert(a[j] == x);
        }
    }
    crate::ordered::lemma_strictly_sorted_unique(a, b, lt);
}

/// Two snapshots of the same world agree field for field.
pub proof fn lemma_snapshot_unique(a: WorldSnapshot, b: WorldSnapshot, w: WorldModel)
    requires
        a.describes(w),
        b.describes(w),
    ensures
        a.tick == b.tick,
        a.chunk_edge == b.chunk_edge,
        a.world_chunks == b.world_chunks,
        a.terrain_blocks@ == b.terrain_blocks@,
        a.loaded_chunks@ == b.loaded_chunks@,
        a.entities@ == b.entities@,
{
    crate::ordered::lemma_sorted_listing_unique(a.loaded_chunks@, b.loaded_chunks@, w.loaded);
    lemma_entity_listing_unique(a.entities@, b.entities@, w.entities);
}

/// A command the simulation accepts.
#[derive(Debug, Clone, Copy, PartialEq, Eq, Structural)]
pub enum WorldCommand {
    MoveEntity { id: u64, direction: Vec3i },
    AdvanceTicks { count: u32 },
    SetChunkLoaded { chunk: Vec3i, loaded: bool },
}

impl WorldModel {
    /// State after `AdvanceTicks { count }`: exactly `count` ticks.
    pub open spec fn after_advance(self, count: u32) -> WorldModel {
        self.advance_n(count as nat)
    }

    /// State after `SetChunkLoaded`.
    pub open spec fn after_set_loaded(self, chunk: Vec3i, loaded: bool) -> WorldModel {
        WorldModel {
            loaded: if loaded {
                self.loaded.insert(chunk.key())
            } else {
                self.loaded.remove(chunk.key())
            },
            ..self
        }
    }

    /// Result and successor state of a command, given the timing the
    /// renderer assigns to a newly started move.
    pub open spec fn command_outcome(self, command: WorldCommand, timing: MoveTiming) -> (
        Result<(), MoveEntityError>,
        WorldModel,
    ) {
        match command {
            WorldCommand::MoveEntity { id, direction } => match self.plan_move(id, direction) {
                Err(e) => (Err(e), self),
                Ok(p) => (Ok(()), self.commit_move(id, p, timing)),
            },
            WorldCommand::AdvanceTicks { count } => (Ok(()), self.after_advance(count)),
            WorldCommand::SetChunkLoaded { chunk, loaded } => (
                Ok(()),
                self.after_set_loaded(chunk, loaded),
            ),
        }
    }

    /// The timing request a command issues, if any.
    pub open spec fn command_query(self, command: WorldCommand) -> Option<MoveTimingQuery> {
        match command {
            WorldCommand::MoveEntity { id, direction } => match self.plan_move(id, direction) {
                Ok(p) => Some(self.timing_query(id, p)),
                Err(_) => None,
            },
            _ => None,
        }
    }
}

impl WorldModel {
    /// A freshly built world: generated terrain, every grid chunk resident,
    /// no entities, tick 0.
    pub open spec fn initial(config: WorldConfig, cave_open: Seq<bool>) -> WorldModel {
        let cfg = WorldConfig {
            movement_ticks_per_tile: if config.movement_ticks_per_tile == 0 {
                1
            } else {
                config.movement_ticks_per_tile
            },
            ..config
        };
        let shape = WorldModel {
            tick: 0,
            config: cfg,
            blocks: Seq::empty(),
            revisions: Seq::empty(),
            entities: Map::empty(),
            loaded: Set::empty(),
            next_entity_id: 1,
        };
        WorldModel {
            blocks: Seq::new(
                config.block_count() as nat,
                |i: int| crate::terrain::voxel_block_spec(shape.voxel_position(i), cave_open[i]),
            ),
            revisions: Seq::new(shape.chunk_count() as nat, |i: int| 0u64),
            loaded: shape.grid_chunks(),
            ..shape
        }
    }
}

/// Internal authoritative world state.
#[derive(Debug, Clone)]
pub struct WorldState {
    tick: u64,
    config: WorldConfig,
    blocks: Vec<BlockType>,
    revisions: Vec<u64>,
    entities: BTreeMap<u64, EntityState>,
    loaded_chunks: BTreeSet<(i32, i32, i32)>,
    next_entity_id: u64,
}

impl View for WorldState {
    type V = WorldModel;

    closed spec fn view(&self) -> WorldModel {
        WorldModel {
            tick: self.tick,
            config: self.config,
            blocks: self.blocks@,
            revisions: self.revisions@,
            entities: self.entities@,
            loaded: self.loaded_chunks@,
            next_entity_id: self.next_entity_id,
        }
    }
}


/// A voxel inside a box of `sx * sy * sz` voxels has an index below the volume.
pub proof fn lemma_voxel_index_bound(lx: int, ly: int, lz: int, sx: int, sy: int, sz: int)
    requires
        0 <= lx < sx,
        0 <= ly < sy,
        0 <= lz < sz,
    ensures
        0 <= lz * sx * sy + ly * sx + lx < sx * sy * sz,
        lz * sx * sy + ly * sx <= lz * sx * sy + (sy - 1) * sx,
{
    assert(0 <= ly * sx) by (nonlinear_arith)
        requires
            0 <= ly,
            0 <= sx,
    ;
    assert(0 <= lz * sx * sy) by (nonlinear_arith)
        requires
            0 <= lz,
            0 <= sx,
            0 <= sy,
    ;
    assert(ly * sx + lx < sy * sx) by (nonlinear_arith)
        requires
            0 <= lx < sx,
            0 <= ly < sy,
    ;
    assert(lz * sx * sy + sy * sx <= sx * sy * sz) by (nonlinear_arith)
        requires
            0 <= lz < sz,
            0 <= sx,
            0 <= sy,
    ;
    assert(ly * sx <= (sy - 1) * sx) by (nonlinear_arith)
        requires
            ly <= sy - 1,
            0 <= sx,
    ;
}

fn advance_entity_exec(e: EntityState) -> (r: EntityState)
    ensures
        r == advance_entity(e),
{
    match e.movement {
        None => e,
        Some(m) => {
            let total1 = if m.total_ticks == 0 {
                1
            } else {
                m.total_ticks
            };
            let inc = m.elapsed_ticks.saturating_add(1);
            let el = if inc < total1 {
                inc
            } else {
                total1
            };
            let m2 = EntityMovement { elapsed_ticks: el, ..m };
            if el >= m.total_ticks {
                EntityState { position: m.target, movement: None, ..e }
            } else if progress_percent(m2) >= 75 {
                EntityState { position: m.target, movement: Some(m2), ..e }
            } else {
                EntityState { movement: Some(m2), ..e }
            }
        },
    }
}

/// Progress of a move in whole percent.
pub fn progress_percent(m: EntityMovement) -> (r: u32)
    ensures
        r == progress_spec(m),
{
    let scaled: u32 = if m.elapsed_ticks > u32::MAX / 100 {
        u32::MAX
    } else {
        m.elapsed_ticks * 100
    };
    let total = if m.total_ticks == 0 {
        1
    } else {
        m.total_ticks
    };
    scaled / total
}

/// Advancing a well-formed entity keeps it well formed.
proof fn lemma_advance_entity_wf(m: WorldModel, e: EntityState)
    requires
        m.entity_wf(e),
    ensures
        m.entity_wf(advance_entity(e)),
{
}

/// Progress of a stored move is below 100 percent.
proof fn lemma_progress_below_100(m: EntityMovement)
    requires
        movement_wf(m),
    ensures
        0 <= progress_spec(m) < 100,
{
    let t = m.total_ticks as int;
    let e = m.elapsed_ticks as int;
    let scaled = if e * 100 > u32::MAX {
        u32::MAX as int
    } else {
        e * 100
    };
    assert(0 <= scaled <= e * 100);
    assert(scaled / t <= (e * 100) / t) by (nonlinear_arith)
        requires
            0 <= scaled <= e * 100,
            t >= 1,
    ;
    assert((e * 100) / t < 100) by (nonlinear_arith)
        requires
            0 <= e < t,
    ;
    assert(0 <= scaled / t) by (nonlinear_arith)
        requires
            0 <= scaled,
            t >= 1,
    ;
}

fn snapshot_entity(id: u64, e: EntityState) -> (r: EntitySnapshot)
    requires
        match e.movement {
            Some(m) => movement_wf(m),
            None => true,
        },
    ensures
        r == entity_snapshot_spec(id, e),
{
    let movement = match e.movement {
        Some(m) => {
            let p = progress_percent(m);
            proof {
                lemma_progress_below_100(m);
            }
            Some(
                EntityMovementSnapshot {
                    origin: m.origin,
                    target: m.target,
                    start_bits: m.start_bits,
                    progress_percent: p as u8,
                    occupies_origin: p < 75,
                    occupies_target: p >= 25,
                },
            )
        },
        None => None,
    };
    EntitySnapshot {
        id,
        position: e.position,
        facing_left: e.facing_left,
        is_prone: e.is_prone,
        movement,
    }
}

/// The chunk count never exceeds the voxel count.
proof fn lemma_chunk_count_le_blocks(c: WorldConfig)
    requires
        c.chunk_edge >= 1,
    ensures
        c.world_chunks.x * c.world_chunks.y * c.world_chunks.z <= c.block_count(),
{
    let (wx, wy, wz, e) = (
        c.world_chunks.x as int,
        c.world_chunks.y as int,
        c.world_chunks.z as int,
        c.chunk_edge as int,
    );
    assert(wx * wy * wz <= (wx * e) * (wy * e) * (wz * e)) by (nonlinear_arith)
        requires
            wx >= 0,
            wy >= 0,
            wz >= 0,
            e >= 1,
    ;
}

fn build_loaded_chunks(w: Vec3u) -> (r: BTreeSet<(i32, i32, i32)>)
    requires
        w.x <= i32::MAX,
        w.y <= i32::MAX,
        w.z <= i32::MAX,
    ensures
        forall|c: (i32, i32, i32)|
            r@.contains(c) <==> (-(w.x / 2) <= c.0 < w.x - w.x / 2 && -(w.y / 2) <= c.1 < w.y
                - w.y / 2 && -(w.z / 2) <= c.2 < w.z - w.z / 2),
{
    let (hx, hy, hz) = ((w.x / 2) as i64, (w.y / 2) as i64, (w.z / 2) as i64);
    let mut set: BTreeSet<(i32, i32, i32)> = BTreeSet::new();
    let mut z: i64 = 0;
    while z < w.z as i64
        invariant
            0 <= z <= w.z,
            hx == w.x / 2,
            hy == w.y / 2,
            hz == w.z / 2,
            w.x <= i32::MAX,
            w.y <= i32::MAX,
            w.z <= i32::MAX,
            forall|c: (i32, i32, i32)|
                set@.contains(c) <==> (0 <= c.0 + hx < w.x && 0 <= c.1 + hy < w.y && 0 <= c.2 + hz
                    < z),
        decreases w.z - z,
    {
        let mut y: i64 = 0;
        while y < w.y as i64
            invariant
                0 <= z < w.z,
                0 <= y <= w.y,
                hx == w.x / 2,
                hy == w.y / 2,
                hz == w.z / 2,
                w.x <= i32::MAX,
                w.y <= i32::MAX,
                w.z <= i32::MAX,
                forall|c: (i32, i32, i32)|
                    set@.contains(c) <==> (0 <= c.0 + hx < w.x && 0 <= c.1 + hy < w.y && (0 <= c.2
                        + hz < z || (c.2 + hz == z && c.1 + hy < y))),
            decreases w.y - y,
        {
            let mut x: i64 = 0;
            while x < w.x as i64
                invariant
                    0 <= z < w.z,
                    0 <= y < w.y,
                    0 <= x <= w.x,
                    hx == w.x / 2,
                    hy == w.y / 2,
                    hz == w.z / 2,
                    w.x <= i32::MAX,
                    w.y <= i32::MAX,
                    w.z <= i32::MAX,
                    forall|c: (i32, i32, i32)|
                        set@.contains(c) <==> (0 <= c.0 + hx < w.x && 0 <= c.1 + hy < w.y && (0
                            <= c.2 + hz < z || (c.2 + hz == z && c.1 + hy < y) || (c.2 + hz == z
                            && c.1 + hy == y && c.0 + hx < x))),
                decreases w.x - x,
            {
                set.insert(((x - hx) as i32, (y - hy) as i32, (z - hz) as i32));
                x = x + 1;
            }
            y = y + 1;
        }
        z = z + 1;
    }
    set
}

impl WorldState {
    pub fn config(&self) -> (r: WorldConfig)
        ensures
            r == self@.config,
    {
        self.config
    }

    /// Current simulation tick.
    pub fn tick_count(&self) -> (r: u64)
        ensures
            r == self@.tick,
    {
        self.tick
    }

    pub fn world_chunks(&self) -> (r: Vec3u)
        ensures
            r == self@.config.world_chunks,
    {
        self.config.world_chunks
    }

    pub fn chunk_edge(&self) -> (r: u32)
        ensures
            r == self@.config.chunk_edge,
    {
        self.config.chunk_edge
    }

    /// The id that automatic spawning tries first.
    pub fn next_entity_id(&self) -> (r: u64)
        ensures
            r == self@.next_entity_id,
    {
        self.next_entity_id
    }

    fn size_i64(&self) -> (r: (i64, i64, i64))
        requires
            self@.wf(),
        ensures
            r.0 == self@.config.size_x(),
            r.1 == self@.config.size_y(),
            r.2 == self@.config.size_z(),
            0 <= r.0 <= i32::MAX,
            0 <= r.1 <= i32::MAX,
            0 <= r.2 <= i32::MAX,
    {
        let e = self.config.chunk_edge as i64;
        let w = self.config.world_chunks;
        assert(0 <= w.x * e) by (nonlinear_arith)
            requires
                0 <= w.x,
                0 <= e,
        ;
        assert(0 <= w.y * e) by (nonlinear_arith)
            requires
                0 <= w.y,
                0 <= e,
        ;
        assert(0 <= w.z * e) by (nonlinear_arith)
            requires
                0 <= w.z,
                0 <= e,
        ;
        (w.x as i64 * e, w.y as i64 * e, w.z as i64 * e)
    }

    /// Inclusive voxel bounds `(min, max)` of the world box centered on the origin.
    pub fn centered_bounds(&self) -> (r: (Vec3i, Vec3i))
        requires
            self@.wf(),
        ensures
            r.0.x == self@.min_x(),
            r.0.y == self@.min_y(),
            r.0.z == self@.min_z(),
            r.1.x == self@.max_x(),
            r.1.y == self@.max_y(),
            r.1.z == self@.max_z(),
    {
        let (sx, sy, sz) = self.size_i64();
        let min = Vec3i { x: (-(sx / 2)) as i32, y: (-(sy / 2)) as i32, z: (-(sz / 2)) as i32 };
        let max = Vec3i {
            x: (-(sx / 2) + sx - 1) as i32,
            y: (-(sy / 2) + sy - 1) as i32,
            z: (-(sz / 2) + sz - 1) as i32,
        };
        (min, max)
    }

    /// Same as [`Self::centered_bounds`].
    pub fn world_bounds(&self) -> (r: (Vec3i, Vec3i))
        requires
            self@.wf(),
        ensures
            r.0.x == self@.min_x(),
            r.0.y == self@.min_y(),
            r.0.z == self@.min_z(),
            r.1.x == self@.max_x(),
            r.1.y == self@.max_y(),
            r.1.z == self@.max_z(),
    {
        self.centered_bounds()
    }

    fn contains_i64(&self, x: i64, y: i64, z: i64) -> (r: bool)
        requires
            self@.wf(),
        ensures
            r == self@.contains_int(x as int, y as int, z as int),
    {
        let (sx, sy, sz) = self.size_i64();
        let (mx, my, mz) = (-(sx / 2), -(sy / 2), -(sz / 2));
        mx <= x && x <= mx + sx - 1 && my <= y && y <= my + sy - 1 && mz <= z && z <= mz + sz - 1
    }

    /// Whether `position` lies inside the world box.
    pub fn contains_position(&self, position: Vec3i) -> (r: bool)
        requires
            self@.wf(),
        ensures
            r == self@.contains(position),
    {
        self.contains_i64(position.x as i64, position.y as i64, position.z as i64)
    }

    /// Block at an integer point (`None` outside the world).
    fn block_at_i64(&self, x: i64, y: i64, z: i64) -> (r: Option<BlockType>)
        requires
            self@.wf(),
        ensures
            r == self@.block_at_int(x as int, y as int, z as int),
    {
        if !self.contains_i64(x, y, z) {
            return None;
        }
        let (sx, sy, sz) = self.size_i64();
        let lx = x + sx / 2;
        let ly = y + sy / 2;
        let lz = z + sz / 2;
        proof {
            lemma_voxel_index_bound(lx as int, ly as int, lz as int, sx as int, sy as int, sz as int);
            assert(self@.config.block_count() == sx * sy * sz);
            assert(0 <= ly * sx) by (nonlinear_arith)
                requires
                    0 <= ly,
                    0 <= sx,
            ;
        }
        proof {
            assert(1 <= sy);
            assert(lz * sx <= lz * sx * sy) by (nonlinear_arith)
                requires
                    0 <= lz,
                    0 <= sx,
                    1 <= sy,
            ;
            assert(0 <= lz * sx) by (nonlinear_arith)
                requires
                    0 <= lz,
                    0 <= sx,
            ;
        }
        let a = lz as usize * sx as usize;
        let b = a * sy as usize;
        let c = ly as usize * sx as usize;
        let index = b + c + lx as usize;
        Some(self.blocks[index])
    }

    /// Block at `position` (`None` outside the world).
    pub fn block_at(&self, position: Vec3i) -> (r: Option<BlockType>)
        requires
            self@.wf(),
        ensures
            r == self@.block_at(position),
    {
        self.block_at_i64(position.x as i64, position.y as i64, position.z as i64)
    }

    fn solid_i64(&self, x: i64, y: i64, z: i64) -> (r: bool)
        requires
            self@.wf(),
        ensures
            r == self@.solid_int(x as int, y as int, z as int),
    {
        match self.block_at_i64(x, y, z) {
            Some(BlockType::SolidStone) => true,
            _ => false,
        }
    }

    /// Chunk grid coordinate containing `position`, `None` outside the world.
    pub fn world_position_to_chunk_coord(&self, position: Vec3i) -> (r: Option<Vec3i>)
        requires
            self@.wf(),
        ensures
            r == self@.chunk_of(position),
    {
        if !self.contains_position(position) {
            return None;
        }
        let (sx, sy, sz) = self.size_i64();
        let e = self.config.chunk_edge as i64;
        let w = self.config.world_chunks;
        let lx = position.x as i64 + sx / 2;
        let ly = position.y as i64 + sy / 2;
        let lz = position.z as i64 + sz / 2;
        proof {
            assert(lx / e <= lx) by (nonlinear_arith)
                requires
                    0 <= lx,
                    1 <= e,
            ;
            assert(ly / e <= ly) by (nonlinear_arith)
                requires
                    0 <= ly,
                    1 <= e,
            ;
            assert(lz / e <= lz) by (nonlinear_arith)
                requires
                    0 <= lz,
                    1 <= e,
            ;
        }
        Some(
            Vec3i {
                x: (lx / e - w.x as i64 / 2) as i32,
                y: (ly / e - w.y as i64 / 2) as i32,
                z: (lz / e - w.z as i64 / 2) as i32,
            },
        )
    }


    /// Highest cell of column `(x, y)` an entity can stand in.
    fn highest_supported_z(&self, x: i32, y: i32) -> (r: Option<i32>)
        requires
            self@.wf(),
        ensures
            match r {
                Some(z) => self@.highest_supported_z(x as int, y as int) == Some(z as int),
                None => self@.highest_supported_z(x as int, y as int) is None,
            },
    {
        let (min, max) = self.centered_bounds();
        if x < min.x || x > max.x || y < min.y || y > max.y {
            return None;
        }
        let mut z = max.z;
        while z > min.z
            invariant
                self@.wf(),
                min.z - 1 <= z <= max.z,
                min.z == self@.min_z(),
                max.z == self@.max_z(),
                self@.in_xy(x as int, y as int),
                self@.supported_from(x as int, y as int, self@.max_z()) == self@.supported_from(
                    x as int,
                    y as int,
                    z as int,
                ),
            decreases z - min.z,
        {
            let here = self.block_at_i64(x as i64, y as i64, z as i64);
            let below = self.block_at_i64(x as i64, y as i64, z as i64 - 1);
            if matches!(here, Some(BlockType::Air)) && matches!(below, Some(BlockType::SolidStone)) {
                return Some(z);
            }
            z = z - 1;
        }
        None
    }

    /// Best spawn cell near `preferred_xy`: the highest supported standing
    /// cell below the world top, ties broken by Manhattan distance to the
    /// clamped preferred column and then by smaller `(x, y)`.
    pub fn find_spawn_position(&self, preferred_xy: Vec3i) -> (r: Option<Vec3i>)
        requires
            self@.wf(),
        ensures
            self@.is_spawn_choice(preferred_xy, r),
    {
        let (min, max) = self.centered_bounds();
        let ghost m = self@;
        let start_x: i64 = if preferred_xy.x < min.x {
            min.x as i64
        } else if preferred_xy.x > max.x {
            max.x as i64
        } else {
            preferred_xy.x as i64
        };
        let start_y: i64 = if preferred_xy.y < min.y {
            min.y as i64
        } else if preferred_xy.y > max.y {
            max.y as i64
        } else {
            preferred_xy.y as i64
        };
        let mut best: Option<(i64, i64, i64, i64)> = None;
        let mut y: i64 = min.y as i64;
        while y <= max.y as i64
            invariant
                self@ == m,
                m.wf(),
                min.x == m.min_x(),
                min.y == m.min_y(),
                max.x == m.max_x(),
                max.y == m.max_y(),
                max.z == m.max_z(),
                start_x == clamp_int(preferred_xy.x as int, m.min_x(), m.max_x()),
                start_y == clamp_int(preferred_xy.y as int, m.min_y(), m.max_y()),
                m.min_y() <= y <= m.max_y() + 1,
                m.max_x() <= i32::MAX / 2 + 1,
                m.max_y() <= i32::MAX / 2 + 1,
                -(i32::MAX / 2 + 1) <= m.min_x(),
                -(i32::MAX / 2 + 1) <= m.min_y(),
                match best {
                    None => forall|x: int, yy: int| #[trigger]
                        m.in_xy(x, yy) && yy < y ==> m.spawn_height(x, yy) is None,
                    Some(b) => {
                        &&& m.in_xy(b.2 as int, b.3 as int)
                        &&& b.3 < y
                        &&& m.spawn_height(b.2 as int, b.3 as int) == Some(b.0 as int)
                        &&& i32::MIN <= b.0 <= i32::MAX
                        &&& b.1 == m.spawn_distance(preferred_xy, b.2 as int, b.3 as int)
                        &&& forall|x: int, yy: int|
                            #[trigger] m.in_xy(x, yy) && yy < y && m.spawn_height(x, yy) is Some
                                ==> !spawn_better(
                                m.spawn_rank(preferred_xy, x, yy),
                                (b.0 as int, b.1 as int, b.2 as int, b.3 as int),
                            )
                    },
                },
            decreases m.max_y() + 1 - y,
        {
            let mut x: i64 = min.x as i64;
            while x <= max.x as i64
                invariant
                    self@ == m,
                    m.wf(),
                    min.x == m.min_x(),
                    min.y == m.min_y(),
                    max.x == m.max_x(),
                    max.y == m.max_y(),
                    max.z == m.max_z(),
                    start_x == clamp_int(preferred_xy.x as int, m.min_x(), m.max_x()),
                    start_y == clamp_int(preferred_xy.y as int, m.min_y(), m.max_y()),
                    m.min_y() <= y <= m.max_y(),
                    m.min_x() <= x <= m.max_x() + 1,
                    m.max_x() <= i32::MAX / 2 + 1,
                    m.max_y() <= i32::MAX / 2 + 1,
                    -(i32::MAX / 2 + 1) <= m.min_x(),
                    -(i32::MAX / 2 + 1) <= m.min_y(),
                    match best {
                        None => forall|xx: int, yy: int| #[trigger]
                            m.in_xy(xx, yy) && (yy < y || (yy == y && xx < x))
                                ==> m.spawn_height(xx, yy) is None,
                        Some(b) => {
                            &&& m.in_xy(b.2 as int, b.3 as int)
                            &&& (b.3 < y || (b.3 == y && b.2 < x))
                            &&& m.spawn_height(b.2 as int, b.3 as int) == Some(b.0 as int)
                            &&& i32::MIN <= b.0 <= i32::MAX
                            &&& b.1 == m.spawn_distance(preferred_xy, b.2 as int, b.3 as int)
                            &&& forall|xx: int, yy: int|
                                #[trigger] m.in_xy(xx, yy) && (yy < y || (yy == y && xx < x))
                                    && m.spawn_height(xx, yy) is Some ==> !spawn_better(
                                    m.spawn_rank(preferred_xy, xx, yy),
                                    (b.0 as int, b.1 as int, b.2 as int, b.3 as int),
                                )
                        },
                    },
                decreases m.max_x() + 1 - x,
            {
                let column = self.highest_supported_z(x as i32, y as i32);
                if let Some(z) = column {
                    if z < max.z {
                        let dx = if x >= start_x { x - start_x } else { start_x - x };
                        let dy = if y >= start_y { y - start_y } else { start_y - y };
                        let distance = dx + dy;
                        let better = match best {
                            None => true,
                            Some((bz, bd, bx, by)) => z as i64 > bz || (z as i64 == bz && (
                            distance < bd || (distance == bd && (x < bx || (x == bx && y < by))))),
                        };
                        if better {
                            best = Some((z as i64, distance, x, y));
                        }
                    }
                }
                x = x + 1;
            }
            y = y + 1;
        }
        match best {
            None => None,
            Some((z, _, x, y)) => Some(Vec3i { x: x as i32, y: y as i32, z: z as i32 }),
        }
    }


    fn resolve_movement_direction(&self, p: Vec3i, dx: i32, dy: i32) -> (r: Option<Vec3i>)
        requires
            self@.wf(),
            -1 <= dx <= 1,
            -1 <= dy <= 1,
        ensures
            r == self@.resolve_direction(p, dx as int, dy as int),
    {
        let (x, y, z) = (p.x as i64 + dx as i64, p.y as i64 + dy as i64, p.z as i64);
        let flat = self.solid_i64(x, y, z);
        if !flat && self.solid_i64(x, y, z - 1) {
            return Some(Vec3i { x: dx, y: dy, z: 0 });
        }
        if flat && !self.solid_i64(x, y, z + 1) && !self.solid_i64(p.x as i64, p.y as i64, z + 1) {
            return Some(Vec3i { x: dx, y: dy, z: 1 });
        }
        if !flat && !self.solid_i64(x, y, z - 1) && self.solid_i64(x, y, z - 2) {
            return Some(Vec3i { x: dx, y: dy, z: -1 });
        }
        None
    }

    fn is_diagonal_move_blocked(&self, from: Vec3i, to: Vec3i) -> (r: bool)
        requires
            self@.wf(),
        ensures
            r == self@.diagonal_blocked(from, to),
    {
        let d = step_direction(from, to);
        let (fx, fy, fz) = (from.x as i64, from.y as i64, from.z as i64);
        let (tx, ty, tz) = (to.x as i64, to.y as i64, to.z as i64);
        if d.x != 0 && d.y != 0 && d.z == 0 {
            return self.solid_i64(tx, fy, tz) && self.solid_i64(fx, ty, tz);
        }
        if d.x != 0 && d.z != 0 && d.y == 0 {
            return self.solid_i64(tx, fy, fz) && self.solid_i64(fx, fy, tz);
        }
        if d.y != 0 && d.z != 0 && d.x == 0 {
            return self.solid_i64(fx, ty, fz) && self.solid_i64(fx, fy, tz);
        }
        if d.x != 0 && d.y != 0 && d.z != 0 {
            if self.solid_i64(tx, fy, fz) && self.solid_i64(fx, ty, fz) {
                return true;
            }
            if self.solid_i64(tx, fy, fz) && self.solid_i64(fx, fy, tz) {
                return true;
            }
            return self.solid_i64(fx, ty, fz) && self.solid_i64(fx, fy, tz);
        }
        false
    }

    /// Start moving entity `id` one step in `direction`.
    ///
    /// A horizontal step is resolved against the terrain (flat, up a ledge
    /// or down a step); the move is refused without any change when the
    /// direction is not a unit step, the entity is unknown, the target leaves
    /// the world, squeezes diagonally between solid blocks, lies in an
    /// unloaded chunk, or repeats the move already in progress. The render
    /// start position and duration come from `timing`.
    pub fn start_entity_move_with_reason<F: Fn(MoveTimingQuery) -> MoveTiming>(
        &mut self,
        id: u64,
        direction: Vec3i,
        timing: &F,
    ) -> (r: Result<(), MoveEntityError>)
        requires
            old(self)@.wf(),
            forall|q: MoveTimingQuery| timing.requires((q,)),
        ensures
            final(self)@.wf(),
            match old(self)@.plan_move(id, direction) {
                Err(e) => r == Err::<(), MoveEntityError>(e) && final(self)@ == old(self)@,
                Ok(p) => {
                    &&& r == Ok::<(), MoveEntityError>(())
                    &&& exists|t: MoveTiming| #[trigger]
                        timing.ensures((old(self)@.timing_query(id, p),), t) && final(self)@
                            == old(self)@.commit_move(id, p, t)
                },
            },
    {
        if !is_adjacent_direction(direction) {
            return Err(MoveEntityError::NonAdjacentDirection { direction });
        }
        let current = match self.entities.get(&id) {
            Some(e) => *e,
            None => return Err(MoveEntityError::UnknownEntity),
        };
        proof {
            assert(self@.entity_wf(current));
        }
        let pos = current.position;
        let raw = pos.add(direction);
        if !self.contains_position(raw) {
            return Err(MoveEntityError::OutOfBounds { from: pos, to: raw });
        }
        let resolved = if direction.z == 0 {
            match self.resolve_movement_direction(pos, direction.x, direction.y) {
                Some(d) => d,
                None => return Err(MoveEntityError::Blocked),
            }
        } else {
            direction
        };
        let target = pos.add(resolved);
        if !self.contains_position(target) {
            return Err(MoveEntityError::OutOfBounds { from: pos, to: target });
        }
        if self.is_diagonal_move_blocked(pos, target) {
            return Err(MoveEntityError::Blocked);
        }
        let chunk = match self.world_position_to_chunk_coord(target) {
            Some(c) => c,
            None => return Err(MoveEntityError::OutOfBounds { from: pos, to: target }),
        };
        if !self.is_chunk_loaded(chunk) {
            return Err(MoveEntityError::ChunkNotLoaded { from: pos, to: target, chunk });
        }
        if let Some(m) = current.movement {
            let d = step_direction(m.origin, m.target);
            if d == resolved {
                return Err(MoveEntityError::MovementInProgress);
            }
        }
        let facing_left = if resolved.x > 0 {
            false
        } else if resolved.x < 0 {
            true
        } else {
            current.facing_left
        };
        let query = MoveTimingQuery {
            position: pos,
            target,
            direction: resolved,
            ticks_per_tile: self.config.movement_ticks_per_tile,
            in_progress: current.movement,
        };
        let t = timing(query);
        let total = if t.total_ticks == 0 {
            1
        } else {
            t.total_ticks
        };
        let next = EntityState {
            position: pos,
            facing_left,
            is_prone: current.is_prone,
            movement: Some(
                EntityMovement {
                    origin: pos,
                    target,
                    start_bits: t.start_bits,
                    elapsed_ticks: 0,
                    total_ticks: total,
                },
            ),
        };
        self.entities.insert(id, next);
        proof {
            let plan = MovePlan { target, direction: resolved, facing_left };
            assert(old(self)@.plan_move(id, direction) == Ok::<MovePlan, MoveEntityError>(plan));
            assert(old(self)@.timing_query(id, plan) == query);
            assert(self@ == old(self)@.commit_move(id, plan, t));
            assert forall|k: u64| #[trigger] self@.entities.contains_key(k) implies self@.entity_wf(
                self@.entities[k],
            ) by {
                if k != id {
                    assert(old(self)@.entities.contains_key(k));
                }
            }
        }
        Ok(())
    }


    /// Advance every in-progress move by one tick.
    ///
    /// Returns `true`, having also advanced the clock, when any entity was
    /// moving; otherwise nothing changes.
    pub fn advance_active_movements_one_tick(&mut self) -> (r: bool)
        requires
            old(self)@.wf(),
        ensures
            final(self)@.wf(),
            r == old(self)@.any_moving(),
            final(self)@ == (if r {
                old(self)@.tick_step()
            } else {
                old(self)@
            }),
    {
        let ghost m = self@;
        let mut any = false;
        let mut next: BTreeMap<u64, EntityState> = BTreeMap::new();
        for pair in it: self.entities.iter()
            invariant
                self@ == m,
                m.wf(),
                forall|k: u64| #[trigger]
                    next@.contains_key(k) ==> m.entities.contains_key(k) && next@[k]
                        == advance_entity(m.entities[k]),
                forall|j: int| 0 <= j < it.index() ==> next@.contains_key(*(#[trigger] it.seq()[j]).0),
                any ==> m.any_moving(),
                forall|j: int|
                    0 <= j < it.index() && (#[trigger] it.seq()[j]).1.movement is Some ==> any,
                forall|j: int|
                    0 <= j < it.seq().len() ==> m.entities.contains_key(*(#[trigger] it.seq()[j]).0)
                        && m.entities[*it.seq()[j].0] == *it.seq()[j].1,
                forall|k: u64| #[trigger]
                    m.entities.contains_key(k) ==> it.seq().contains((&k, &m.entities[k])),
                it.index() == it.seq().len() ==> (forall|k: u64| #[trigger]
                    m.entities.contains_key(k) ==> next@.contains_key(k)),
                it.index() == it.seq().len() ==> (any == m.any_moving()),
        {
            let (id, e) = pair;
            if e.movement.is_some() {
                any = true;
            }
            next.insert(*id, advance_entity_exec(*e));
        }
        if !any {
            return false;
        }
        proof {
            assert(next@ =~= m.advanced_entities());
        }
        self.tick = self.tick.saturating_add(1);
        self.entities = next;
        proof {
            assert(self@ == m.tick_step());
            assert forall|k: u64| #[trigger] self@.entities.contains_key(k) implies self@.entity_wf(
                self@.entities[k],
            ) by {
                lemma_advance_entity_wf(m, m.entities[k]);
            }
        }
        true
    }

    /// Advance the simulation by exactly `count` ticks.
    pub fn force_advance_ticks(&mut self, count: u32)
        requires
            old(self)@.wf(),
        ensures
            final(self)@.wf(),
            final(self)@ == old(self)@.advance_n(count as nat),
            final(self)@.tick == tick_plus(old(self)@.tick, count as nat),
    {
        proof {
            lemma_advance_n_tick(self@, count as nat);
        }
        let ticks = count;
        let ghost m = self@;
        let mut i: u32 = 0;
        while i < ticks
            invariant
                i <= ticks,
                self@.wf(),
                self@ == m.advance_n(i as nat),
            decreases ticks - i,
        {
            if !self.advance_active_movements_one_tick() {
                self.tick = self.tick.saturating_add(1);
            }
            i = i + 1;
        }
    }


    /// Place an idle entity `id` at `position`, replacing any entity with that id.
    pub fn spawn_entity(&mut self, id: u64, position: Vec3i) -> (r: Result<(), SpawnError>)
        requires
            old(self)@.wf(),
        ensures
            final(self)@.wf(),
            old(self)@.contains(position) ==> r == Ok::<(), SpawnError>(()) && final(self)@ == old(self)@.with_spawned(
                id,
                position,
            ),
            !old(self)@.contains(position) ==> r == Err::<(), SpawnError>(
                SpawnError::OutOfBounds { position },
            ) && final(self)@ == old(self)@,
    {
        if !self.contains_position(position) {
            return Err(SpawnError::OutOfBounds { position });
        }
        self.entities.insert(
            id,
            EntityState { position, facing_left: false, is_prone: false, movement: None },
        );
        let bumped = id.saturating_add(1);
        if self.next_entity_id < bumped {
            self.next_entity_id = bumped;
        }
        proof {
            assert forall|k: u64| #[trigger] self@.entities.contains_key(k) implies self@.entity_wf(
                self@.entities[k],
            ) by {
                if k != id {
                    assert(old(self)@.entities.contains_key(k));
                }
            }
        }
        Ok(())
    }

    /// Same as [`Self::spawn_entity`].
    pub fn spawn_or_replace_entity(&mut self, id: u64, position: Vec3i) -> (r: Result<(), SpawnError>)
        requires
            old(self)@.wf(),
        ensures
            final(self)@.wf(),
            old(self)@.contains(position) ==> r == Ok::<(), SpawnError>(()) && final(self)@ == old(self)@.with_spawned(
                id,
                position,
            ),
            !old(self)@.contains(position) ==> r == Err::<(), SpawnError>(
                SpawnError::OutOfBounds { position },
            ) && final(self)@ == old(self)@,
    {
        self.spawn_entity(id, position)
    }

    /// Spawn an idle entity under the smallest free id at or above the
    /// next-id counter (at least 1) and return that id.
    pub fn spawn_entity_auto(&mut self, position: Vec3i) -> (r: Result<u64, SpawnError>)
        requires
            old(self)@.wf(),
            exists|k: u64|
                old(self)@.auto_id_start() <= k && !#[trigger] old(self)@.entities.contains_key(k),
        ensures
            final(self)@.wf(),
            old(self)@.contains(position) ==> match r {
                Ok(id) => {
                    &&& old(self)@.is_first_free_id(old(self)@.auto_id_start(), id)
                    &&& final(self)@ == (WorldModel {
                        next_entity_id: if id == u64::MAX {
                            u64::MAX
                        } else {
                            (id + 1) as u64
                        },
                        ..old(self)@.with_spawned(id, position)
                    })
                },
                Err(_) => false,
            },
            !old(self)@.contains(position) ==> r == Err::<u64, SpawnError>(
                SpawnError::OutOfBounds { position },
            ) && final(self)@ == old(self)@,
    {
        if !self.contains_position(position) {
            return Err(SpawnError::OutOfBounds { position });
        }
        let ghost m = self@;
        let mut candidate = if self.next_entity_id == 0 {
            1
        } else {
            self.next_entity_id
        };
        while self.entities.contains_key(&candidate)
            invariant
                self@ == m,
                m.auto_id_start() <= candidate,
                forall|k: u64| m.auto_id_start() <= k < candidate ==> #[trigger] m.entities.contains_key(k),
                exists|k: u64| candidate <= k && !#[trigger] m.entities.contains_key(k),
            decreases u64::MAX - candidate,
        {
            candidate = candidate.saturating_add(1);
        }
        self.entities.insert(
            candidate,
            EntityState { position, facing_left: false, is_prone: false, movement: None },
        );
        self.next_entity_id = candidate.saturating_add(1);
        proof {
            assert forall|k: u64| #[trigger] self@.entities.contains_key(k) implies self@.entity_wf(
                self@.entities[k],
            ) by {
                if k != candidate {
                    assert(m.entities.contains_key(k));
                }
            }
        }
        Ok(candidate)
    }

    /// Grid position of entity `id`.
    pub fn entity_position(&self, id: u64) -> (r: Option<Vec3i>)
        ensures
            r == (if self@.entities.contains_key(id) {
                Some(self@.entities[id].position)
            } else {
                None
            }),
    {
        match self.entities.get(&id) {
            Some(e) => Some(e.position),
            None => None,
        }
    }

    /// Whether entity `id` exists.
    pub fn has_entity(&self, id: u64) -> (r: bool)
        ensures
            r == self@.entities.contains_key(id),
    {
        self.entities.contains_key(&id)
    }

    /// Whether entity `id` exists and is mid-move.
    pub fn entity_is_moving(&self, id: u64) -> (r: bool)
        ensures
            r == (self@.entities.contains_key(id) && self@.entities[id].movement is Some),
    {
        match self.entities.get(&id) {
            Some(e) => e.movement.is_some(),
            None => false,
        }
    }

    /// Public view of entity `id`.
    pub fn entity_snapshot(&self, id: u64) -> (r: Option<EntitySnapshot>)
        requires
            self@.wf(),
        ensures
            r == (if self@.entities.contains_key(id) {
                Some(entity_snapshot_spec(id, self@.entities[id]))
            } else {
                None
            }),
    {
        match self.entities.get(&id) {
            Some(e) => {
                proof {
                    assert(self@.entity_wf(*e));
                }
                Some(snapshot_entity(id, *e))
            },
            None => None,
        }
    }


    /// Simulation-resident chunks in increasing coordinate order.
    pub fn loaded_chunk_coords(&self) -> (r: Vec<Vec3i>)
        ensures
            sorted_listing(r@, self@.loaded),
    {
        let ghost set = self@.loaded;
        let mut v: Vec<Vec3i> = Vec::new();
        for k in it: self.loaded_chunks.iter()
            invariant
                set == self@.loaded,
                v.len() == it.index(),
                forall|i: int| #![trigger v@[i]] #![trigger it.seq()[i]] 0 <= i < it.index() ==> v@[i].key() == *it.seq()[i],
                forall|i: int, j: int|
                    0 <= i < j < it.seq().len() ==> lex_lt(*it.seq()[i], *it.seq()[j]),
                forall|i: int| 0 <= i < it.seq().len() ==> set.contains(*#[trigger] it.seq()[i]),
                forall|k: (i32, i32, i32)| #[trigger]
                    set.contains(k) ==> exists|i: int| 0 <= i < it.seq().len() && *it.seq()[i] == k,
        {
            v.push(Vec3i { x: k.0, y: k.1, z: k.2 });
        }
        v
    }


    /// The blocks of the loaded chunks with their positions, in
    /// block-array order.
    pub fn terrain_blocks(&self) -> (r: Vec<(Vec3i, BlockType)>)
        requires
            self@.wf(),
        ensures
            r@ == self@.terrain_listing(self@.blocks.len() as int),
    {
        let ghost w = self@;
        let (sx, sy, sz) = self.size_i64();
        let count = self.blocks.len();
        proof {
            assert(sx * sy <= (i32::MAX as int) * (i32::MAX as int)) by (nonlinear_arith)
                requires
                    0 <= sx <= i32::MAX,
                    0 <= sy <= i32::MAX,
            ;
            assert(count == sx * sy * sz);
        }
        let sxy = (sx * sy) as u64;
        let (sxu, syu) = (sx as u64, sy as u64);
        let (mx, my, mz) = (-(sx / 2), -(sy / 2), -(sz / 2));
        let mut out: Vec<(Vec3i, BlockType)> = Vec::new();
        let mut i: usize = 0;
        while i < count
            invariant
                self@ == w,
                w.wf(),
                count == w.blocks.len(),
                count == sx * sy * sz,
                sxy == sx * sy,
                sxu == sx,
                syu == sy,
                i <= count,
                sx == w.config.size_x(),
                sy == w.config.size_y(),
                sz == w.config.size_z(),
                0 <= sx <= i32::MAX,
                0 <= sy <= i32::MAX,
                0 <= sz <= i32::MAX,
                mx == w.min_x(),
                my == w.min_y(),
                mz == w.min_z(),
                out@ == w.terrain_listing(i as int),
            decreases count - i,
        {
            proof {
                assert(sx >= 1 && sy >= 1 && sz >= 1) by (nonlinear_arith)
                    requires
                        count == sx * sy * sz,
                        i < count,
                        sx >= 0,
                        sy >= 0,
                        sz >= 0,
                ;
                assert(i as int / (sx * sy) < sz) by (nonlinear_arith)
                    requires
                        0 <= i < sx * sy * sz,
                        sx >= 1,
                        sy >= 1,
                ;
                assert(sx * sy >= 1) by (nonlinear_arith)
                    requires
                        sx >= 1,
                        sy >= 1,
                ;
            }
            let iu = i as u64;
            let px = (iu % sxu) as i64 + mx;
            let py = ((iu / sxu) % syu) as i64 + my;
            let pz = (iu / sxy) as i64 + mz;
            let p = Vec3i { x: px as i32, y: py as i32, z: pz as i32 };
            proof {
                assert(p == w.voxel_position(i as int));
            }
            let loaded = match self.world_position_to_chunk_coord(p) {
                Some(c) => self.is_chunk_loaded(c),
                None => false,
            };
            if loaded {
                out.push((p, self.blocks[i]));
            }
            i = i + 1;
        }
        out
    }

    /// Snapshots of all entities in increasing id order.
    pub fn entity_snapshots(&self) -> (r: Vec<EntitySnapshot>)
        requires
            self@.wf(),
        ensures
            entity_listing(r@, self@.entities),
    {
        let ghost m = self@;
        let mut v: Vec<EntitySnapshot> = Vec::new();
        for pair in it: self.entities.iter()
            invariant
                self@ == m,
                m.wf(),
                v.len() == it.index(),
                forall|i: int|
                    #![trigger v@[i]]
                    #![trigger it.seq()[i]]
                    0 <= i < it.index() ==> v@[i] == entity_snapshot_spec(*it.seq()[i].0, *it.seq()[i].1),
                forall|j: int|
                    0 <= j < it.seq().len() ==> m.entities.contains_key(*(#[trigger] it.seq()[j]).0)
                        && m.entities[*it.seq()[j].0] == *it.seq()[j].1,
                forall|k: u64| #[trigger]
                    m.entities.contains_key(k) ==> it.seq().contains((&k, &m.entities[k])),
                forall|i: int, j: int|
                    #![trigger it.seq()[i], it.seq()[j]]
                    0 <= i < j < it.seq().len() ==> it.seq().map_values(
                        |kv: (&u64, &EntityState)| *kv.0,
                    )[i] < it.seq().map_values(|kv: (&u64, &EntityState)| *kv.0)[j],
        {
            let (id, e) = pair;
            proof {
                assert(m.entity_wf(*e));
            }
            v.push(snapshot_entity(*id, *e));
        }
        v
    }

    /// Snapshot of tick, geometry, resident chunks and entities.
    pub fn snapshot(&self) -> (r: WorldSnapshot)
        requires
            self@.wf(),
        ensures
            r.tick == self@.tick,
            r.chunk_edge == self@.config.chunk_edge,
            r.world_chunks == self@.config.world_chunks,
            sorted_listing(r.loaded_chunks@, self@.loaded),
            entity_listing(r.entities@, self@.entities),
            r.terrain_blocks@ == self@.terrain_listing(self@.blocks.len() as int),
    {
        WorldSnapshot {
            tick: self.tick,
            chunk_edge: self.config.chunk_edge,
            world_chunks: self.config.world_chunks,
            terrain_blocks: self.terrain_blocks(),
            loaded_chunks: self.loaded_chunk_coords(),
            entities: self.entity_snapshots(),
        }
    }


    /// Build a world from `config` and its cave field.
    ///
    /// `cave_open` holds, for every voxel in block-array order (z-major, x
    /// fastest), whether the cave noise opens that voxel; it only matters
    /// inside the playable noise band. Every chunk of the grid starts
    /// resident, no entity exists and the next automatic id is 1.
    pub fn new(config: WorldConfig, cave_open: &Vec<bool>) -> (r: WorldState)
        requires
            config.supported(),
            cave_open.len() == config.block_count(),
        ensures
            r@.wf(),
            r@.tick == 0,
            r@.config == (WorldConfig {
                movement_ticks_per_tile: if config.movement_ticks_per_tile == 0 {
                    1
                } else {
                    config.movement_ticks_per_tile
                },
                ..config
            }),
            forall|i: int|
                0 <= i < r@.blocks.len() ==> #[trigger] r@.blocks[i] == crate::terrain::voxel_block_spec(
                    r@.voxel_position(i),
                    cave_open@[i],
                ),
            r@.revisions == Seq::new(r@.chunk_count() as nat, |i: int| 0u64),
            r@.entities == Map::<u64, EntityState>::empty(),
            r@.loaded == r@.grid_chunks(),
            r@.next_entity_id == 1,
            r@ == WorldModel::initial(config, cave_open@),
    {
        let cfg = WorldConfig {
            movement_ticks_per_tile: if config.movement_ticks_per_tile == 0 {
                1
            } else {
                config.movement_ticks_per_tile
            },
            ..config
        };
        let e = config.chunk_edge as u64;
        let w = config.world_chunks;
        let sx = w.x as u64 * e;
        let sy = w.y as u64 * e;
        let sz = w.z as u64 * e;
        proof {
            assert(sx * sy * sz == config.block_count());
            lemma_chunk_count_le_blocks(config);
        }
        proof {
            assert(sx * sy <= (i32::MAX as int) * (i32::MAX as int)) by (nonlinear_arith)
                requires
                    0 <= sx <= i32::MAX,
                    0 <= sy <= i32::MAX,
            ;
        }
        let sxy = sx * sy;
        let count = (sxy * sz) as usize;
        let (mx, my, mz) = (-((sx / 2) as i64), -((sy / 2) as i64), -((sz / 2) as i64));
        let ghost target = WorldModel {
            tick: 0,
            config: cfg,
            blocks: Seq::empty(),
            revisions: Seq::empty(),
            entities: Map::empty(),
            loaded: Set::empty(),
            next_entity_id: 1,
        };
        let mut blocks: Vec<BlockType> = Vec::new();
        let mut i: usize = 0;
        while i < count
            invariant
                count == config.block_count(),
                sxy == sx * sy,
                cave_open.len() == count,
                blocks.len() == i,
                i <= count,
                sx == config.size_x(),
                sy == config.size_y(),
                sz == config.size_z(),
                sx <= i32::MAX,
                sy <= i32::MAX,
                sz <= i32::MAX,
                mx == target.min_x(),
                my == target.min_y(),
                mz == target.min_z(),
                target.config == cfg,
                cfg.size_x() == config.size_x(),
                cfg.size_y() == config.size_y(),
                cfg.size_z() == config.size_z(),
                forall|j: int|
                    0 <= j < i ==> #[trigger] blocks@[j] == crate::terrain::voxel_block_spec(
                        target.voxel_position(j),
                        cave_open@[j],
                    ),
            decreases count - i,
        {
            proof {
                assert(sx >= 1 && sy >= 1 && sz >= 1) by (nonlinear_arith)
                    requires
                        count == sx * sy * sz,
                        i < count,
                        sx >= 0,
                        sy >= 0,
                        sz >= 0,
                ;
                assert(i as int / (sx * sy) < sz) by (nonlinear_arith)
                    requires
                        0 <= i < sx * sy * sz,
                        sx >= 1,
                        sy >= 1,
                ;
                assert(sx * sy >= 1) by (nonlinear_arith)
                    requires
                        sx >= 1,
                        sy >= 1,
                ;
            }
            let iu = i as u64;
            let px = (iu % sx) as i64 + mx;
            let py = ((iu / sx) % sy) as i64 + my;
            let pz = (iu / sxy) as i64 + mz;
            let p = Vec3i { x: px as i32, y: py as i32, z: pz as i32 };
            proof {
                assert(p == target.voxel_position(i as int));
            }
            blocks.push(crate::terrain::voxel_block(p, cave_open[i]));
            i = i + 1;
        }
        proof {
            assert(w.x <= sx && w.y <= sy && w.z <= sz) by (nonlinear_arith)
                requires
                    sx == w.x * e,
                    sy == w.y * e,
                    sz == w.z * e,
                    e >= 1,
                    w.x >= 0,
                    w.y >= 0,
                    w.z >= 0,
            ;
            assert(w.x * w.y <= (i32::MAX as int) * (i32::MAX as int)) by (nonlinear_arith)
                requires
                    0 <= w.x <= i32::MAX,
                    0 <= w.y <= i32::MAX,
            ;
        }
        let wxy = w.x as u64 * w.y as u64;
        let chunk_count = (wxy * w.z as u64) as usize;
        let mut revisions: Vec<u64> = Vec::new();
        let mut k: usize = 0;
        while k < chunk_count
            invariant
                k <= chunk_count,
                revisions@ == Seq::new(k as nat, |j: int| 0u64),
            decreases chunk_count - k,
        {
            revisions.push(0);
            proof {
                assert(revisions@ =~= Seq::new((k + 1) as nat, |j: int| 0u64));
            }
            k = k + 1;
        }
        let loaded_chunks = build_loaded_chunks(w);
        let r = WorldState {
            tick: 0,
            config: cfg,
            blocks,
            revisions,
            entities: BTreeMap::new(),
            loaded_chunks,
            next_entity_id: 1,
        };
        proof {
            assert(r@.loaded =~= r@.grid_chunks());
            assert forall|j: int| 0 <= j < r@.blocks.len() implies #[trigger] r@.blocks[j]
                == crate::terrain::voxel_block_spec(r@.voxel_position(j), cave_open@[j]) by {
                assert(r@.voxel_position(j) == target.voxel_position(j));
            }
            let init = WorldModel::initial(config, cave_open@);
            assert(init.config == cfg);
            assert(init.voxel_position(0) == target.voxel_position(0));
            assert forall|j: int| 0 <= j < r@.blocks.len() implies r@.blocks[j] == init.blocks[j] by {
                assert(init.voxel_position(j) == target.voxel_position(j));
            }
            assert(r@.blocks =~= init.blocks);
            assert(r@.entities =~= init.entities);
            assert(r@.revisions =~= init.revisions);
            assert(r@.loaded =~= init.loaded);
            assert(r@.config == init.config);
        }
        r
    }


    /// Apply one command. `MoveEntity` only starts a move (no tick passes);
    /// a refused move leaves the world unchanged.
    pub fn apply_command<F: Fn(MoveTimingQuery) -> MoveTiming>(
        &mut self,
        command: WorldCommand,
        timing: &F,
    ) -> (r: Result<(), MoveEntityError>)
        requires
            old(self)@.wf(),
            forall|q: MoveTimingQuery| timing.requires((q,)),
        ensures
            final(self)@.wf(),
            match old(self)@.command_query(command) {
                None => (r, final(self)@) == old(self)@.command_outcome(
                    command,
                    MoveTiming { start_bits: StartBits { x: 0, y: 0, z: 0 }, total_ticks: 0 },
                ),
                Some(q) => exists|t: MoveTiming| #[trigger]
                    timing.ensures((q,), t) && (r, final(self)@) == old(self)@.command_outcome(
                        command,
                        t,
                    ),
            },
    {
        match command {
            WorldCommand::MoveEntity { id, direction } => {
                let r = self.start_entity_move_with_reason(id, direction, timing);
                proof {
                    if let Ok(p) = old(self)@.plan_move(id, direction) {
                        let t = choose|t: MoveTiming| #[trigger]
                            timing.ensures((old(self)@.timing_query(id, p),), t) && self@
                                == old(self)@.commit_move(id, p, t);
                        assert(r == Ok::<(), MoveEntityError>(()));
                        assert((r, self@) == old(self)@.command_outcome(command, t));
                    }
                }
                r
            },
            WorldCommand::AdvanceTicks { count } => {
                self.force_advance_ticks(count);
                Ok(())
            },
            WorldCommand::SetChunkLoaded { chunk, loaded } => {
                self.set_chunk_loaded(chunk, loaded);
                Ok(())
            },
        }
    }

    /// Mark a chunk simulation-resident (`loaded`) or not.
    pub fn set_chunk_loaded(&mut self, chunk: Vec3i, loaded: bool)
        ensures
            old(self)@.wf() ==> final(self)@.wf(),
            final(self)@ == (WorldModel {
                loaded: if loaded {
                    old(self)@.loaded.insert(chunk.key())
                } else {
                    old(self)@.loaded.remove(chunk.key())
                },
                ..old(self)@
            }),
    {
        if loaded {
            self.loaded_chunks.insert((chunk.x, chunk.y, chunk.z));
        } else {
            self.loaded_chunks.remove(&(chunk.x, chunk.y, chunk.z));
        }
    }

    /// Whether `chunk` is simulation-resident.
    pub fn is_chunk_loaded(&self, chunk: Vec3i) -> (r: bool)
        ensures
            r == self@.loaded.contains(chunk.key()),
    {
        self.loaded_chunks.contains(&(chunk.x, chunk.y, chunk.z))
    }

    /// Number of simulation-resident chunks.
    pub fn loaded_chunk_count(&self) -> (r: usize)
        ensures
            r == self@.loaded.len(),
    {
        self.loaded_chunks.len()
    }
}


impl WorldModel {
    /// Lowest-corner voxel of grid chunk `c`.
    pub open spec fn chunk_base(self, c: (i32, i32, i32)) -> (int, int, int) {
        let e = self.config.chunk_edge as int;
        let w = self.config.world_chunks;
        (
            self.min_x() + (c.0 + w.x / 2) * e,
            self.min_y() + (c.1 + w.y / 2) * e,
            self.min_z() + (c.2 + w.z / 2) * e,
        )
    }

    /// Voxels in one chunk.
    pub open spec fn chunk_volume(self) -> int {
        let e = self.config.chunk_edge as int;
        e * e * e
    }

    /// The blocks of chunk `c`, x fastest, then y, then z.
    pub open spec fn chunk_blocks(self, c: (i32, i32, i32)) -> Seq<BlockType> {
        let e = self.config.chunk_edge as int;
        let b = self.chunk_base(c);
        Seq::new(
            self.chunk_volume() as nat,
            |i: int|
                match self.block_at_int(b.0 + i % e, b.1 + (i / e) % e, b.2 + i / (e * e)) {
                    Some(k) => k,
                    None => BlockType::Air,
                },
        )
    }

    /// Terrain revision of chunk `c`, `None` outside the chunk grid.
    pub open spec fn chunk_revision(self, c: (i32, i32, i32)) -> Option<u64> {
        if self.in_grid(c) {
            Some(self.revisions[self.chunk_index(c)])
        } else {
            None
        }
    }

    /// The world after writing `block` at the in-world voxel `p`: the voxel
    /// changes and, when its value changed, its chunk's revision goes up.
    pub open spec fn with_block(self, p: Vec3i, block: BlockType) -> WorldModel {
        let i = self.voxel_index(p.x as int, p.y as int, p.z as int);
        let c = self.chunk_of(p).unwrap().key();
        if self.blocks[i] == block {
            self
        } else {
            WorldModel {
                blocks: self.blocks.update(i, block),
                revisions: self.revisions.update(
                    self.chunk_index(c),
                    next_revision(self.revisions[self.chunk_index(c)]),
                ),
                ..self
            }
        }
    }
}

/// The revision after a change (wrapping at the top of `u64`).
pub open spec fn next_revision(r: u64) -> u64 {
    if r == u64::MAX {
        0
    } else {
        (r + 1) as u64
    }
}

/// A grid chunk's index lies inside the revision array.
proof fn lemma_chunk_index_bound(m: WorldModel, c: (i32, i32, i32))
    requires
        m.in_grid(c),
    ensures
        0 <= m.chunk_index(c) < m.chunk_count(),
{
    let w = m.config.world_chunks;
    lemma_voxel_index_bound(
        c.0 + w.x / 2,
        c.1 + w.y / 2,
        c.2 + w.z / 2,
        w.x as int,
        w.y as int,
        w.z as int,
    );
}

/// The chunk of an in-world voxel is a grid chunk.
proof fn lemma_chunk_of_in_grid(m: WorldModel, p: Vec3i)
    requires
        m.wf(),
        m.contains(p),
    ensures
        m.chunk_of(p) is Some,
        m.in_grid(m.chunk_of(p).unwrap().key()),
{
    let e = m.config.chunk_edge as int;
    let w = m.config.world_chunks;
    let (lx, ly, lz) = (p.x - m.min_x(), p.y - m.min_y(), p.z - m.min_z());
    assert(lx / e < w.x) by (nonlinear_arith)
        requires
            0 <= lx < w.x * e,
            e >= 1,
    ;
    assert(ly / e < w.y) by (nonlinear_arith)
        requires
            0 <= ly < w.y * e,
            e >= 1,
    ;
    assert(lz / e < w.z) by (nonlinear_arith)
        requires
            0 <= lz < w.z * e,
            e >= 1,
    ;
    assert(0 <= lx / e) by (nonlinear_arith)
        requires
            0 <= lx,
            e >= 1,
    ;
    assert(0 <= ly / e) by (nonlinear_arith)
        requires
            0 <= ly,
            e >= 1,
    ;
    assert(0 <= lz / e) by (nonlinear_arith)
        requires
            0 <= lz,
            e >= 1,
    ;
}

impl WorldState {
    /// Index of grid chunk `c` in the revision array.
    fn chunk_slot(&self, c: (i32, i32, i32)) -> (r: usize)
        requires
            self@.wf(),
            self@.in_grid(c),
        ensures
            r == self@.chunk_index(c),
            r < self@.revisions.len(),
    {
        let w = self.config.world_chunks;
        proof {
            lemma_chunk_index_bound(self@, c);
        }
        let lx = (c.0 as i64 + (w.x / 2) as i64) as usize;
        let ly = (c.1 as i64 + (w.y / 2) as i64) as usize;
        let lz = (c.2 as i64 + (w.z / 2) as i64) as usize;
        proof {
            let (a, b, d) = (lx as int, ly as int, lz as int);
            assert(0 <= d * w.x) by (nonlinear_arith)
                requires
                    0 <= d,
                    0 <= w.x,
            ;
            assert(d * w.x <= d * w.x * w.y || w.y == 0) by (nonlinear_arith)
                requires
                    0 <= d,
                    0 <= w.x,
                    0 <= w.y,
            ;
            assert(0 <= b * w.x) by (nonlinear_arith)
                requires
                    0 <= b,
                    0 <= w.x,
            ;
            assert(w.y >= 1);
            lemma_chunk_count_le_blocks(self@.config);
            assert(d * w.x * w.y + b * w.x + a < w.x * w.y * w.z);
        }
        let t = lz * w.x as usize;
        let u = t * w.y as usize;
        u + ly * w.x as usize + lx
    }

    fn in_grid_exec(&self, c: (i32, i32, i32)) -> (r: bool)
        ensures
            r == self@.in_grid(c),
    {
        let w = self.config.world_chunks;
        let (hx, hy, hz) = ((w.x / 2) as i64, (w.y / 2) as i64, (w.z / 2) as i64);
        -hx <= c.0 as i64 && (c.0 as i64) < w.x as i64 - hx && -hy <= c.1 as i64 && (c.1 as i64)
            < w.y as i64 - hy && -hz <= c.2 as i64 && (c.2 as i64) < w.z as i64 - hz
    }

    /// Terrain revision of one chunk, `None` outside the chunk grid.
    pub fn chunk_terrain_revision(&self, chunk: Vec3i) -> (r: Option<u64>)
        requires
            self@.wf(),
        ensures
            r == self@.chunk_revision(chunk.key()),
    {
        let c = (chunk.x, chunk.y, chunk.z);
        if !self.in_grid_exec(c) {
            return None;
        }
        let slot = self.chunk_slot(c);
        Some(self.revisions[slot])
    }

    /// Copy one grid chunk's blocks into `out` (x fastest, then y, then z);
    /// outside the chunk grid `out` is left alone and the result is `false`.
    pub fn copy_chunk_blocks(&self, chunk: Vec3i, out: &mut Vec<BlockType>) -> (r: bool)
        requires
            self@.wf(),
        ensures
            r == self@.in_grid(chunk.key()),
            r ==> final(out)@ == self@.chunk_blocks(chunk.key()),
            !r ==> final(out)@ == old(out)@,
    {
        let c = (chunk.x, chunk.y, chunk.z);
        if !self.in_grid_exec(c) {
            return false;
        }
        let ghost m = self@;
        let (sx, sy, sz) = self.size_i64();
        let w = self.config.world_chunks;
        let e = self.config.chunk_edge as usize;
        let ghost ei = e as int;
        proof {
            let (wx, wy, wz) = (w.x as int, w.y as int, w.z as int);
            assert(ei * ei * ei <= (wx * ei) * (wy * ei) * (wz * ei)) by (nonlinear_arith)
                requires
                    wx >= 1,
                    wy >= 1,
                    wz >= 1,
                    ei >= 1,
            ;
            assert(ei * ei <= ei * ei * ei) by (nonlinear_arith)
                requires
                    ei >= 1,
            ;
            assert(ei <= ei * ei) by (nonlinear_arith)
                requires
                    ei >= 1,
            ;
            assert(ei <= wx * ei) by (nonlinear_arith)
                requires
                    wx >= 1,
                    ei >= 1,
            ;
            let (a, b, d) = (c.0 + wx / 2, c.1 + wy / 2, c.2 + wz / 2);
            assert(0 <= a * ei < wx * ei) by (nonlinear_arith)
                requires
                    0 <= a < wx,
                    ei >= 1,
            ;
            assert(0 <= b * ei < wy * ei) by (nonlinear_arith)
                requires
                    0 <= b < wy,
                    ei >= 1,
            ;
            assert(0 <= d * ei < wz * ei) by (nonlinear_arith)
                requires
                    0 <= d < wz,
                    ei >= 1,
            ;
        }
        let ee = e * e;
        let vol = ee * e;
        let bx = -(sx / 2) + (c.0 as i64 + (w.x / 2) as i64) * e as i64;
        let by = -(sy / 2) + (c.1 as i64 + (w.y / 2) as i64) * e as i64;
        let bz = -(sz / 2) + (c.2 as i64 + (w.z / 2) as i64) * e as i64;
        proof {
            let b = m.chunk_base(c);
            assert(bx == b.0 && by == b.1 && bz == b.2);
        }
        let mut v: Vec<BlockType> = Vec::new();
        let mut i: usize = 0;
        while i < vol
            invariant
                m == self@,
                m.wf(),
                ei == m.config.chunk_edge,
                e == ei,
                ee == ei * ei,
                vol == m.chunk_volume(),
                1 <= ei <= i32::MAX,
                i <= vol,
                (bx as int, by as int, bz as int) == m.chunk_base(c),
                -(i32::MAX as int) - 1 <= bx <= i32::MAX,
                -(i32::MAX as int) - 1 <= by <= i32::MAX,
                -(i32::MAX as int) - 1 <= bz <= i32::MAX,
                v@.len() == i,
                forall|j: int| 0 <= j < i ==> v@[j] == #[trigger] m.chunk_blocks(c)[j],
            decreases vol - i,
        {
            let lx = i % e;
            let ly = (i / e) % e;
            let lz = i / ee;
            proof {
                let ii = i as int;
                assert(ii % ei < ei) by (nonlinear_arith)
                    requires
                        ei >= 1,
                ;
                assert((ii / ei) % ei < ei) by (nonlinear_arith)
                    requires
                        ei >= 1,
                ;
                assert(ii / (ei * ei) < ei) by (nonlinear_arith)
                    requires
                        0 <= ii < ei * ei * ei,
                        ei >= 1,
                ;
            }
            let k = match self.block_at_i64(bx + lx as i64, by + ly as i64, bz + lz as i64) {
                Some(k) => k,
                None => BlockType::Air,
            };
            v.push(k);
            i = i + 1;
        }
        proof {
            assert(v@ =~= m.chunk_blocks(c));
        }
        *out = v;
        true
    }

    /// Index of the in-world voxel `(x, y, z)` in the block array.
    fn voxel_slot(&self, x: i64, y: i64, z: i64) -> (r: usize)
        requires
            self@.wf(),
            self@.contains_int(x as int, y as int, z as int),
        ensures
            r == self@.voxel_index(x as int, y as int, z as int),
            r < self@.blocks.len(),
    {
        let (sx, sy, sz) = self.size_i64();
        let lx = x + sx / 2;
        let ly = y + sy / 2;
        let lz = z + sz / 2;
        proof {
            lemma_voxel_index_bound(lx as int, ly as int, lz as int, sx as int, sy as int, sz as int);
            assert(self@.config.block_count() == sx * sy * sz);
            assert(0 <= ly * sx) by (nonlinear_arith)
                requires
                    0 <= ly,
                    0 <= sx,
            ;
            assert(1 <= sy);
            assert(lz * sx <= lz * sx * sy) by (nonlinear_arith)
                requires
                    0 <= lz,
                    0 <= sx,
                    1 <= sy,
            ;
            assert(0 <= lz * sx) by (nonlinear_arith)
                requires
                    0 <= lz,
                    0 <= sx,
            ;
        }
        let a = lz as usize * sx as usize;
        let b = a * sy as usize;
        let c = ly as usize * sx as usize;
        b + c + lx as usize
    }

    /// Write one block. A write that changes the voxel bumps the terrain
    /// revision of its chunk (a same-value write does not); `false`, with
    /// nothing written, outside the world.
    pub fn set_block(&mut self, position: Vec3i, block: BlockType) -> (r: bool)
        requires
            old(self)@.wf(),
        ensures
            r == old(self)@.contains(position),
            final(self)@.wf(),
            r ==> final(self)@ == old(self)@.with_block(position, block),
            !r ==> final(self)@ == old(self)@,
    {
        if !self.contains_position(position) {
            return false;
        }
        let ghost m = self@;
        let index = self.voxel_slot(position.x as i64, position.y as i64, position.z as i64);
        if self.blocks[index] == block {
            return true;
        }
        let chunk = match self.world_position_to_chunk_coord(position) {
            Some(c) => c,
            None => {
                return true;
            },
        };
        proof {
            lemma_chunk_of_in_grid(m, position);
        }
        let slot = self.chunk_slot((chunk.x, chunk.y, chunk.z));
        let rev = self.revisions[slot];
        let next = if rev == u64::MAX {
            0
        } else {
            rev + 1
        };
        self.blocks.set(index, block);
        self.revisions.set(slot, next);
        proof {
            assert(self@.blocks =~= m.blocks.update(index as int, block));
            assert(self@.entities == m.entities);
        }
        true
    }
}

} // verus!
