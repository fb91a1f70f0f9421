//! Synchronous, headless world simulator: a world plus its primary entity.

use vstd::prelude::*;

use crate::geometry::{BlockType, Vec3i, Vec3u};
use crate::world_state::{
    EntitySnapshot, MoveEntityError, MoveTiming, MoveTimingQuery, StartBits, WorldCommand,
    WorldConfig, WorldModel, WorldSnapshot, WorldState,
};

verus! {

/// The only chunk edge the fixed-size chunk storage supports.
pub const SUPPORTED_CHUNK_EDGE: u32 = 16;

/// Why a command failed.
#[derive(Debug, Clone, Copy, PartialEq, Eq, Structural)]
pub enum WorldCommandError {
    MoveEntity(MoveEntityError),
}

/// Why a configuration was rejected.
#[derive(Debug, Clone, Copy, PartialEq, Eq, Structural)]
pub enum WorldConfigError {
    UnsupportedChunkEdge { chunk_edge: u32 },
}

impl WorldConfig {
    /// The stock configuration: 16-voxel chunks, one chunk, ten ticks per tile.
    pub fn default_config() -> (r: WorldConfig)
        ensures
            r == (WorldConfig {
                chunk_edge: 16,
                world_chunks: Vec3u { x: 1, y: 1, z: 1 },
                movement_ticks_per_tile: 10,
            }),
    {
        WorldConfig {
            chunk_edge: SUPPORTED_CHUNK_EDGE,
            world_chunks: Vec3u { x: 1, y: 1, z: 1 },
            movement_ticks_per_tile: 10,
        }
    }
}

/// Abstract state of a simulator.
pub struct SimModel {
    pub world: WorldModel,
    pub primary: Option<u64>,
}

/// `f` always answers a timing query as `model` does.
pub open spec fn timing_follows<F: Fn(MoveTimingQuery) -> MoveTiming>(
    f: F,
    model: spec_fn(MoveTimingQuery) -> MoveTiming,
) -> bool {
    forall|q: MoveTimingQuery, t: MoveTiming| #[trigger] f.ensures((q,), t) ==> t == model(q)
}

/// Placeholder timing for commands that start no move (never read).
pub open spec fn no_timing() -> MoveTiming {
    MoveTiming { start_bits: StartBits { x: 0, y: 0, z: 0 }, total_ticks: 0 }
}

/// Timing a command receives under `model`.
pub open spec fn timing_for(
    m: WorldModel,
    command: WorldCommand,
    model: spec_fn(MoveTimingQuery) -> MoveTiming,
) -> MoveTiming {
    match m.command_query(command) {
        Some(q) => model(q),
        None => no_timing(),
    }
}

pub open spec fn wrap_error(r: Result<(), MoveEntityError>) -> Result<(), WorldCommandError> {
    match r {
        Ok(()) => Ok(()),
        Err(e) => Err(WorldCommandError::MoveEntity(e)),
    }
}

/// Result and successor world of a command under a timing model.
pub open spec fn step_command(
    m: WorldModel,
    command: WorldCommand,
    model: spec_fn(MoveTimingQuery) -> MoveTiming,
) -> (Result<(), WorldCommandError>, WorldModel) {
    let (r, next) = m.command_outcome(command, timing_for(m, command, model));
    (wrap_error(r), next)
}

/// Some standing cell exists anywhere in the world.
pub open spec fn has_spawn(m: WorldModel) -> bool {
    exists|x: int, y: int| #[trigger] m.in_xy(x, y) && m.spawn_height(x, y) is Some
}

/// The spawn cell chosen for the default player (nearest the origin).
pub open spec fn default_spawn(m: WorldModel) -> Vec3i {
    choose|p: Vec3i| m.is_spawn_choice(Vec3i::zero_spec(), Some(p))
}

/// A freshly constructed simulator.
pub open spec fn initial_sim(config: WorldConfig, cave_open: Seq<bool>, spawn_default_player: bool) -> SimModel {
    let w = WorldModel::initial(config, cave_open);
    if spawn_default_player {
        SimModel { world: w.with_spawned(1, default_spawn(w)), primary: Some(1) }
    } else {
        SimModel { world: w, primary: None }
    }
}

/// A supported standing height lies strictly above the world floor and
/// at or below the starting height.
pub proof fn lemma_supported_from_range(m: WorldModel, x: int, y: int, z: int)
    ensures
        match m.supported_from(x, y, z) {
            Some(h) => m.min_z() < h <= z,
            None => true,
        },
    decreases z - m.min_z(),
{
    if z > m.min_z() && !m.supported_at(x, y, z) {
        lemma_supported_from_range(m, x, y, z - 1);
    }
}

/// At most one cell is the spawn choice for a preferred column.
pub proof fn lemma_spawn_choice_unique(m: WorldModel, pref: Vec3i, p: Vec3i, q: Vec3i)
    requires
        m.is_spawn_choice(pref, Some(p)),
        m.is_spawn_choice(pref, Some(q)),
    ensures
        p == q,
{
    assert(m.in_xy(q.x as int, q.y as int) && m.spawn_height(q.x as int, q.y as int) is Some);
    assert(m.in_xy(p.x as int, p.y as int) && m.spawn_height(p.x as int, p.y as int) is Some);
}

/// Headless world simulator.
pub struct WorldSim {
    state: WorldState,
    primary_entity_id: Option<u64>,
}

impl View for WorldSim {
    type V = SimModel;

    closed spec fn view(&self) -> SimModel {
        SimModel { world: self.state@, primary: self.primary_entity_id }
    }
}

impl WorldSim {
    /// Build a simulator; with `spawn_default_player`, entity 1 is spawned
    /// at the standing cell chosen nearest the origin.
    pub fn new(config: WorldConfig, cave_open: &Vec<bool>, spawn_default_player: bool) -> (r: WorldSim)
        requires
            config.supported(),
            cave_open.len() == config.block_count(),
            spawn_default_player ==> has_spawn(WorldModel::initial(config, cave_open@)),
        ensures
            r@ == initial_sim(config, cave_open@, spawn_default_player),
            r@.world.wf(),
    {
        let mut state = WorldState::new(config, cave_open);
        let mut primary_entity_id = None;
        if spawn_default_player {
            let ghost w = state@;
            let spawn = state.find_spawn_position(Vec3i::zero());
            match spawn {
                Some(p) => {
                    proof {
                        let c = default_spawn(w);
                        assert(w.is_spawn_choice(Vec3i::zero_spec(), Some(p)));
                        lemma_spawn_choice_unique(w, Vec3i::zero_spec(), p, c);
                        lemma_supported_from_range(w, p.x as int, p.y as int, w.max_z());
                    }
                    let _ = state.spawn_entity(1, p);
                    primary_entity_id = Some(1);
                },
                None => {
                    proof {
                        let (x, y) = choose|x: int, y: int| #[trigger] w.in_xy(x, y) && w.spawn_height(x, y) is Some;
                        assert(w.spawn_height(x, y) is None);
                    }
                },
            }
        }
        WorldSim { state, primary_entity_id }
    }

    /// Like [`Self::new`], but rejects any chunk edge other than
    /// [`SUPPORTED_CHUNK_EDGE`].
    pub fn try_new(config: WorldConfig, cave_open: &Vec<bool>, spawn_default_player: bool) -> (r: Result<WorldSim, WorldConfigError>)
        requires
            config.chunk_edge == 16 ==> {
                &&& config.supported()
                &&& cave_open.len() == config.block_count()
                &&& spawn_default_player ==> has_spawn(WorldModel::initial(config, cave_open@))
            },
        ensures
            config.chunk_edge != 16 ==> r == Err::<WorldSim, WorldConfigError>(
                WorldConfigError::UnsupportedChunkEdge { chunk_edge: config.chunk_edge },
            ),
            config.chunk_edge == 16 ==> (r matches Ok(sim) && sim@ == initial_sim(
                config,
                cave_open@,
                spawn_default_player,
            ) && sim@.world.wf()),
    {
        if config.chunk_edge != SUPPORTED_CHUNK_EDGE {
            return Err(WorldConfigError::UnsupportedChunkEdge { chunk_edge: config.chunk_edge });
        }
        Ok(WorldSim::new(config, cave_open, spawn_default_player))
    }

    /// Apply a command against the current tick. A move only starts
    /// interpolation; a refused move changes nothing.
    pub fn send_command<F: Fn(MoveTimingQuery) -> MoveTiming>(
        &mut self,
        command: WorldCommand,
        timing: &F,
    ) -> (r: Result<(), WorldCommandError>)
        requires
            old(self)@.world.wf(),
            forall|q: MoveTimingQuery| timing.requires((q,)),
        ensures
            final(self)@.world.wf(),
            final(self)@.primary == old(self)@.primary,
            command matches WorldCommand::AdvanceTicks { count } ==> r is Ok && final(self)@.world
                == old(self)@.world.after_advance(count) && final(self)@.world.tick
                == crate::world_state::tick_plus(old(self)@.world.tick, count as nat),
            forall|model: spec_fn(MoveTimingQuery) -> MoveTiming|
                timing_follows(*timing, model) ==> (r, final(self)@.world) == step_command(
                    old(self)@.world,
                    command,
                    model,
                ),
            match old(self)@.world.command_query(command) {
                None => (r, final(self)@.world) == step_command(
                    old(self)@.world,
                    command,
                    |q: MoveTimingQuery| no_timing(),
                ),
                Some(q) => exists|t: MoveTiming| #[trigger]
                    timing.ensures((q,), t) && (r, final(self)@.world) == step_command(
                        old(self)@.world,
                        command,
                        |q: MoveTimingQuery| t,
                    ),
            },
    {
        let ghost m = self.state@;
        proof {
            if let WorldCommand::AdvanceTicks { count } = command {
                crate::world_state::lemma_advance_n_tick(m, count as nat);
            }
        }
        let res = self.state.apply_command(command, timing);
        let r = match res {
            Ok(()) => Ok(()),
            Err(e) => Err(WorldCommandError::MoveEntity(e)),
        };
        proof {
            assert forall|model: spec_fn(MoveTimingQuery) -> MoveTiming|
                timing_follows(*timing, model) implies (r, self@.world) == step_command(
                m,
                command,
                model,
            ) by {
                match m.command_query(command) {
                    None => {},
                    Some(q) => {
                        let t = choose|t: MoveTiming| #[trigger]
                            timing.ensures((q,), t) && (res, self.state@) == m.command_outcome(
                                command,
                                t,
                            );
                        assert(t == model(q));
                    },
                }
            }
            match m.command_query(command) {
                None => {},
                Some(q) => {
                    let t = choose|t: MoveTiming| #[trigger]
                        timing.ensures((q,), t) && (res, self.state@) == m.command_outcome(command, t);
                    assert((r, self@.world) == step_command(m, command, |q: MoveTimingQuery| t));
                },
            }
        }
        r
    }

    /// Advance exactly `n` ticks without a wall clock (zero changes
    /// nothing); moves in progress advance by as many ticks.
    pub fn step_ticks(&mut self, n: u32)
        requires
            old(self)@.world.wf(),
        ensures
            final(self)@.world.wf(),
            final(self)@.primary == old(self)@.primary,
            final(self)@.world == old(self)@.world.after_advance(n),
            final(self)@.world.tick == crate::world_state::tick_plus(old(self)@.world.tick, n as nat),
            n == 0 ==> final(self)@ == old(self)@,
    {
        self.state.force_advance_ticks(n);
    }

    /// Logic-essential snapshot.
    pub fn snapshot(&self) -> (r: WorldSnapshot)
        requires
            self@.world.wf(),
        ensures
            r.tick == self@.world.tick,
            r.chunk_edge == self@.world.config.chunk_edge,
            r.world_chunks == self@.world.config.world_chunks,
            crate::ordered::sorted_listing(r.loaded_chunks@, self@.world.loaded),
            crate::world_state::entity_listing(r.entities@, self@.world.entities),
            r.terrain_blocks@ == self@.world.terrain_listing(self@.world.blocks.len() as int),
            r.describes(self@.world),
    {
        self.state.snapshot()
    }

    pub fn primary_entity_id(&self) -> (r: Option<u64>)
        ensures
            r == self@.primary,
    {
        self.primary_entity_id
    }

    pub fn tick_count(&self) -> (r: u64)
        ensures
            r == self@.world.tick,
    {
        self.state.tick_count()
    }

    pub fn world_chunks(&self) -> (r: Vec3u)
        ensures
            r == self@.world.config.world_chunks,
    {
        self.state.world_chunks()
    }

    pub fn chunk_edge(&self) -> (r: u32)
        ensures
            r == self@.world.config.chunk_edge,
    {
        self.state.chunk_edge()
    }

    pub fn world_bounds(&self) -> (r: (Vec3i, Vec3i))
        requires
            self@.world.wf(),
        ensures
            r.0.x == self@.world.min_x(),
            r.0.y == self@.world.min_y(),
            r.0.z == self@.world.min_z(),
            r.1.x == self@.world.max_x(),
            r.1.y == self@.world.max_y(),
            r.1.z == self@.world.max_z(),
    {
        self.state.world_bounds()
    }

    pub fn entity_position(&self, id: u64) -> (r: Option<Vec3i>)
        ensures
            r == (if self@.world.entities.contains_key(id) {
                Some(self@.world.entities[id].position)
            } else {
                None
            }),
    {
        self.state.entity_position(id)
    }

    pub fn entity_snapshot(&self, id: u64) -> (r: Option<EntitySnapshot>)
        requires
            self@.world.wf(),
        ensures
            r == (if self@.world.entities.contains_key(id) {
                Some(crate::world_state::entity_snapshot_spec(id, self@.world.entities[id]))
            } else {
                None
            }),
    {
        self.state.entity_snapshot(id)
    }

    /// Resident chunks in increasing order.
    pub fn loaded_chunk_coords(&self) -> (r: Vec<Vec3i>)
        ensures
            crate::ordered::sorted_listing(r@, self@.world.loaded),
    {
        self.state.loaded_chunk_coords()
    }

    /// Terrain revision of one chunk, `None` outside the chunk grid.
    pub fn chunk_terrain_revision(&self, chunk: Vec3i) -> (r: Option<u64>)
        requires
            self@.world.wf(),
        ensures
            r == self@.world.chunk_revision(chunk.key()),
    {
        self.state.chunk_terrain_revision(chunk)
    }

    /// Copy one chunk's blocks into `out`; see [`WorldState::copy_chunk_blocks`].
    pub fn copy_chunk_blocks(&self, chunk: Vec3i, out: &mut Vec<BlockType>) -> (r: bool)
        requires
            self@.world.wf(),
        ensures
            r == self@.world.in_grid(chunk.key()),
            r ==> final(out)@ == self@.world.chunk_blocks(chunk.key()),
            !r ==> final(out)@ == old(out)@,
    {
        self.state.copy_chunk_blocks(chunk, out)
    }

    /// Write one block of the terrain; see [`WorldState::set_block`].
    pub fn set_block(&mut self, position: Vec3i, block: BlockType) -> (r: bool)
        requires
            old(self)@.world.wf(),
        ensures
            r == old(self)@.world.contains(position),
            final(self)@.world.wf(),
            final(self)@.primary == old(self)@.primary,
            r ==> final(self)@.world == old(self)@.world.with_block(position, block),
            !r ==> final(self)@.world == old(self)@.world,
    {
        self.state.set_block(position, block)
    }

    /// Mutable access to the underlying world state (tests and tooling).
    pub fn state_mut(&mut self) -> (r: &mut WorldState)
        ensures
            r@ == old(self)@.world,
            final(self)@ == (SimModel { world: final(r)@, primary: old(self)@.primary }),
    {
        &mut self.state
    }

    /// The underlying world state.
    pub fn state(&self) -> (r: &WorldState)
        ensures
            r@ == self@.world,
    {
        &self.state
    }
}

/// Entity `id` exists and is mid-move in `w`.
pub open spec fn entity_moving(w: WorldModel, id: u64) -> bool {
    w.entities.contains_key(id) && w.entities[id].movement is Some
}

/// `r` single ticks from `w` are what "tick until `id` is idle, at most
/// `max_ticks` times" performs: `id` is moving before each of them, and
/// unless the bound was reached it is idle afterwards.
pub open spec fn idle_steps(w: WorldModel, id: u64, max_ticks: nat, r: nat) -> bool {
    &&& r <= max_ticks
    &&& forall|j: nat| j < r ==> entity_moving(#[trigger] w.advance_n(j), id)
    &&& (r < max_ticks ==> !entity_moving(w.advance_n(r), id))
}

/// One more tick after `k` ticks is `k + 1` ticks.
pub proof fn lemma_advance_one_more(w: WorldModel, k: nat)
    ensures
        w.advance_n(k).after_advance(1) == w.advance_n(k + 1),
{
    assert(w.advance_n(k).advance_n(1) == w.advance_n(k).advance_n(0).tick_step());
}

/// Advance one tick at a time until `entity_id` has no move in progress, or
/// until `max_ticks` ticks have passed; returns the ticks advanced.
pub fn step_until_idle(sim: &mut WorldSim, entity_id: u64, max_ticks: u32) -> (r: u32)
    requires
        old(sim)@.world.wf(),
    ensures
        final(sim)@.world.wf(),
        final(sim)@.primary == old(sim)@.primary,
        idle_steps(old(sim)@.world, entity_id, max_ticks as nat, r as nat),
        final(sim)@.world == old(sim)@.world.advance_n(r as nat),
{
    let ghost w = sim@.world;
    let mut advanced: u32 = 0;
    while advanced < max_ticks
        invariant
            advanced <= max_ticks,
            sim@.world.wf(),
            sim@.primary == old(sim)@.primary,
            w == old(sim)@.world,
            sim@.world == w.advance_n(advanced as nat),
            forall|j: nat| j < advanced ==> entity_moving(#[trigger] w.advance_n(j), entity_id),
        decreases max_ticks - advanced,
    {
        if !sim.state().entity_is_moving(entity_id) {
            return advanced;
        }
        proof {
            lemma_advance_one_more(w, advanced as nat);
        }
        sim.step_ticks(1);
        advanced = advanced + 1;
    }
    advanced
}

} // verus!
