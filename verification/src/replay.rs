//! Command recordings of a simulation and their re-execution.
//!
//! A recording lists every command a simulator accepted, each with the tick
//! it was applied at. Replaying the commands onto a fresh simulator built
//! from the same metadata reproduces the recorded world.

use vstd::prelude::*;

use crate::world_sim::{
    SimModel, WorldCommandError, WorldSim, entity_moving, has_spawn, idle_steps, initial_sim,
    lemma_advance_one_more, no_timing, step_command, timing_follows,
};
use crate::world_state::{
    MoveTiming, MoveTimingQuery, WorldCommand, WorldConfig, WorldModel, WorldSnapshot,
    lemma_snapshot_unique,
};

verus! {

/// What a fresh simulator is built from.
#[derive(Debug, Clone, Copy, PartialEq, Eq, Structural)]
pub struct WorldReplayMetadata {
    pub world_config: WorldConfig,
    pub spawn_default_player: bool,
}

/// One entry of a recording.
#[derive(Debug, Clone, Copy, PartialEq, Eq, Structural)]
pub enum WorldReplayEvent {
    /// A command that was accepted at tick `tick_before`.
    Command { tick_before: u64, command: WorldCommand },
    /// A marker carrying the tick it was taken at; replay skips it.
    Checkpoint { tick: u64 },
}

/// A finished recording: how to start, what happened, and where it ended.
pub struct WorldReplay {
    pub metadata: WorldReplayMetadata,
    pub events: Vec<WorldReplayEvent>,
    pub final_snapshot: WorldSnapshot,
}

/// Why a replay stopped.
#[derive(Debug, Clone, Copy, PartialEq, Eq, Structural)]
pub enum ReplayApplyError {
    Command(WorldCommandError),
    TickMismatch { expected: u64, actual: u64, index: usize },
}

/// Why a finished recording failed to verify.
#[derive(Debug, Clone, Copy, PartialEq, Eq, Structural)]
pub enum ReplayVerifyError {
    /// Re-executing the commands failed.
    Apply(ReplayApplyError),
    /// Re-execution ended in a world other than the recorded one.
    Mismatch,
}

/// The simulator a recording starts from.
pub open spec fn replay_start(meta: WorldReplayMetadata, cave_open: Seq<bool>) -> SimModel {
    initial_sim(meta.world_config, cave_open, meta.spawn_default_player)
}

/// Effect of the event at position `index` on simulator `s`.
pub open spec fn replay_step(
    s: SimModel,
    e: WorldReplayEvent,
    index: int,
    model: spec_fn(MoveTimingQuery) -> MoveTiming,
) -> Result<SimModel, ReplayApplyError> {
    match e {
        WorldReplayEvent::Checkpoint { .. } => Ok(s),
        WorldReplayEvent::Command { tick_before, command } => {
            if s.world.tick != tick_before {
                Err(
                    ReplayApplyError::TickMismatch {
                        expected: tick_before,
                        actual: s.world.tick,
                        index: index as usize,
                    },
                )
            } else {
                let (r, w) = step_command(s.world, command, model);
                match r {
                    Ok(()) => Ok(SimModel { world: w, primary: s.primary }),
                    Err(err) => Err(ReplayApplyError::Command(err)),
                }
            }
        },
    }
}

/// Replaying the first `n` events from `s0`.
pub open spec fn replay_prefix(
    s0: SimModel,
    events: Seq<WorldReplayEvent>,
    n: nat,
    model: spec_fn(MoveTimingQuery) -> MoveTiming,
) -> Result<SimModel, ReplayApplyError>
    decreases n,
{
    if n == 0 {
        Ok(s0)
    } else {
        match replay_prefix(s0, events, (n - 1) as nat, model) {
            Ok(s) => replay_step(s, events[n - 1], n - 1, model),
            Err(e) => Err(e),
        }
    }
}

/// Replaying every event from `s0`.
pub open spec fn replay_all(
    s0: SimModel,
    events: Seq<WorldReplayEvent>,
    model: spec_fn(MoveTimingQuery) -> MoveTiming,
) -> Result<SimModel, ReplayApplyError> {
    replay_prefix(s0, events, events.len(), model)
}

/// Abstract state of a recorder.
pub struct RecorderModel {
    pub metadata: WorldReplayMetadata,
    pub events: Seq<WorldReplayEvent>,
}

/// Replaying the recording onto a fresh simulator (whose cave field is
/// `cave_open`) gives back `s`.
pub open spec fn reproduces(
    rec: RecorderModel,
    cave_open: Seq<bool>,
    model: spec_fn(MoveTimingQuery) -> MoveTiming,
    s: SimModel,
) -> bool {
    replay_all(replay_start(rec.metadata, cave_open), rec.events, model) == Ok::<
        SimModel,
        ReplayApplyError,
    >(s)
}

/// A replay prefix only depends on the events it covers.
pub proof fn lemma_replay_prefix_agree(
    s0: SimModel,
    a: Seq<WorldReplayEvent>,
    b: Seq<WorldReplayEvent>,
    n: nat,
    model: spec_fn(MoveTimingQuery) -> MoveTiming,
)
    requires
        n <= a.len(),
        n <= b.len(),
        forall|i: int| 0 <= i < n ==> a[i] == b[i],
    ensures
        replay_prefix(s0, a, n, model) == replay_prefix(s0, b, n, model),
    decreases n,
{
    if n > 0 {
        lemma_replay_prefix_agree(s0, a, b, (n - 1) as nat, model);
    }
}

/// Once a replay fails, every longer prefix fails the same way.
pub proof fn lemma_replay_error_sticks(
    s0: SimModel,
    events: Seq<WorldReplayEvent>,
    n: nat,
    m: nat,
    model: spec_fn(MoveTimingQuery) -> MoveTiming,
)
    requires
        n <= m,
        replay_prefix(s0, events, n, model) is Err,
    ensures
        replay_prefix(s0, events, m, model) == replay_prefix(s0, events, n, model),
    decreases m - n,
{
    if n < m {
        lemma_replay_error_sticks(s0, events, n, (m - 1) as nat, model);
    }
}

/// Replaying a recording one longer than a prefix takes one more step.
pub proof fn lemma_replay_push(
    s0: SimModel,
    events: Seq<WorldReplayEvent>,
    e: WorldReplayEvent,
    model: spec_fn(MoveTimingQuery) -> MoveTiming,
)
    ensures
        replay_all(s0, events.push(e), model) == match replay_all(s0, events, model) {
            Ok(s) => replay_step(s, e, events.len() as int, model),
            Err(err) => Err(err),
        },
{
    lemma_replay_prefix_agree(s0, events, events.push(e), events.len(), model);
}

/// An empty recording reproduces the simulator it starts from.
pub proof fn lemma_empty_recording_reproduces(
    meta: WorldReplayMetadata,
    cave_open: Seq<bool>,
    model: spec_fn(MoveTimingQuery) -> MoveTiming,
)
    ensures
        reproduces(
            RecorderModel { metadata: meta, events: Seq::empty() },
            cave_open,
            model,
            replay_start(meta, cave_open),
        ),
{
}

/// Appends accepted commands to a recording.
pub struct WorldReplayRecorder {
    metadata: WorldReplayMetadata,
    events: Vec<WorldReplayEvent>,
}

impl View for WorldReplayRecorder {
    type V = RecorderModel;

    closed spec fn view(&self) -> RecorderModel {
        RecorderModel { metadata: self.metadata, events: self.events@ }
    }
}

impl WorldReplayRecorder {
    /// An empty recording of a simulator built from `metadata`.
    pub fn new(metadata: WorldReplayMetadata) -> (r: WorldReplayRecorder)
        ensures
            r@.metadata == metadata,
            r@.events == Seq::<WorldReplayEvent>::empty(),
    {
        WorldReplayRecorder { metadata, events: Vec::new() }
    }

    /// Append a command accepted at `tick_before`.
    pub fn record_command(&mut self, tick_before: u64, command: WorldCommand)
        ensures
            final(self)@.metadata == old(self)@.metadata,
            final(self)@.events == old(self)@.events.push(
                WorldReplayEvent::Command { tick_before, command },
            ),
    {
        self.events.push(WorldReplayEvent::Command { tick_before, command });
    }

    /// The events recorded so far.
    pub fn events(&self) -> (r: &Vec<WorldReplayEvent>)
        ensures
            r@ == self@.events,
    {
        &self.events
    }

    /// Close the recording with the world it ended in.
    pub fn finish(self, final_snapshot: WorldSnapshot) -> (r: WorldReplay)
        ensures
            r.metadata == self@.metadata,
            r.events@ == self@.events,
            r.final_snapshot == final_snapshot,
    {
        WorldReplay { metadata: self.metadata, events: self.events, final_snapshot }
    }
}

/// Re-apply the recorded commands onto a fresh simulator built from the
/// metadata and the world's cave field; checkpoints are skipped.
pub fn replay_commands_to_snapshot<F: Fn(MoveTimingQuery) -> MoveTiming>(
    replay: &WorldReplay,
    cave_open: &Vec<bool>,
    timing: &F,
) -> (r: Result<WorldSnapshot, ReplayApplyError>)
    requires
        replay.metadata.world_config.supported(),
        cave_open.len() == replay.metadata.world_config.block_count(),
        replay.metadata.spawn_default_player ==> has_spawn(
            WorldModel::initial(replay.metadata.world_config, cave_open@),
        ),
        forall|q: MoveTimingQuery| timing.requires((q,)),
    ensures
        forall|model: spec_fn(MoveTimingQuery) -> MoveTiming|
            timing_follows(*timing, model) ==> match replay_all(
                replay_start(replay.metadata, cave_open@),
                replay.events@,
                model,
            ) {
                Ok(s) => r matches Ok(snap) && snap.describes(s.world),
                Err(e) => r == Err::<WorldSnapshot, ReplayApplyError>(e),
            },
{
    let mut sim = WorldSim::new(
        replay.metadata.world_config,
        cave_open,
        replay.metadata.spawn_default_player,
    );
    let ghost s0 = sim@;
    let n = replay.events.len();
    let mut index: usize = 0;
    while index < n
        invariant
            n == replay.events@.len(),
            index <= n,
            s0 == replay_start(replay.metadata, cave_open@),
            sim@.world.wf(),
            forall|q: MoveTimingQuery| timing.requires((q,)),
            forall|model: spec_fn(MoveTimingQuery) -> MoveTiming|
                timing_follows(*timing, model) ==> replay_prefix(
                    s0,
                    replay.events@,
                    index as nat,
                    model,
                ) == Ok::<SimModel, ReplayApplyError>(sim@),
        decreases n - index,
    {
        let event = replay.events[index];
        match event {
            WorldReplayEvent::Checkpoint { .. } => {},
            WorldReplayEvent::Command { tick_before, command } => {
                let actual = sim.tick_count();
                if actual != tick_before {
                    let err = ReplayApplyError::TickMismatch {
                        expected: tick_before,
                        actual,
                        index,
                    };
                    proof {
                        assert forall|model: spec_fn(MoveTimingQuery) -> MoveTiming|
                            timing_follows(*timing, model) implies replay_all(
                            s0,
                            replay.events@,
                            model,
                        ) == Err::<SimModel, ReplayApplyError>(err) by {
                            lemma_replay_error_sticks(
                                s0,
                                replay.events@,
                                (index + 1) as nat,
                                n as nat,
                                model,
                            );
                        }
                    }
                    return Err(err);
                }
                let ghost before = sim@;
                let res = sim.send_command(command, timing);
                match res {
                    Ok(()) => {},
                    Err(e) => {
                        proof {
                            assert forall|model: spec_fn(MoveTimingQuery) -> MoveTiming|
                                timing_follows(*timing, model) implies replay_all(
                                s0,
                                replay.events@,
                                model,
                            ) == Err::<SimModel, ReplayApplyError>(ReplayApplyError::Command(e)) by {
                                assert(step_command(before.world, command, model).0 == res);
                                lemma_replay_error_sticks(
                                    s0,
                                    replay.events@,
                                    (index + 1) as nat,
                                    n as nat,
                                    model,
                                );
                            }
                        }
                        return Err(ReplayApplyError::Command(e));
                    },
                }
            },
        }
        index = index + 1;
    }
    let snap = sim.snapshot();
    proof {
        assert(replay.events@.len() == n);
    }
    Ok(snap)
}

/// Apply a command and, when it is accepted, record it with the tick it was
/// applied at; a refused command leaves the recording as it was.
pub fn send_command_recorded<F: Fn(MoveTimingQuery) -> MoveTiming>(
    sim: &mut WorldSim,
    recorder: &mut WorldReplayRecorder,
    command: WorldCommand,
    timing: &F,
) -> (r: Result<(), WorldCommandError>)
    requires
        old(sim)@.world.wf(),
        forall|q: MoveTimingQuery| timing.requires((q,)),
    ensures
        final(sim)@.world.wf(),
        final(sim)@.primary == old(sim)@.primary,
        forall|model: spec_fn(MoveTimingQuery) -> MoveTiming|
            timing_follows(*timing, model) ==> (r, final(sim)@.world) == step_command(
                old(sim)@.world,
                command,
                model,
            ),
        match old(sim)@.world.command_query(command) {
            None => (r, final(sim)@.world) == step_command(
                old(sim)@.world,
                command,
                |q: MoveTimingQuery| no_timing(),
            ),
            Some(q) => exists|t: MoveTiming| #[trigger]
                timing.ensures((q,), t) && (r, final(sim)@.world) == step_command(
                    old(sim)@.world,
                    command,
                    |q: MoveTimingQuery| t,
                ),
        },
        final(recorder)@.metadata == old(recorder)@.metadata,
        final(recorder)@.events == (if r is Ok {
            old(recorder)@.events.push(
                WorldReplayEvent::Command { tick_before: old(sim)@.world.tick, command },
            )
        } else {
            old(recorder)@.events
        }),
        forall|cave_open: Seq<bool>, model: spec_fn(MoveTimingQuery) -> MoveTiming|
            timing_follows(*timing, model) && #[trigger] reproduces(
                old(recorder)@,
                cave_open,
                model,
                old(sim)@,
            ) ==> reproduces(final(recorder)@, cave_open, model, final(sim)@),
{
    let tick_before = sim.tick_count();
    let ghost s = sim@;
    let result = sim.send_command(command, timing);
    if result.is_ok() {
        recorder.record_command(tick_before, command);
    }
    proof {
        assert forall|cave_open: Seq<bool>, model: spec_fn(MoveTimingQuery) -> MoveTiming|
            timing_follows(*timing, model) && #[trigger] reproduces(
                old(recorder)@,
                cave_open,
                model,
                s,
            ) implies reproduces(recorder@, cave_open, model, sim@) by {
            if result is Ok {
                let s0 = replay_start(old(recorder)@.metadata, cave_open);
                lemma_replay_push(
                    s0,
                    old(recorder)@.events,
                    WorldReplayEvent::Command { tick_before, command },
                    model,
                );
                assert(step_command(s.world, command, model) == (result, sim@.world));
            }
        }
    }
    result
}

/// Advance `n` ticks as one recorded `AdvanceTicks { count: n }`; zero ticks
/// is a no-op that records nothing.
pub fn step_ticks_recorded<F: Fn(MoveTimingQuery) -> MoveTiming>(
    sim: &mut WorldSim,
    recorder: &mut WorldReplayRecorder,
    n: u32,
    timing: &F,
) -> (r: Result<(), WorldCommandError>)
    requires
        old(sim)@.world.wf(),
        forall|q: MoveTimingQuery| timing.requires((q,)),
    ensures
        r == Ok::<(), WorldCommandError>(()),
        final(sim)@.world.wf(),
        final(sim)@.primary == old(sim)@.primary,
        final(sim)@.world == (if n == 0 {
            old(sim)@.world
        } else {
            old(sim)@.world.after_advance(n)
        }),
        final(recorder)@.metadata == old(recorder)@.metadata,
        final(recorder)@.events == (if n == 0 {
            old(recorder)@.events
        } else {
            old(recorder)@.events.push(
                WorldReplayEvent::Command {
                    tick_before: old(sim)@.world.tick,
                    command: WorldCommand::AdvanceTicks { count: n },
                },
            )
        }),
        forall|cave_open: Seq<bool>, model: spec_fn(MoveTimingQuery) -> MoveTiming|
            timing_follows(*timing, model) && #[trigger] reproduces(
                old(recorder)@,
                cave_open,
                model,
                old(sim)@,
            ) ==> reproduces(final(recorder)@, cave_open, model, final(sim)@),
{
    if n == 0 {
        return Ok(());
    }
    send_command_recorded(sim, recorder, WorldCommand::AdvanceTicks { count: n }, timing)
}

/// The events recorded while ticking `w` one tick at a time, `k` times.
pub open spec fn single_tick_events(w: WorldModel, k: nat) -> Seq<WorldReplayEvent> {
    Seq::new(
        k,
        |j: int|
            WorldReplayEvent::Command {
                tick_before: w.advance_n(j as nat).tick,
                command: WorldCommand::AdvanceTicks { count: 1 },
            },
    )
}

/// Like [`crate::world_sim::step_until_idle`], but each tick is recorded as
/// its own `AdvanceTicks { count: 1 }`.
pub fn step_until_idle_recorded<F: Fn(MoveTimingQuery) -> MoveTiming>(
    sim: &mut WorldSim,
    recorder: &mut WorldReplayRecorder,
    entity_id: u64,
    max_ticks: u32,
    timing: &F,
) -> (r: Result<u32, WorldCommandError>)
    requires
        old(sim)@.world.wf(),
        forall|q: MoveTimingQuery| timing.requires((q,)),
    ensures
        r is Ok,
        final(sim)@.world.wf(),
        final(sim)@.primary == old(sim)@.primary,
        r matches Ok(k) && idle_steps(old(sim)@.world, entity_id, max_ticks as nat, k as nat)
            && final(sim)@.world == old(sim)@.world.advance_n(k as nat) && final(recorder)@.events
            == old(recorder)@.events + single_tick_events(old(sim)@.world, k as nat),
        final(recorder)@.metadata == old(recorder)@.metadata,
        forall|cave_open: Seq<bool>, model: spec_fn(MoveTimingQuery) -> MoveTiming|
            timing_follows(*timing, model) && #[trigger] reproduces(
                old(recorder)@,
                cave_open,
                model,
                old(sim)@,
            ) ==> reproduces(final(recorder)@, cave_open, model, final(sim)@),
{
    let ghost w = sim@.world;
    let mut advanced: u32 = 0;
    while advanced < max_ticks
        invariant
            advanced <= max_ticks,
            forall|q: MoveTimingQuery| timing.requires((q,)),
            sim@.world.wf(),
            sim@.primary == old(sim)@.primary,
            w == old(sim)@.world,
            sim@.world == w.advance_n(advanced as nat),
            forall|j: nat| j < advanced ==> entity_moving(#[trigger] w.advance_n(j), entity_id),
            recorder@.metadata == old(recorder)@.metadata,
            recorder@.events == old(recorder)@.events + single_tick_events(w, advanced as nat),
            forall|cave_open: Seq<bool>, model: spec_fn(MoveTimingQuery) -> MoveTiming|
                timing_follows(*timing, model) && #[trigger] reproduces(
                    old(recorder)@,
                    cave_open,
                    model,
                    old(sim)@,
                ) ==> reproduces(recorder@, cave_open, model, sim@),
        decreases max_ticks - advanced,
    {
        if !sim.state().entity_is_moving(entity_id) {
            return Ok(advanced);
        }
        proof {
            lemma_advance_one_more(w, advanced as nat);
        }
        let ghost rec_before = recorder@;
        let ghost sim_before = sim@;
        let _ = step_ticks_recorded(sim, recorder, 1, timing);
        proof {
            assert(recorder@.events =~= old(recorder)@.events + single_tick_events(
                w,
                (advanced + 1) as nat,
            ));
            assert forall|cave_open: Seq<bool>, model: spec_fn(MoveTimingQuery) -> MoveTiming|
                timing_follows(*timing, model) && #[trigger] reproduces(
                    old(recorder)@,
                    cave_open,
                    model,
                    old(sim)@,
                ) implies reproduces(recorder@, cave_open, model, sim@) by {
                assert(reproduces(rec_before, cave_open, model, sim_before));
            }
        }
        advanced = advanced + 1;
    }
    proof {
        assert(recorder@.events =~= old(recorder)@.events + single_tick_events(w, advanced as nat));
    }
    Ok(advanced)
}

/// Finish a recording and check that replaying it reproduces the world the
/// simulator ended in.
pub fn finish_and_verify_replay<F: Fn(MoveTimingQuery) -> MoveTiming>(
    sim: &WorldSim,
    recorder: WorldReplayRecorder,
    cave_open: &Vec<bool>,
    timing: &F,
) -> (r: Result<WorldReplay, ReplayVerifyError>)
    requires
        sim@.world.wf(),
        recorder@.metadata.world_config.supported(),
        cave_open.len() == recorder@.metadata.world_config.block_count(),
        recorder@.metadata.spawn_default_player ==> has_spawn(
            WorldModel::initial(recorder@.metadata.world_config, cave_open@),
        ),
        forall|q: MoveTimingQuery| timing.requires((q,)),
    ensures
        r matches Ok(rep) ==> rep.metadata == recorder@.metadata && rep.events@
            == recorder@.events && rep.final_snapshot.describes(sim@.world),
        forall|model: spec_fn(MoveTimingQuery) -> MoveTiming|
            timing_follows(*timing, model) ==> match r {
                Ok(rep) => replay_all(
                    replay_start(recorder@.metadata, cave_open@),
                    recorder@.events,
                    model,
                ) matches Ok(s) && rep.final_snapshot.describes(s.world),
                Err(ReplayVerifyError::Apply(e)) => replay_all(
                    replay_start(recorder@.metadata, cave_open@),
                    recorder@.events,
                    model,
                ) == Err::<SimModel, ReplayApplyError>(e),
                Err(ReplayVerifyError::Mismatch) => replay_all(
                    replay_start(recorder@.metadata, cave_open@),
                    recorder@.events,
                    model,
                ) matches Ok(s) && !(exists|snap: WorldSnapshot|
                    #[trigger] snap.describes(s.world) && snap.describes(sim@.world)),
            },
        forall|model: spec_fn(MoveTimingQuery) -> MoveTiming|
            timing_follows(*timing, model) && #[trigger] reproduces(
                recorder@,
                cave_open@,
                model,
                sim@,
            ) ==> r is Ok,
{
    let ghost rec = recorder@;
    let final_snapshot = sim.snapshot();
    let replay = recorder.finish(final_snapshot);
    match replay_commands_to_snapshot(&replay, cave_open, timing) {
        Err(e) => Err(ReplayVerifyError::Apply(e)),
        Ok(replayed) => {
            if replayed.same_as(&replay.final_snapshot) {
                proof {
                    assert forall|model: spec_fn(MoveTimingQuery) -> MoveTiming|
                        timing_follows(*timing, model) implies replay_all(
                        replay_start(rec.metadata, cave_open@),
                        rec.events,
                        model,
                    ) matches Ok(s) && replay.final_snapshot.describes(s.world) by {
                        let s = replay_all(
                            replay_start(rec.metadata, cave_open@),
                            rec.events,
                            model,
                        )->Ok_0;
                        assert(replayed.describes(s.world));
                        assert(replayed.loaded_chunks@ == replay.final_snapshot.loaded_chunks@);
                        assert(replayed.entities@ == replay.final_snapshot.entities@);
                    }
                }
                Ok(replay)
            } else {
                proof {
                    assert forall|model: spec_fn(MoveTimingQuery) -> MoveTiming|
                        timing_follows(*timing, model) implies replay_all(
                        replay_start(rec.metadata, cave_open@),
                        rec.events,
                        model,
                    ) matches Ok(s) && !(exists|snap: WorldSnapshot|
                        #[trigger] snap.describes(s.world) && snap.describes(sim@.world)) by {
                        let s = replay_all(
                            replay_start(rec.metadata, cave_open@),
                            rec.events,
                            model,
                        )->Ok_0;
                        if exists|snap: WorldSnapshot|
                            #[trigger] snap.describes(s.world) && snap.describes(sim@.world) {
                            let snap = choose|snap: WorldSnapshot|
                                #[trigger] snap.describes(s.world) && snap.describes(sim@.world);
                            lemma_snapshot_unique(snap, replayed, s.world);
                            lemma_snapshot_unique(snap, replay.final_snapshot, sim@.world);
                        }
                    }
                    assert forall|model: spec_fn(MoveTimingQuery) -> MoveTiming|
                        timing_follows(*timing, model) && #[trigger] reproduces(
                            rec,
                            cave_open@,
                            model,
                            sim@,
                        ) implies false by {
                        lemma_snapshot_unique(replayed, replay.final_snapshot, sim@.world);
                    }
                }
                Err(ReplayVerifyError::Mismatch)
            }
        },
    }
}

} // verus!
