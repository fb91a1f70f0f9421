use opendwarf::geometry::{Vec3i, Vec3u};
use opendwarf::replay::{
    ReplayApplyError, WorldReplay, WorldReplayEvent, WorldReplayMetadata, WorldReplayRecorder, finish_and_verify_replay,
    replay_commands_to_snapshot, send_command_recorded, step_until_idle_recorded,
};
use opendwarf::world_sim::{WorldCommandError, WorldConfigError, WorldSim, step_until_idle};
use opendwarf::world_state::{
    MoveEntityError, MoveTiming, MoveTimingQuery, StartBits, WorldCommand, WorldConfig,
};

fn default_config() -> WorldConfig {
    WorldConfig::default_config()
}

/// A cave field with no caves: every voxel outside the starter room stays solid.
fn no_caves(config: &WorldConfig) -> Vec<bool> {
    let n = (config.chunk_edge * config.world_chunks.x) as usize
        * (config.chunk_edge * config.world_chunks.y) as usize
        * (config.chunk_edge * config.world_chunks.z) as usize;
    vec![false; n]
}

/// Render-space timing of a new move, as the renderer computes it.
fn timing(q: MoveTimingQuery) -> MoveTiming {
    let (start, from_motion) = match q.in_progress {
        Some(m) => {
            let fraction = m.elapsed_ticks as f32 / m.total_ticks.max(1) as f32;
            let s = [
                f32::from_bits(m.start_bits.x),
                f32::from_bits(m.start_bits.y),
                f32::from_bits(m.start_bits.z),
            ];
            let t = [m.target.x as f32, m.target.y as f32, m.target.z as f32];
            (
                [
                    s[0] + (t[0] - s[0]) * fraction,
                    s[1] + (t[1] - s[1]) * fraction,
                    s[2] + (t[2] - s[2]) * fraction,
                ],
                true,
            )
        }
        None => ([q.position.x as f32, q.position.y as f32, q.position.z as f32], false),
    };
    let distance = if from_motion {
        let dx = q.target.x as f32 - start[0];
        let dy = q.target.y as f32 - start[1];
        let dz = q.target.z as f32 - start[2];
        (dx * dx + dy * dy + dz * dz).sqrt()
    } else {
        let dx = q.direction.x as f32;
        let dy = q.direction.y as f32;
        let dz = q.direction.z as f32;
        (dx * dx + dy * dy + dz * dz).sqrt()
    };
    MoveTiming {
        start_bits: StartBits {
            x: start[0].to_bits(),
            y: start[1].to_bits(),
            z: start[2].to_bits(),
        },
        total_ticks: (distance * q.ticks_per_tile as f32).ceil() as u32,
    }
}

fn new_sim(config: WorldConfig, spawn: bool) -> WorldSim {
    let caves = no_caves(&config);
    WorldSim::new(config, &caves, spawn)
}

#[test]
fn new_with_default_player_spawns_entity_one() {
    let sim = new_sim(default_config(), true);
    assert_eq!(sim.primary_entity_id(), Some(1));
    let snap = sim.snapshot();
    assert_eq!(snap.tick, 0);
    assert_eq!(snap.entities.len(), 1);
    assert_eq!(snap.entities[0].id, 1);
    assert!(snap.entities[0].movement.is_none());
    assert!(!snap.loaded_chunks.is_empty());
    assert!(!snap.terrain_blocks.is_empty());
}

#[test]
fn snapshot_terrain_lies_in_loaded_chunks() {
    let mut sim = new_sim(default_config(), false);
    let full = sim.snapshot().terrain_blocks.len();
    let first = sim.snapshot().loaded_chunks[0];
    sim.send_command(WorldCommand::SetChunkLoaded { chunk: first, loaded: false }, &timing).expect("unload");
    let snap = sim.snapshot();
    assert_eq!(snap.terrain_blocks.len(), full - 16 * 16 * 16);
    for (p, block) in &snap.terrain_blocks {
        let chunk = sim.state().world_position_to_chunk_coord(*p).expect("in world");
        assert!(snap.loaded_chunks.contains(&chunk));
        assert_eq!(sim.state().block_at(*p), Some(*block));
    }
}

#[test]
fn new_without_player_has_no_entities() {
    let sim = new_sim(default_config(), false);
    assert_eq!(sim.primary_entity_id(), None);
    assert!(sim.snapshot().entities.is_empty());
}

#[test]
fn advance_ticks_updates_counter() {
    let mut sim = new_sim(default_config(), false);
    sim.send_command(WorldCommand::AdvanceTicks { count: 4 }, &timing)
        .expect("advance should succeed");
    assert_eq!(sim.snapshot().tick, 4);
    sim.step_ticks(3);
    assert_eq!(sim.snapshot().tick, 7);
}

#[test]
fn narrow_accessors_exactly_match_snapshot_and_bounds() {
    let mut sim = new_sim(default_config(), true);
    assert_eq!(sim.tick_count(), 0);
    assert_eq!(sim.entity_position(999), None);
    assert_eq!(sim.entity_snapshot(999), None);

    let id = sim.primary_entity_id().expect("player");
    let idle_snapshot = sim.snapshot();
    let idle_entity = *idle_snapshot
        .entities
        .iter()
        .find(|entity| entity.id == id)
        .expect("idle entity");
    assert_eq!(sim.entity_position(id), Some(idle_entity.position));
    assert_eq!(sim.entity_snapshot(id), Some(idle_entity));
    let loaded = sim.loaded_chunk_coords();
    assert!(loaded.windows(2).all(|pair| pair[0] < pair[1]));
    assert_eq!(loaded, idle_snapshot.loaded_chunks);
    assert_eq!(sim.world_chunks(), idle_snapshot.world_chunks);
    assert_eq!(sim.chunk_edge(), idle_snapshot.chunk_edge);
    assert_eq!(sim.world_bounds(), sim.state().centered_bounds());
    let direction = [
        Vec3i::new(1, 0, 0),
        Vec3i::new(-1, 0, 0),
        Vec3i::new(0, 1, 0),
        Vec3i::new(0, -1, 0),
    ]
    .into_iter()
    .find(|direction| {
        sim.send_command(
            WorldCommand::MoveEntity {
                id,
                direction: *direction,
            },
            &timing,
        )
        .is_ok()
    })
    .expect("open move");
    let moving_snapshot = sim.snapshot();
    let moving_entity = *moving_snapshot
        .entities
        .iter()
        .find(|entity| entity.id == id)
        .expect("moving entity");
    assert_eq!(
        sim.entity_snapshot(id),
        Some(moving_entity),
        "movement accessor mismatch for {direction:?}"
    );
    assert_eq!(sim.entity_position(id), Some(moving_entity.position));
    assert!(moving_entity.movement.is_some());

    let even = new_sim(
        WorldConfig {
            chunk_edge: 16,
            world_chunks: Vec3u::new(2, 2, 2),
            ..default_config()
        },
        false,
    );
    assert_eq!(
        even.world_bounds(),
        (Vec3i::new(-16, -16, -16), Vec3i::new(15, 15, 15))
    );
    let odd = new_sim(
        WorldConfig {
            chunk_edge: 16,
            world_chunks: Vec3u::new(3, 1, 1),
            ..default_config()
        },
        false,
    );
    assert_eq!(
        odd.world_bounds(),
        (Vec3i::new(-24, -8, -8), Vec3i::new(23, 7, 7))
    );
}

#[test]
fn move_into_unloaded_chunk_fails_closed() {
    let config = WorldConfig {
        chunk_edge: 16,
        world_chunks: Vec3u::new(2, 1, 1),
        ..default_config()
    };
    let mut sim = new_sim(config, true);
    let id = sim.primary_entity_id().expect("player");
    let spawn = sim.snapshot().entities[0].position;

    let chunks: Vec<_> = sim.snapshot().loaded_chunks.iter().copied().collect();
    for chunk in chunks {
        sim.send_command(
            WorldCommand::SetChunkLoaded {
                chunk,
                loaded: false,
            },
            &timing,
        )
        .expect("unload");
    }

    let err = sim
        .send_command(
            WorldCommand::MoveEntity {
                id,
                direction: Vec3i::new(1, 0, 0),
            },
            &timing,
        )
        .expect_err("move into unloaded world should fail");

    assert!(matches!(
        err,
        WorldCommandError::MoveEntity(MoveEntityError::ChunkNotLoaded { .. })
            | WorldCommandError::MoveEntity(MoveEntityError::Blocked)
            | WorldCommandError::MoveEntity(MoveEntityError::OutOfBounds { .. })
    ));
    let after = sim.snapshot().entities[0];
    assert_eq!(after.position, spawn);
    assert!(after.movement.is_none());
}

#[test]
fn move_and_step_until_idle_completes_movement() {
    let mut sim = new_sim(default_config(), true);
    let id = 1;
    let start = sim.snapshot().entities[0].position;

    let dirs = [
        Vec3i::new(1, 0, 0),
        Vec3i::new(-1, 0, 0),
        Vec3i::new(0, 1, 0),
        Vec3i::new(0, -1, 0),
    ];
    let mut started = false;
    for direction in dirs {
        if sim
            .send_command(WorldCommand::MoveEntity { id, direction }, &timing)
            .is_ok()
        {
            started = true;
            break;
        }
    }
    assert!(started, "expected at least one valid move from spawn");
    assert!(sim.snapshot().entities[0].movement.is_some());

    let advanced = step_until_idle(&mut sim, id, 256);
    assert!(advanced > 0);
    let after = sim.snapshot().entities[0];
    assert!(after.movement.is_none());
    assert_ne!(after.position, start);
}

#[test]
fn diagonal_move_starts_with_both_xy_axes() {
    let id = 1;
    let diagonals = [
        Vec3i::new(1, -1, 0),
        Vec3i::new(1, 1, 0),
        Vec3i::new(-1, 1, 0),
        Vec3i::new(-1, -1, 0),
    ];

    for direction in diagonals {
        let mut sim = new_sim(default_config(), true);
        if sim
            .send_command(WorldCommand::MoveEntity { id, direction }, &timing)
            .is_err()
        {
            continue;
        }
        let snapshot = sim.snapshot();
        let movement = snapshot.entities[0]
            .movement
            .as_ref()
            .expect("diagonal movement");
        assert_eq!(
            (movement.target.x - movement.origin.x).signum(),
            direction.x
        );
        assert_eq!(
            (movement.target.y - movement.origin.y).signum(),
            direction.y
        );
        return;
    }

    panic!("expected at least one valid diagonal move from spawn");
}

fn metadata(config: WorldConfig) -> WorldReplayMetadata {
    WorldReplayMetadata {
        world_config: config,
        spawn_default_player: true,
    }
}

#[test]
fn record_replay_round_trip_matches_final_hash() {
    let config = default_config();
    let caves = no_caves(&config);
    let mut sim = WorldSim::new(config, &caves, true);
    let mut recorder = WorldReplayRecorder::new(metadata(config));

    let id = 1;
    let dirs = [
        Vec3i::new(1, 0, 0),
        Vec3i::new(-1, 0, 0),
        Vec3i::new(0, 1, 0),
        Vec3i::new(0, -1, 0),
    ];
    let mut moved = false;
    for direction in dirs {
        if send_command_recorded(
            &mut sim,
            &mut recorder,
            WorldCommand::MoveEntity { id, direction },
            &timing,
        )
        .is_ok()
        {
            moved = true;
            break;
        }
    }
    assert!(moved);
    step_until_idle_recorded(&mut sim, &mut recorder, id, 256, &timing).expect("idle");

    let replay = finish_and_verify_replay(&sim, recorder, &caves, &timing).expect("replay verify");
    let again = replay_commands_to_snapshot(&replay, &caves, &timing).expect("replay again");
    assert!(again.same_as(&replay.final_snapshot));
}

#[test]
fn chunk_load_gate_rejects_then_allows_move() {
    let config = WorldConfig {
        chunk_edge: 16,
        world_chunks: Vec3u::new(2, 1, 1),
        ..default_config()
    };
    let caves = no_caves(&config);
    let mut sim = WorldSim::new(config, &caves, true);
    let id = 1;

    let start = sim.snapshot().entities[0].position;
    let mut recorder = WorldReplayRecorder::new(metadata(config));

    let spawn_chunk = sim
        .state()
        .world_position_to_chunk_coord(start)
        .expect("spawn chunk");
    let all_chunks: Vec<_> = sim.snapshot().loaded_chunks.iter().copied().collect();
    for chunk in all_chunks {
        if chunk != spawn_chunk {
            send_command_recorded(
                &mut sim,
                &mut recorder,
                WorldCommand::SetChunkLoaded {
                    chunk,
                    loaded: false,
                },
                &timing,
            )
            .expect("unload neighbor");
        }
    }

    send_command_recorded(
        &mut sim,
        &mut recorder,
        WorldCommand::SetChunkLoaded {
            chunk: spawn_chunk,
            loaded: false,
        },
        &timing,
    )
    .expect("unload spawn chunk");

    let fail = send_command_recorded(
        &mut sim,
        &mut recorder,
        WorldCommand::MoveEntity {
            id,
            direction: Vec3i::new(1, 0, 0),
        },
        &timing,
    );
    assert!(fail.is_err(), "move with no loaded chunks must fail");
    let blocked = sim.snapshot();

    for chunk in [
        spawn_chunk,
        Vec3i::new(spawn_chunk.x + 1, spawn_chunk.y, spawn_chunk.z),
    ] {
        send_command_recorded(
            &mut sim,
            &mut recorder,
            WorldCommand::SetChunkLoaded {
                chunk,
                loaded: true,
            },
            &timing,
        )
        .expect("reload");
    }

    let mut ok = false;
    for direction in [
        Vec3i::new(1, 0, 0),
        Vec3i::new(-1, 0, 0),
        Vec3i::new(0, 1, 0),
        Vec3i::new(0, -1, 0),
    ] {
        if send_command_recorded(
            &mut sim,
            &mut recorder,
            WorldCommand::MoveEntity { id, direction },
            &timing,
        )
        .is_ok()
        {
            ok = true;
            break;
        }
    }
    assert!(ok, "move should succeed after reload");
    step_until_idle_recorded(&mut sim, &mut recorder, id, 256, &timing).expect("idle");
    assert!(!sim.snapshot().same_as(&blocked));

    finish_and_verify_replay(&sim, recorder, &caves, &timing).expect("chunk gate replay");
}

#[test]
fn multi_chunk_stream_record_replay() {
    let config = WorldConfig {
        chunk_edge: 16,
        world_chunks: Vec3u::new(2, 2, 1),
        ..default_config()
    };
    let caves = no_caves(&config);
    let mut sim = WorldSim::new(config, &caves, true);
    let mut recorder = WorldReplayRecorder::new(metadata(config));

    let id = 1;
    assert!(sim.snapshot().loaded_chunks.len() >= 2);

    for _ in 0..3 {
        let dirs = [
            Vec3i::new(1, 0, 0),
            Vec3i::new(0, 1, 0),
            Vec3i::new(-1, 0, 0),
            Vec3i::new(0, -1, 0),
        ];
        let mut stepped = false;
        for direction in dirs {
            if send_command_recorded(
                &mut sim,
                &mut recorder,
                WorldCommand::MoveEntity { id, direction },
                &timing,
            )
            .is_ok()
            {
                step_until_idle_recorded(&mut sim, &mut recorder, id, 256, &timing).expect("idle");
                stepped = true;
                break;
            }
        }
        assert!(stepped, "expected a successful move in streaming world");
    }

    finish_and_verify_replay(&sim, recorder, &caves, &timing).expect("multi-chunk replay");
}

#[test]
fn boot_snapshot_is_stable_across_runs() {
    let a = new_sim(default_config(), true).snapshot();
    let b = new_sim(default_config(), true).snapshot();
    assert!(a.same_as(&b));
    assert_eq!(a.tick, 0);
    assert_eq!(a.entities.len(), 1);
}

#[test]
fn refused_command_is_not_recorded() {
    let config = default_config();
    let caves = no_caves(&config);
    let mut sim = WorldSim::new(config, &caves, true);
    let mut recorder = WorldReplayRecorder::new(metadata(config));
    let r = send_command_recorded(
        &mut sim,
        &mut recorder,
        WorldCommand::MoveEntity {
            id: 42,
            direction: Vec3i::new(1, 0, 0),
        },
        &timing,
    );
    assert_eq!(
        r,
        Err(WorldCommandError::MoveEntity(MoveEntityError::UnknownEntity))
    );
    assert!(recorder.events().is_empty());
    send_command_recorded(
        &mut sim,
        &mut recorder,
        WorldCommand::AdvanceTicks { count: 3 },
        &timing,
    )
    .expect("advance");
    assert_eq!(recorder.events().len(), 1);
}

#[test]
fn replay_reports_tick_mismatch() {
    let config = default_config();
    let caves = no_caves(&config);
    let sim = WorldSim::new(config, &caves, true);
    let replay = WorldReplay {
        metadata: metadata(config),
        events: vec![
            WorldReplayEvent::Checkpoint { tick: 0 },
            WorldReplayEvent::Command {
                tick_before: 5,
                command: WorldCommand::AdvanceTicks { count: 1 },
            },
        ],
        final_snapshot: sim.snapshot(),
    };
    let r = replay_commands_to_snapshot(&replay, &caves, &timing);
    assert!(matches!(
        r,
        Err(ReplayApplyError::TickMismatch {
            expected: 5,
            actual: 0,
            index: 1
        })
    ));
}

#[test]
fn try_new_refuses_every_unsupported_chunk_edge() {
    for edge in [0u32, 1, 8, 32, u32::MAX] {
        let config = WorldConfig { chunk_edge: edge, ..default_config() };
        match WorldSim::try_new(config, &Vec::new(), true) {
            Err(WorldConfigError::UnsupportedChunkEdge { chunk_edge }) => assert_eq!(chunk_edge, edge),
            Ok(_) => panic!("chunk edge {edge} must be refused"),
        }
    }
    let config = default_config();
    let caves = no_caves(&config);
    assert!(WorldSim::try_new(config, &caves, true).is_ok());
}

#[test]
fn zero_ticks_change_nothing() {
    let mut sim = new_sim(default_config(), true);
    sim.send_command(WorldCommand::AdvanceTicks { count: 2 }, &timing).expect("advance");
    let before = sim.snapshot();
    sim.step_ticks(0);
    assert!(sim.snapshot().same_as(&before));
    sim.send_command(WorldCommand::AdvanceTicks { count: 0 }, &timing).expect("advance by zero");
    assert_eq!(sim.tick_count(), 2);
    assert!(sim.snapshot().same_as(&before));
}
