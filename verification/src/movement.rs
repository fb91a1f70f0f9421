//! Keyboard movement by chords: two movement keys pressed together, or in
//! quick succession, move diagonally; a lone key moves once its chord
//! window runs out.

use vstd::prelude::*;

use crate::geometry::Vec3i;

verus! {

/// A key of the movement key map.
#[derive(Debug, Clone, Copy, PartialEq, Eq, Structural)]
pub enum MovementKey {
    E,
    D,
    S,
    F,
    /// A mapped key without a direction of its own.
    Other,
}

pub open spec fn movement_direction_spec(key: MovementKey) -> Vec3i {
    match key {
        MovementKey::E => Vec3i { x: 0, y: 1, z: 0 },
        MovementKey::D => Vec3i { x: 0, y: -1i32, z: 0 },
        MovementKey::S => Vec3i { x: -1i32, y: 0, z: 0 },
        MovementKey::F => Vec3i { x: 1, y: 0, z: 0 },
        MovementKey::Other => Vec3i { x: 0, y: 0, z: 0 },
    }
}

/// E north, D south, S west, F east.
pub fn get_movement_direction(key: MovementKey) -> (r: Vec3i)
    ensures
        r == movement_direction_spec(key),
{
    match key {
        MovementKey::E => Vec3i { x: 0, y: 1, z: 0 },
        MovementKey::D => Vec3i { x: 0, y: -1, z: 0 },
        MovementKey::S => Vec3i { x: -1, y: 0, z: 0 },
        MovementKey::F => Vec3i { x: 1, y: 0, z: 0 },
        MovementKey::Other => Vec3i { x: 0, y: 0, z: 0 },
    }
}

/// Component-wise sum of two unit-step directions.
pub open spec fn add_dirs(a: Vec3i, b: Vec3i) -> Vec3i {
    Vec3i { x: (a.x + b.x) as i32, y: (a.y + b.y) as i32, z: (a.z + b.z) as i32 }
}

/// A direction of the key map: each component in -1..=1.
pub open spec fn unit_step(d: Vec3i) -> bool {
    -1 <= d.x <= 1 && -1 <= d.y <= 1 && -1 <= d.z <= 1
}

fn add_directions(a: Vec3i, b: Vec3i) -> (r: Vec3i)
    requires
        unit_step(a),
        unit_step(b),
    ensures
        r == add_dirs(a, b),
{
    Vec3i { x: a.x + b.x, y: a.y + b.y, z: a.z + b.z }
}

pub open spec fn is_zero_dir(d: Vec3i) -> bool {
    d.x == 0 && d.y == 0 && d.z == 0
}

/// A movement key waiting for a second one, with its window's clock in
/// nanoseconds.
#[derive(Debug, Clone, Copy, PartialEq, Eq, Structural)]
pub struct MovementChord {
    pub first_key: Option<MovementKey>,
    pub elapsed_nanos: u128,
    pub duration_nanos: u128,
}

impl MovementChord {
    /// A chord just opened by `key`, open for `duration_nanos`.
    pub fn new(key: MovementKey, duration_nanos: u128) -> (r: MovementChord)
        ensures
            r == (MovementChord { first_key: Some(key), elapsed_nanos: 0, duration_nanos }),
    {
        MovementChord { first_key: Some(key), elapsed_nanos: 0, duration_nanos }
    }
}

/// What one frame of keyboard input does: the moves to start, in order
/// (only non-zero ones), and the chord left open.
#[derive(Debug, Clone)]
pub struct KeyboardMovement {
    pub moves: Vec<Vec3i>,
    pub chord: Option<MovementChord>,
}

/// The moves requested by the directions `dirs`, zero ones dropped.
pub open spec fn nonzero_moves(dirs: Seq<Vec3i>) -> Seq<Vec3i> {
    dirs.filter(|d: Vec3i| !is_zero_dir(d))
}

/// One frame of chord handling, as (directions requested, chord after,
/// whether the chord changed). A request also closes the chord.
pub open spec fn keyboard_movement_spec(
    player_found: bool,
    can_move: bool,
    first_key: Option<MovementKey>,
    second_key: Option<MovementKey>,
    chord: Option<MovementChord>,
    delta_nanos: u128,
    new_chord_nanos: u128,
) -> (Seq<Vec3i>, Option<MovementChord>) {
    if !player_found || !can_move {
        (Seq::empty(), chord)
    } else if first_key is Some && second_key is Some {
        (
            seq![add_dirs(movement_direction_spec(first_key.unwrap()), movement_direction_spec(second_key.unwrap()))],
            None,
        )
    } else {
        match chord {
            Some(c) => match c.first_key {
                None => (Seq::empty(), None),
                Some(held) => match first_key {
                    Some(k) => {
                        let cd = movement_direction_spec(held);
                        let kd = movement_direction_spec(k);
                        let combined = add_dirs(cd, kd);
                        if cd == kd || is_zero_dir(combined) {
                            (seq![kd, combined], None)
                        } else {
                            (seq![combined], None)
                        }
                    },
                    None => {
                        let elapsed = if c.elapsed_nanos + delta_nanos >= c.duration_nanos {
                            c.duration_nanos
                        } else {
                            (c.elapsed_nanos + delta_nanos) as u128
                        };
                        if elapsed >= c.duration_nanos {
                            (seq![movement_direction_spec(held)], None)
                        } else {
                            (Seq::empty(), Some(MovementChord { elapsed_nanos: elapsed, ..c }))
                        }
                    },
                },
            },
            None => match first_key {
                Some(k) => (
                    Seq::empty(),
                    Some(MovementChord { first_key: Some(k), elapsed_nanos: 0, duration_nanos: new_chord_nanos }),
                ),
                None => (Seq::empty(), None),
            },
        }
    }
}

fn push_move(moves: &mut Vec<Vec3i>, d: Vec3i)
    ensures
        final(moves)@ == if is_zero_dir(d) {
            old(moves)@
        } else {
            old(moves)@.push(d)
        },
{
    if !(d.x == 0 && d.y == 0 && d.z == 0) {
        moves.push(d);
    }
}

/// Turn this frame's movement keys into moves. `first_key` and
/// `second_key` are the two lowest just-pressed movement keys; `chord` is
/// the key waiting for a partner, whose window advances by `delta_nanos`;
/// a newly opened window lasts `new_chord_nanos`.
pub fn keyboard_movement(
    player_found: bool,
    can_move: bool,
    first_key: Option<MovementKey>,
    second_key: Option<MovementKey>,
    chord: Option<MovementChord>,
    delta_nanos: u128,
    new_chord_nanos: u128,
) -> (r: KeyboardMovement)
    ensures
        ({
            let (dirs, after) = keyboard_movement_spec(
                player_found,
                can_move,
                first_key,
                second_key,
                chord,
                delta_nanos,
                new_chord_nanos,
            );
            r.moves@ == nonzero_moves(dirs) && r.chord == after
        }),
{
    let ghost spec = keyboard_movement_spec(
        player_found,
        can_move,
        first_key,
        second_key,
        chord,
        delta_nanos,
        new_chord_nanos,
    );
    let mut moves: Vec<Vec3i> = Vec::new();
    if !player_found || !can_move {
        proof {
            assert(nonzero_moves(Seq::empty()) =~= Seq::<Vec3i>::empty());
        }
        return KeyboardMovement { moves, chord };
    }
    if let (Some(a), Some(b)) = (first_key, second_key) {
        let d = add_directions(get_movement_direction(a), get_movement_direction(b));
        push_move(&mut moves, d);
        proof {
            reveal_with_fuel(Seq::filter, 2);
            assert(seq![d].drop_last() =~= Seq::<Vec3i>::empty());
            assert(nonzero_moves(Seq::<Vec3i>::empty()) =~= Seq::<Vec3i>::empty());
            assert(moves@ =~= nonzero_moves(seq![d]));
        }
        return KeyboardMovement { moves, chord: None };
    }
    match chord {
        Some(c) => {
            let held = match c.first_key {
                Some(k) => k,
                None => {
                    proof {
                        assert(nonzero_moves(Seq::empty()) =~= Seq::<Vec3i>::empty());
                    }
                    return KeyboardMovement { moves, chord: None };
                },
            };
            match first_key {
                Some(k) => {
                    let cd = get_movement_direction(held);
                    let kd = get_movement_direction(k);
                    let combined = add_directions(cd, kd);
                    if cd == kd || (combined.x == 0 && combined.y == 0 && combined.z == 0) {
                        push_move(&mut moves, kd);
                        push_move(&mut moves, combined);
                        proof {
                            reveal_with_fuel(Seq::filter, 3);
                            assert(seq![kd, combined].drop_last() =~= seq![kd]);
                            assert(seq![kd].drop_last() =~= Seq::<Vec3i>::empty());
                            assert(nonzero_moves(Seq::<Vec3i>::empty()) =~= Seq::<Vec3i>::empty());
                            assert(moves@ =~= nonzero_moves(seq![kd, combined]));
                        }
                    } else {
                        push_move(&mut moves, combined);
                        proof {
                            reveal_with_fuel(Seq::filter, 2);
                            assert(seq![combined].drop_last() =~= Seq::<Vec3i>::empty());
                            assert(nonzero_moves(Seq::<Vec3i>::empty()) =~= Seq::<Vec3i>::empty());
                            assert(moves@ =~= nonzero_moves(seq![combined]));
                        }
                    }
                    KeyboardMovement { moves, chord: None }
                },
                None => {
                    let elapsed = if delta_nanos >= c.duration_nanos || c.elapsed_nanos >= c.duration_nanos - delta_nanos {
                        c.duration_nanos
                    } else {
                        c.elapsed_nanos + delta_nanos
                    };
                    if elapsed >= c.duration_nanos {
                        let d = get_movement_direction(held);
                        push_move(&mut moves, d);
                        proof {
                            reveal_with_fuel(Seq::filter, 2);
                            assert(seq![d].drop_last() =~= Seq::<Vec3i>::empty());
                            assert(nonzero_moves(Seq::<Vec3i>::empty()) =~= Seq::<Vec3i>::empty());
                            assert(moves@ =~= nonzero_moves(seq![d]));
                        }
                        KeyboardMovement { moves, chord: None }
                    } else {
                        proof {
                            assert(nonzero_moves(Seq::empty()) =~= Seq::<Vec3i>::empty());
                        }
                        KeyboardMovement { moves, chord: Some(MovementChord { elapsed_nanos: elapsed, ..c }) }
                    }
                },
            }
        },
        None => {
            proof {
                assert(nonzero_moves(Seq::empty()) =~= Seq::<Vec3i>::empty());
            }
            match first_key {
                Some(k) => KeyboardMovement { moves, chord: Some(MovementChord::new(k, new_chord_nanos)) },
                None => KeyboardMovement { moves, chord: None },
            }
        },
    }
}

} // verus!
