use opendwarf::geometry::Vec3i;
use opendwarf::movement::{MovementChord, MovementKey, get_movement_direction, keyboard_movement};

const CHORD: u128 = 200_000_000;

#[test]
fn keys_map_to_compass_directions() {
    assert_eq!(get_movement_direction(MovementKey::E), Vec3i::new(0, 1, 0));
    assert_eq!(get_movement_direction(MovementKey::D), Vec3i::new(0, -1, 0));
    assert_eq!(get_movement_direction(MovementKey::S), Vec3i::new(-1, 0, 0));
    assert_eq!(get_movement_direction(MovementKey::F), Vec3i::new(1, 0, 0));
    assert_eq!(get_movement_direction(MovementKey::Other), Vec3i::new(0, 0, 0));
}

#[test]
fn two_keys_at_once_move_diagonally() {
    let r = keyboard_movement(true, true, Some(MovementKey::E), Some(MovementKey::F), None, 0, CHORD);
    assert_eq!(r.moves, vec![Vec3i::new(1, 1, 0)]);
    assert!(r.chord.is_none());
    // Opposite keys cancel out: nothing moves.
    let r = keyboard_movement(true, true, Some(MovementKey::E), Some(MovementKey::D), None, 0, CHORD);
    assert!(r.moves.is_empty());
}

#[test]
fn a_lone_key_opens_a_chord_that_fires_when_it_expires() {
    let r = keyboard_movement(true, true, Some(MovementKey::S), None, None, 0, CHORD);
    assert!(r.moves.is_empty());
    let chord = r.chord.expect("chord opened");
    assert_eq!(chord, MovementChord::new(MovementKey::S, CHORD));
    let r = keyboard_movement(true, true, None, None, Some(chord), 150_000_000, CHORD);
    assert!(r.moves.is_empty());
    let chord = r.chord.expect("still waiting");
    assert_eq!(chord.elapsed_nanos, 150_000_000);
    let r = keyboard_movement(true, true, None, None, Some(chord), 60_000_000, CHORD);
    assert_eq!(r.moves, vec![Vec3i::new(-1, 0, 0)]);
    assert!(r.chord.is_none());
}

#[test]
fn a_second_key_within_the_chord_combines() {
    let chord = MovementChord::new(MovementKey::E, CHORD);
    let r = keyboard_movement(true, true, Some(MovementKey::S), None, Some(chord), 10, CHORD);
    assert_eq!(r.moves, vec![Vec3i::new(-1, 1, 0)]);
    // The same key twice moves once by it and once by the doubled step.
    let r = keyboard_movement(true, true, Some(MovementKey::E), None, Some(chord), 10, CHORD);
    assert_eq!(r.moves, vec![Vec3i::new(0, 1, 0), Vec3i::new(0, 2, 0)]);
    // The opposite key moves by the latest key only.
    let r = keyboard_movement(true, true, Some(MovementKey::D), None, Some(chord), 10, CHORD);
    assert_eq!(r.moves, vec![Vec3i::new(0, -1, 0)]);
    assert!(r.chord.is_none());
}

#[test]
fn no_movement_without_player_or_focus() {
    let chord = Some(MovementChord::new(MovementKey::E, CHORD));
    let r = keyboard_movement(false, true, Some(MovementKey::S), Some(MovementKey::F), chord, CHORD, CHORD);
    assert!(r.moves.is_empty());
    assert_eq!(r.chord, chord);
    let r = keyboard_movement(true, false, Some(MovementKey::S), None, chord, CHORD, CHORD);
    assert!(r.moves.is_empty());
    assert_eq!(r.chord, chord);
    // A chord without a key is dropped.
    let empty = MovementChord { first_key: None, elapsed_nanos: 0, duration_nanos: CHORD };
    let r = keyboard_movement(true, true, None, None, Some(empty), 0, CHORD);
    assert!(r.moves.is_empty() && r.chord.is_none());
}
