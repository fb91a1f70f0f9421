use opendwarf::playback::{PlaybackEventKind, ReplayHudState, ReplayKeys, ReplayPlayback, drive_replay_playback};

fn keys(toggle_play: bool, step: bool, reset: bool, toggle_event_list: bool) -> ReplayKeys {
    ReplayKeys { toggle_play, step, reset, toggle_event_list }
}

fn hud() -> ReplayHudState {
    ReplayHudState {
        active: false,
        playing: false,
        cursor: 0,
        total_events: 0,
        tick: 42,
        show_all_events: false,
        event_labels: vec!["label".to_string()],
    }
}

fn recording() -> Vec<PlaybackEventKind> {
    vec![
        PlaybackEventKind::Checkpoint,
        PlaybackEventKind::Command,
        PlaybackEventKind::Command,
        PlaybackEventKind::Update,
        PlaybackEventKind::Command,
    ]
}

#[test]
fn stepping_skips_commands() {
    let mut pb = ReplayPlayback::new(recording());
    assert_eq!(pb.apply_next_replay_event(), Some(0));
    assert_eq!(pb.apply_next_replay_event(), Some(3));
    assert_eq!(pb.cursor(), 4);
    assert_eq!(pb.apply_next_replay_event(), None);
    assert_eq!(pb.cursor(), 5);
    assert_eq!(pb.apply_first_checkpoint(), Some(0));
    assert_eq!(pb.cursor(), 1);
}

#[test]
fn inactive_replay_only_hides_the_display() {
    let mut playback = Some(ReplayPlayback::new(recording()));
    let mut h = hud();
    h.active = true;
    let frame = drive_replay_playback(false, &mut playback, keys(true, true, true, true), &mut h);
    assert!(!frame.reset && frame.apply.is_empty());
    assert!(!h.active);
    assert!(!h.show_all_events);
    assert_eq!(playback.as_ref().map(|p| p.cursor()), Some(0));
    let mut none: Option<ReplayPlayback> = None;
    let frame = drive_replay_playback(true, &mut none, keys(true, false, false, false), &mut h);
    assert!(frame.apply.is_empty());
    assert!(!h.active);
}

#[test]
fn playing_shows_one_event_per_frame_and_pauses_at_the_end() {
    let mut playback = Some(ReplayPlayback::new(recording()));
    let mut h = hud();
    let frame = drive_replay_playback(true, &mut playback, keys(true, false, false, true), &mut h);
    assert_eq!(frame.apply, vec![0]);
    assert!(h.active && h.playing && h.show_all_events);
    assert_eq!(h.total_events, 5);
    assert_eq!(h.tick, 42);
    let frame = drive_replay_playback(true, &mut playback, keys(false, false, false, false), &mut h);
    assert_eq!(frame.apply, vec![3]);
    let frame = drive_replay_playback(true, &mut playback, keys(false, false, false, false), &mut h);
    assert!(frame.apply.is_empty());
    assert!(!h.playing);
    assert_eq!(h.cursor, 5);
    // Reset and step in the same frame: the first event, then the next.
    let frame = drive_replay_playback(true, &mut playback, keys(false, true, true, false), &mut h);
    assert!(frame.reset);
    assert_eq!(frame.apply, vec![0, 3]);
    assert_eq!(h.cursor, 4);
}
