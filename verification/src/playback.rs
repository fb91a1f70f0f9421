//! Stepping through a recorded session in the client: commands are skipped,
//! world updates and checkpoints are shown one at a time or played back.

use vstd::prelude::*;

verus! {

/// What a recorded event is, as far as playback cares.
#[derive(Debug, Clone, Copy, PartialEq, Eq, Structural)]
pub enum PlaybackEventKind {
    /// A command sent to the simulation (not shown).
    Command,
    /// A world update (snapshot or delta).
    Update,
    /// A full checkpoint snapshot.
    Checkpoint,
}

/// The position of the next shown event at or after `cursor`, if any.
pub open spec fn next_shown(kinds: Seq<PlaybackEventKind>, cursor: int) -> Option<int>
    decreases kinds.len() - cursor,
{
    if cursor < 0 || cursor >= kinds.len() {
        None
    } else if kinds[cursor] != PlaybackEventKind::Command {
        Some(cursor)
    } else {
        next_shown(kinds, cursor + 1)
    }
}

proof fn lemma_next_shown_bounds(kinds: Seq<PlaybackEventKind>, cursor: int)
    requires
        0 <= cursor,
    ensures
        match next_shown(kinds, cursor) {
            Some(i) => cursor <= i < kinds.len() && kinds[i] != PlaybackEventKind::Command,
            None => true,
        },
    decreases kinds.len() - cursor,
{
    if cursor < kinds.len() && kinds[cursor] == PlaybackEventKind::Command {
        lemma_next_shown_bounds(kinds, cursor + 1);
    }
}

/// A loaded recording being played back.
pub struct ReplayPlayback {
    kinds: Vec<PlaybackEventKind>,
    cursor: usize,
    playing: bool,
}

/// Abstract state of a playback.
pub struct PlaybackModel {
    pub kinds: Seq<PlaybackEventKind>,
    pub cursor: nat,
    pub playing: bool,
}

impl View for ReplayPlayback {
    type V = PlaybackModel;

    closed spec fn view(&self) -> PlaybackModel {
        PlaybackModel { kinds: self.kinds@, cursor: self.cursor as nat, playing: self.playing }
    }
}

/// The keys playback reacts to this frame.
#[derive(Debug, Clone, Copy, PartialEq, Eq, Structural)]
pub struct ReplayKeys {
    /// Pause or resume.
    pub toggle_play: bool,
    /// Show the next event.
    pub step: bool,
    /// Restart from the first shown event.
    pub reset: bool,
    /// Show or hide the full event list.
    pub toggle_event_list: bool,
}

/// What the head-up display shows about playback.
#[derive(Debug, Clone)]
pub struct ReplayHudState {
    pub active: bool,
    pub playing: bool,
    pub cursor: usize,
    pub total_events: usize,
    pub tick: u64,
    pub show_all_events: bool,
    pub event_labels: Vec<String>,
}

/// What the caller must do this frame: clear the client world first when
/// `reset`, then apply the events at `apply`, in order.
pub struct PlaybackFrame {
    pub reset: bool,
    pub apply: Vec<usize>,
}

/// The cursor after looking for the next shown event from `cursor`.
pub open spec fn cursor_after(kinds: Seq<PlaybackEventKind>, cursor: int) -> nat {
    match next_shown(kinds, cursor) {
        Some(i) => (i + 1) as nat,
        None => if cursor < kinds.len() { kinds.len() } else { cursor as nat },
    }
}

impl ReplayPlayback {
    /// A paused playback at the start of a recording.
    pub fn new(kinds: Vec<PlaybackEventKind>) -> (r: ReplayPlayback)
        ensures
            r@ == (PlaybackModel { kinds: kinds@, cursor: 0, playing: false }),
    {
        ReplayPlayback { kinds, cursor: 0, playing: false }
    }

    pub fn cursor(&self) -> (r: usize)
        ensures
            r == self@.cursor,
    {
        self.cursor
    }

    pub fn is_playing(&self) -> (r: bool)
        ensures
            r == self@.playing,
    {
        self.playing
    }

    pub fn len(&self) -> (r: usize)
        ensures
            r == self@.kinds.len(),
    {
        self.kinds.len()
    }

    /// Move past commands to the next shown event and return its position;
    /// `None` at the end of the recording.
    pub fn apply_next_replay_event(&mut self) -> (r: Option<usize>)
        ensures
            r == (match next_shown(old(self)@.kinds, old(self)@.cursor as int) {
                Some(i) => Some(i as usize),
                None => None::<usize>,
            }),
            final(self)@ == (PlaybackModel {
                cursor: cursor_after(old(self)@.kinds, old(self)@.cursor as int),
                ..old(self)@
            }),
    {
        let n = self.kinds.len();
        let ghost c0 = self.cursor as int;
        proof {
            lemma_next_shown_bounds(self.kinds@, c0);
        }
        while self.cursor < n
            invariant
                n == self.kinds@.len(),
                c0 <= self.cursor,
                self.cursor <= n || self.cursor == c0,
                self.kinds@ == old(self)@.kinds,
                self.playing == old(self)@.playing,
                c0 == old(self)@.cursor,
                next_shown(self.kinds@, self.cursor as int) == next_shown(self.kinds@, c0),
                c0 < n || self.cursor == c0,
            decreases n - self.cursor,
        {
            let index = self.cursor;
            self.cursor = self.cursor + 1;
            match self.kinds[index] {
                PlaybackEventKind::Command => {},
                _ => {
                    return Some(index);
                },
            }
        }
        None
    }

    /// Restart: rewind and show the first shown event (if any).
    pub fn apply_first_checkpoint(&mut self) -> (r: Option<usize>)
        ensures
            r == (match next_shown(old(self)@.kinds, 0) {
                Some(i) => Some(i as usize),
                None => None::<usize>,
            }),
            final(self)@ == (PlaybackModel { cursor: cursor_after(old(self)@.kinds, 0), ..old(self)@ }),
    {
        self.cursor = 0;
        self.apply_next_replay_event()
    }
}

/// The shown event found from `cursor`, as a position in the recording.
pub open spec fn shown_at(kinds: Seq<PlaybackEventKind>, cursor: int) -> Option<usize> {
    match next_shown(kinds, cursor) {
        Some(i) => Some(i as usize),
        None => None,
    }
}

/// Show the next event from the model's cursor: the model after it and the
/// event shown.
pub open spec fn advance(m: PlaybackModel) -> (PlaybackModel, Option<usize>) {
    (PlaybackModel { cursor: cursor_after(m.kinds, m.cursor as int), ..m }, shown_at(m.kinds, m.cursor as int))
}

/// The events of an optional position, as a sequence of zero or one.
pub open spec fn opt_seq(o: Option<usize>) -> Seq<usize> {
    match o {
        Some(i) => seq![i],
        None => Seq::empty(),
    }
}

/// One frame of playback over the model: the playback after the frame and
/// the events to show, in order.
pub open spec fn drive_model(m: PlaybackModel, keys: ReplayKeys) -> (PlaybackModel, Seq<usize>) {
    let m1 = PlaybackModel { playing: m.playing != keys.toggle_play, ..m };
    let (m2, a0) = if keys.reset {
        advance(PlaybackModel { cursor: 0, ..m1 })
    } else {
        (m1, None)
    };
    let (m3, a1) = if keys.step {
        advance(m2)
    } else {
        (m2, None)
    };
    let (m4, a2) = if m3.playing {
        let (n, a) = advance(m3);
        (if a is None { PlaybackModel { playing: false, ..n } } else { n }, a)
    } else {
        (m3, None)
    };
    (m4, opt_seq(a0) + opt_seq(a1) + opt_seq(a2))
}

/// One frame of playback: react to the keys (pause/resume, restart, step,
/// toggle the event list), then, while playing, show the next event and
/// pause at the end of the recording. Updates the display's flags and
/// counters; the caller fills in the tick and event labels.
pub fn drive_replay_playback(
    replay_active: bool,
    playback: &mut Option<ReplayPlayback>,
    keys: ReplayKeys,
    hud: &mut ReplayHudState,
) -> (r: PlaybackFrame)
    ensures
        !replay_active || (*old(playback)) is None ==> {
            &&& !r.reset
            &&& r.apply@.len() == 0
            &&& *final(hud) == (ReplayHudState { active: false, ..*old(hud) })
            &&& *final(playback) == *old(playback)
        },
        replay_active && (*old(playback)) is Some ==> {
            let (m, shown) = drive_model(old(playback).unwrap()@, keys);
            &&& (*final(playback)) is Some
            &&& final(playback).unwrap()@ == m
            &&& r.reset == keys.reset
            &&& r.apply@ == shown
            &&& *final(hud) == (ReplayHudState {
                active: true,
                playing: m.playing,
                cursor: m.cursor as usize,
                total_events: m.kinds.len() as usize,
                show_all_events: old(hud).show_all_events != keys.toggle_event_list,
                ..*old(hud)
            })
        },
{
    let mut apply: Vec<usize> = Vec::new();
    if !replay_active {
        hud.active = false;
        return PlaybackFrame { reset: false, apply };
    }
    let pb = match playback {
        Some(pb) => pb,
        None => {
            hud.active = false;
            return PlaybackFrame { reset: false, apply };
        },
    };
    hud.active = true;
    hud.total_events = pb.len();
    if keys.toggle_play {
        pb.playing = !pb.playing;
    }
    if keys.reset {
        if let Some(i) = pb.apply_first_checkpoint() {
            apply.push(i);
        }
    }
    if keys.step {
        if let Some(i) = pb.apply_next_replay_event() {
            apply.push(i);
        }
    }
    if keys.toggle_event_list {
        hud.show_all_events = !hud.show_all_events;
    }
    if pb.playing {
        match pb.apply_next_replay_event() {
            Some(i) => apply.push(i),
            None => pb.playing = false,
        }
    }
    hud.playing = pb.playing;
    hud.cursor = pb.cursor;
    PlaybackFrame { reset: keys.reset, apply }
}

} // verus!
