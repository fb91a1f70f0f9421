//! The decisions of one native WebRTC peer between polls of its connection:
//! opening the data channel, keeping the gathered candidates without
//! repeats, the ping/pong keep-alive, the ICE-gathering timeout and when the
//! local description must be refreshed. The caller polls the connection,
//! hands each event in with the current time in milliseconds, and performs
//! what comes back.

use vstd::prelude::*;

use crate::text::chars_of;

verus! {

broadcast use vstd::string::group_string_axioms;

/// How long ICE gathering may run before the peer carries on with the
/// candidates it has, in milliseconds.
pub const ICE_GATHERING_TIMEOUT_MS: u64 = 6000;

/// Delay before the first ping once the offerer's channel opens, in
/// milliseconds.
pub const FIRST_PING_DELAY_MS: u64 = 200;

/// Delay before the next ping once a pong arrives, in milliseconds.
pub const PING_INTERVAL_MS: u64 = 1000;

/// Which side of the connection the peer is.
#[derive(Debug, Clone, Copy, PartialEq, Eq, Structural)]
pub enum PeerRole {
    Offerer,
    Answerer,
}

/// What the connection reported.
#[derive(Debug, Clone)]
pub enum PeerEvent {
    /// The data channel `channel_id` opened.
    ChannelOpened { channel_id: u16 },
    /// A local ICE candidate was gathered (its candidate line).
    CandidateGathered { candidate: String },
    /// ICE gathering started.
    GatheringStarted,
    /// ICE gathering completed.
    GatheringComplete,
    /// A text message arrived on the data channel.
    Text { text: String },
    /// Anything the peer does not act on.
    Other,
}

/// What the caller must do in answer to an event.
#[derive(Debug, Clone, Copy, PartialEq, Eq, Structural)]
pub enum PeerReply {
    Nothing,
    /// Send `"pong"` on the data channel (a failed send is ignored).
    SendPong,
}

/// The decision state of one peer.
#[derive(Debug, Clone)]
pub struct PeerDriveState {
    pub role: PeerRole,
    pub channel_id: Option<u16>,
    pub channel_open: bool,
    pub ping_started: bool,
    pub next_ping_ms: Option<u64>,
    pub ice_gathering_complete: bool,
    pub ice_gathering_started_ms: Option<u64>,
    pub needs_sdp_refresh: bool,
    pub local_candidates: Vec<String>,
}

/// Abstract state of a [`PeerDriveState`].
pub struct PeerModel {
    pub role: PeerRole,
    pub channel_id: Option<u16>,
    pub channel_open: bool,
    pub ping_started: bool,
    pub next_ping_ms: Option<u64>,
    pub ice_gathering_complete: bool,
    pub ice_gathering_started_ms: Option<u64>,
    pub needs_sdp_refresh: bool,
    pub local_candidates: Seq<Seq<char>>,
}

impl View for PeerDriveState {
    type V = PeerModel;

    open spec fn view(&self) -> PeerModel {
        PeerModel {
            role: self.role,
            channel_id: self.channel_id,
            channel_open: self.channel_open,
            ping_started: self.ping_started,
            next_ping_ms: self.next_ping_ms,
            ice_gathering_complete: self.ice_gathering_complete,
            ice_gathering_started_ms: self.ice_gathering_started_ms,
            needs_sdp_refresh: self.needs_sdp_refresh,
            local_candidates: self.local_candidates@.map_values(|s: String| s@),
        }
    }
}

/// The peer state after gathering completes: the local description then
/// needs a refresh, once.
pub open spec fn gathering_done(m: PeerModel) -> PeerModel {
    if m.ice_gathering_complete {
        m
    } else {
        PeerModel { ice_gathering_complete: true, needs_sdp_refresh: true, ..m }
    }
}

/// The state and reply after `event` at time `now`.
pub open spec fn event_spec(m: PeerModel, event: PeerEvent, now: u64) -> (PeerModel, PeerReply) {
    match event {
        PeerEvent::ChannelOpened { channel_id } => {
            let opened = PeerModel { channel_open: true, channel_id: Some(channel_id), ..m };
            if m.role == PeerRole::Offerer && !m.ping_started {
                (
                    PeerModel {
                        next_ping_ms: Some((now + FIRST_PING_DELAY_MS) as u64),
                        ping_started: true,
                        ..opened
                    },
                    PeerReply::Nothing,
                )
            } else {
                (opened, PeerReply::Nothing)
            }
        },
        PeerEvent::CandidateGathered { candidate } => if m.local_candidates.contains(candidate@) {
            (m, PeerReply::Nothing)
        } else {
            (PeerModel { local_candidates: m.local_candidates.push(candidate@), ..m }, PeerReply::Nothing)
        },
        PeerEvent::GatheringStarted => (PeerModel { ice_gathering_started_ms: Some(now), ..m }, PeerReply::Nothing),
        PeerEvent::GatheringComplete => (gathering_done(m), PeerReply::Nothing),
        PeerEvent::Text { text } => if text@ == "ping"@ && m.role == PeerRole::Answerer {
            (m, PeerReply::SendPong)
        } else if text@ == "pong"@ && m.role == PeerRole::Offerer {
            (PeerModel { next_ping_ms: Some((now + PING_INTERVAL_MS) as u64), ..m }, PeerReply::Nothing)
        } else {
            (m, PeerReply::Nothing)
        },
        PeerEvent::Other => (m, PeerReply::Nothing),
    }
}

/// The state after the gathering-timeout check at `now`.
pub open spec fn timeout_spec(m: PeerModel, now: u64) -> PeerModel {
    match m.ice_gathering_started_ms {
        Some(start) => if !m.ice_gathering_complete && now >= start && now - start >= ICE_GATHERING_TIMEOUT_MS {
            gathering_done(m)
        } else {
            m
        },
        None => m,
    }
}

/// A ping is due: the offerer's scheduled time has come and its channel is
/// open.
pub open spec fn ping_due_spec(m: PeerModel, now: u64) -> bool {
    &&& m.role == PeerRole::Offerer
    &&& m.next_ping_ms matches Some(when) && when <= now
    &&& m.channel_open
    &&& m.channel_id is Some
}

/// Whether `s` is exactly the word `w`.
fn is_word(s: &str, w: &str) -> (r: bool)
    ensures
        r == (s@ == w@),
{
    let a = chars_of(s);
    let b = chars_of(w);
    if a.len() != b.len() {
        return false;
    }
    let n = a.len();
    let mut i: usize = 0;
    while i < n
        invariant
            n == a@.len(),
            n == b@.len(),
            a@ == s@,
            b@ == w@,
            i <= n,
            forall|k: int| 0 <= k < i ==> a@[k] == b@[k],
        decreases n - i,
    {
        if a[i] != b[i] {
            return false;
        }
        i = i + 1;
    }
    assert(a@ =~= b@);
    true
}

/// Whether `list` holds a string with the text of `s`.
fn holds_text(list: &Vec<String>, s: &String) -> (r: bool)
    ensures
        r == list@.map_values(|t: String| t@).contains(s@),
{
    let n = list.len();
    let mut i: usize = 0;
    while i < n
        invariant
            n == list@.len(),
            i <= n,
            forall|k: int| 0 <= k < i ==> list@[k]@ != s@,
        decreases n - i,
    {
        if is_word(list[i].as_str(), s.as_str()) {
            assert(list@.map_values(|t: String| t@)[i as int] == s@);
            return true;
        }
        i = i + 1;
    }
    proof {
        let texts = list@.map_values(|t: String| t@);
        if texts.contains(s@) {
            let k = choose|k: int| 0 <= k < texts.len() && #[trigger] texts[k] == s@;
            assert(list@[k]@ == s@);
        }
    }
    false
}

impl PeerDriveState {
    /// A fresh peer of `role`: no channel, no candidates, nothing scheduled.
    pub fn new(role: PeerRole) -> (r: PeerDriveState)
        ensures
            r@ == (PeerModel {
                role,
                channel_id: None,
                channel_open: false,
                ping_started: false,
                next_ping_ms: None,
                ice_gathering_complete: false,
                ice_gathering_started_ms: None,
                needs_sdp_refresh: false,
                local_candidates: Seq::empty(),
            }),
    {
        let r = PeerDriveState {
            role,
            channel_id: None,
            channel_open: false,
            ping_started: false,
            next_ping_ms: None,
            ice_gathering_complete: false,
            ice_gathering_started_ms: None,
            needs_sdp_refresh: false,
            local_candidates: Vec::new(),
        };
        assert(r@.local_candidates =~= Seq::<Seq<char>>::empty());
        r
    }

    fn mark_gathering_complete(&mut self)
        ensures
            final(self)@ == gathering_done(old(self)@),
    {
        if !self.ice_gathering_complete {
            self.ice_gathering_complete = true;
            self.needs_sdp_refresh = true;
        }
    }

    /// Act on one event reported at `now_ms`.
    pub fn on_event(&mut self, event: PeerEvent, now_ms: u64) -> (r: PeerReply)
        requires
            now_ms <= u64::MAX - PING_INTERVAL_MS,
        ensures
            (final(self)@, r) == event_spec(old(self)@, event, now_ms),
    {
        match event {
            PeerEvent::ChannelOpened { channel_id } => {
                self.channel_open = true;
                self.channel_id = Some(channel_id);
                if self.role == PeerRole::Offerer && !self.ping_started {
                    self.next_ping_ms = Some(now_ms + FIRST_PING_DELAY_MS);
                    self.ping_started = true;
                }
                PeerReply::Nothing
            },
            PeerEvent::CandidateGathered { candidate } => {
                if !holds_text(&self.local_candidates, &candidate) {
                    let ghost before = self.local_candidates@;
                    let ghost text = candidate@;
                    self.local_candidates.push(candidate);
                    proof {
                        assert(self.local_candidates@.map_values(|t: String| t@) =~= before.map_values(
                            |t: String| t@,
                        ).push(text));
                    }
                }
                PeerReply::Nothing
            },
            PeerEvent::GatheringStarted => {
                self.ice_gathering_started_ms = Some(now_ms);
                PeerReply::Nothing
            },
            PeerEvent::GatheringComplete => {
                self.mark_gathering_complete();
                PeerReply::Nothing
            },
            PeerEvent::Text { text } => {
                proof {
                    reveal_strlit("ping");
                    reveal_strlit("pong");
                }
                if is_word(text.as_str(), "ping") && self.role == PeerRole::Answerer {
                    PeerReply::SendPong
                } else if is_word(text.as_str(), "pong") && self.role == PeerRole::Offerer {
                    self.next_ping_ms = Some(now_ms + PING_INTERVAL_MS);
                    PeerReply::Nothing
                } else {
                    PeerReply::Nothing
                }
            },
            PeerEvent::Other => PeerReply::Nothing,
        }
    }

    /// Give up waiting for ICE gathering once it has run for
    /// [`ICE_GATHERING_TIMEOUT_MS`] by `now_ms`.
    pub fn check_gathering_timeout(&mut self, now_ms: u64)
        ensures
            final(self)@ == timeout_spec(old(self)@, now_ms),
    {
        if !self.ice_gathering_complete {
            match self.ice_gathering_started_ms {
                Some(start) => {
                    if now_ms >= start && now_ms - start >= ICE_GATHERING_TIMEOUT_MS {
                        self.mark_gathering_complete();
                    }
                },
                None => {},
            }
        }
    }

    /// Whether the local description must be refreshed now: gathering is
    /// complete and the refresh has not been done.
    pub fn sdp_refresh_due(&self) -> (r: bool)
        ensures
            r == (self@.ice_gathering_complete && self@.needs_sdp_refresh),
    {
        self.ice_gathering_complete && self.needs_sdp_refresh
    }

    /// Record that the local description was refreshed.
    pub fn sdp_refreshed(&mut self)
        ensures
            final(self)@ == (PeerModel { needs_sdp_refresh: false, ..old(self)@ }),
    {
        self.needs_sdp_refresh = false;
    }

    /// Whether a ping must be sent now; a due ping is taken off the
    /// schedule (the next one follows the pong).
    pub fn take_due_ping(&mut self, now_ms: u64) -> (r: bool)
        ensures
            r == ping_due_spec(old(self)@, now_ms),
            r ==> final(self)@ == (PeerModel { next_ping_ms: None, ..old(self)@ }),
            !r ==> final(self)@ == old(self)@,
    {
        if self.role != PeerRole::Offerer {
            return false;
        }
        let due = match self.next_ping_ms {
            Some(when) => when <= now_ms,
            None => false,
        };
        if due && self.channel_open && self.channel_id.is_some() {
            self.next_ping_ms = None;
            true
        } else {
            false
        }
    }
}

/// A gathered candidate is kept once: reporting a candidate the peer
/// already holds changes nothing, and the list never holds a repeat.
pub proof fn lemma_candidates_stay_distinct(m: PeerModel, event: PeerEvent, now: u64)
    requires
        m.local_candidates.no_duplicates(),
    ensures
        event_spec(m, event, now).0.local_candidates.no_duplicates(),
{
}

/// Once gathering is complete, neither a later completion nor a timeout
/// asks for a second refresh of the local description.
pub proof fn lemma_refresh_requested_once(m: PeerModel, now: u64)
    requires
        m.ice_gathering_complete,
    ensures
        gathering_done(m) == m,
        timeout_spec(m, now) == m,
{
}

} // verus!
