//! The multiplayer menu's connection workflow: hosts generate offers and
//! accept an answer, guests answer an offer; payloads travel through the
//! clipboard.
//!
//! The controller only decides. Whoever owns the WebRTC manager, the
//! clipboard and the timers performs the work and reports what happened.

use vstd::prelude::*;
use vstd::string::StringExecFns;

use crate::text::{blank, contains_text, has_substring, is_blank};

verus! {

broadcast use vstd::string::group_string_axioms;

/// One side of a connection: the key it is known by and its SDP.
#[derive(Debug, Clone)]
pub struct RemotePeer {
    pub key: String,
    pub sdp: String,
}

/// One ICE server entry.
#[derive(Debug, Clone)]
pub struct RtcIceServerConfig {
    pub urls: Vec<String>,
}

/// ICE configuration handed to new peer connections.
#[derive(Debug, Clone)]
pub struct RtcConfig {
    pub ice_servers: Vec<RtcIceServerConfig>,
}

/// The configuration peers start with: one server entry with two public
/// STUN URLs.
pub open spec fn is_default_rtc_config(c: RtcConfig) -> bool {
    &&& c.ice_servers@.len() == 1
    &&& c.ice_servers@[0].urls@.len() == 2
    &&& c.ice_servers@[0].urls@[0]@ == "stun:stun1.l.google.com:19302"@
    &&& c.ice_servers@[0].urls@[1]@ == "stun:stun3.l.google.com:19302"@
}

impl Default for RtcConfig {
    fn default() -> (r: RtcConfig)
        ensures
            is_default_rtc_config(r),
    {
        let mut urls: Vec<String> = Vec::new();
        urls.push("stun:stun1.l.google.com:19302".to_string());
        urls.push("stun:stun3.l.google.com:19302".to_string());
        let mut ice_servers: Vec<RtcIceServerConfig> = Vec::new();
        ice_servers.push(RtcIceServerConfig { urls });
        RtcConfig { ice_servers }
    }
}

/// The default ICE configuration.
pub fn default_rtc_config() -> (r: RtcConfig)
    ensures
        is_default_rtc_config(r),
{
    RtcConfig::default()
}

/// Progress of offer and answer generation.
#[derive(Debug, Clone, Copy, PartialEq, Eq, Structural, Default)]
pub struct GenerationFlags {
    pub offers_generating: bool,
    pub answers_generating: bool,
    pub offers_ready: bool,
    pub answers_ready: bool,
}

/// A button of the multiplayer menu.
#[derive(Debug, Clone, Copy, PartialEq, Eq, Structural)]
pub enum MultiplayerAction {
    GenerateConnections,
    CopyOfferPayload,
    AcceptAnswerPayload,
    GenerateAnswerConnections,
    CopyAnswerPayload,
}

/// What the last clipboard scan found.
#[derive(Debug, Clone, Copy, PartialEq, Eq, Structural, Default)]
pub struct ClipboardScanResult {
    pub offer_available: bool,
    pub answer_available: bool,
}

/// How the menu's presence changed this frame.
#[derive(Debug, Clone, Copy, PartialEq, Eq, Structural)]
pub enum MenuPresenceChange {
    Opened,
    Closed,
    Unchanged,
}

/// Which kind of SDP a clipboard payload carries.
#[derive(Debug, Clone, Copy, PartialEq, Eq, Structural)]
pub enum ClipboardPayloadKind {
    Offer,
    Answer,
}

/// Which side of the workflow this client is on.
#[derive(Debug, Clone, Copy, PartialEq, Eq, Structural)]
pub enum MultiplayerFlow {
    Inactive,
    Host,
    Guest,
}

/// An SDP that offers (its setup role is still open).
pub open spec fn sdp_offers(sdp: Seq<char>) -> bool {
    has_substring(sdp, "a=setup:actpass"@)
}

/// An SDP that answers (its setup role is decided).
pub open spec fn sdp_answers(sdp: Seq<char>) -> bool {
    has_substring(sdp, "a=setup:active"@) || has_substring(sdp, "a=setup:passive"@)
}

/// A payload is an offer when some peer offers and none answers, an answer
/// when some peer answers and none offers, and undecided otherwise.
pub open spec fn classify_spec(p: Seq<RemotePeer>) -> Option<ClipboardPayloadKind> {
    let saw_offer = exists|i: int| 0 <= i < p.len() && #[trigger] sdp_offers(p[i].sdp@);
    let saw_answer = exists|i: int| 0 <= i < p.len() && #[trigger] sdp_answers(p[i].sdp@);
    if saw_offer && !saw_answer {
        Some(ClipboardPayloadKind::Offer)
    } else if !saw_offer && saw_answer {
        Some(ClipboardPayloadKind::Answer)
    } else {
        None
    }
}

/// A usable payload: at least one peer, each with a non-blank key and SDP.
pub open spec fn valid_payload_spec(p: Seq<RemotePeer>) -> bool {
    &&& p.len() > 0
    &&& forall|i: int| 0 <= i < p.len() ==> !blank(#[trigger] p[i].key@) && !blank(p[i].sdp@)
}

/// Whether the payload holds offers or answers.
pub fn classify_payload(payload: &[RemotePeer]) -> (r: Option<ClipboardPayloadKind>)
    ensures
        r == classify_spec(payload@),
{
    let mut saw_offer = false;
    let mut saw_answer = false;
    let n = payload.len();
    let mut i: usize = 0;
    while i < n
        invariant
            n == payload@.len(),
            i <= n,
            saw_offer == exists|k: int| 0 <= k < i && #[trigger] sdp_offers(payload@[k].sdp@),
            saw_answer == exists|k: int| 0 <= k < i && #[trigger] sdp_answers(payload@[k].sdp@),
        decreases n - i,
    {
        let sdp = payload[i].sdp.as_str();
        let offers = contains_text(sdp, "a=setup:actpass");
        let answers = contains_text(sdp, "a=setup:active") || contains_text(sdp, "a=setup:passive");
        proof {
            assert(offers == sdp_offers(payload@[i as int].sdp@));
            assert(answers == sdp_answers(payload@[i as int].sdp@));
            assert forall|k: int| 0 <= k < i + 1 && #[trigger] sdp_offers(payload@[k].sdp@) implies (
            0 <= k < i && sdp_offers(payload@[k].sdp@)) || offers by {}
            assert forall|k: int| 0 <= k < i + 1 && #[trigger] sdp_answers(payload@[k].sdp@) implies (
            0 <= k < i && sdp_answers(payload@[k].sdp@)) || answers by {}
        }
        if offers {
            saw_offer = true;
        }
        if answers {
            saw_answer = true;
        }
        i = i + 1;
    }
    if saw_offer && !saw_answer {
        Some(ClipboardPayloadKind::Offer)
    } else if !saw_offer && saw_answer {
        Some(ClipboardPayloadKind::Answer)
    } else {
        None
    }
}

/// Whether the payload is usable.
pub fn is_valid_payload(payload: &[RemotePeer]) -> (r: bool)
    ensures
        r == valid_payload_spec(payload@),
{
    let n = payload.len();
    if n == 0 {
        return false;
    }
    let mut i: usize = 0;
    while i < n
        invariant
            n == payload@.len(),
            i <= n,
            forall|k: int| 0 <= k < i ==> !blank(#[trigger] payload@[k].key@) && !blank(
                payload@[k].sdp@,
            ),
        decreases n - i,
    {
        let key_blank = is_blank(payload[i].key.as_str());
        let sdp_blank = is_blank(payload[i].sdp.as_str());
        if key_blank || sdp_blank {
            return false;
        }
        let ghost prev = i;
        assert(!blank(payload@[prev as int].key@) && !blank(payload@[prev as int].sdp@));
        i = i + 1;
        assert forall|k: int| 0 <= k < i implies !blank(#[trigger] payload@[k].key@) && !blank(
            payload@[k].sdp@,
        ) by {
            if k < prev {
            } else {
                assert(k == prev);
            }
        }
    }
    true
}

/// Abstract state of the controller.
pub struct ControllerModel {
    pub clipboard_text: Option<Seq<char>>,
    pub enabled: bool,
    pub menu_open: bool,
    pub started: bool,
    pub flow: MultiplayerFlow,
    pub guest_connected: bool,
    pub clipboard_scan: ClipboardScanResult,
    pub generation: GenerationFlags,
}

/// How the outside work behind a menu action turned out.
#[derive(Debug, Clone)]
pub enum ActionOutcome {
    /// The WebRTC manager could not be created.
    ManagerUnavailable,
    /// The clipboard payload could not be read, decoded, or was empty.
    PayloadUnreadable,
    /// The manager refused the operation.
    Failed,
    /// The operation succeeded.
    Succeeded,
    /// The payload was produced but the clipboard refused it; the text is
    /// kept so that a later read can fall back to it.
    ClipboardRefused(String),
}

/// What a native driver pass reported, when a manager exists.
#[derive(Debug, Clone, Copy, PartialEq, Eq, Structural)]
pub struct DriveReport {
    pub offers_ready: bool,
    pub answers_ready: bool,
    pub guest_connected: bool,
}

/// Which generation a web completion belongs to.
#[derive(Debug, Clone, Copy, PartialEq, Eq, Structural)]
pub enum GenerationKind {
    Offers,
    Answers,
}

/// The scan result a payload gives: offers and answers are told apart by
/// their SDP; an undecided payload is an answer when this side already has
/// offers out, and an offer otherwise.
pub open spec fn scan_spec(p: Seq<RemotePeer>, has_local_offers: bool) -> ClipboardScanResult {
    if !valid_payload_spec(p) {
        ClipboardScanResult { offer_available: false, answer_available: false }
    } else {
        let kind = match classify_spec(p) {
            Some(k) => k,
            None => if has_local_offers {
                ClipboardPayloadKind::Answer
            } else {
                ClipboardPayloadKind::Offer
            },
        };
        match kind {
            ClipboardPayloadKind::Offer => ClipboardScanResult {
                offer_available: true,
                answer_available: false,
            },
            ClipboardPayloadKind::Answer => ClipboardScanResult {
                offer_available: false,
                answer_available: true,
            },
        }
    }
}

/// The multiplayer menu's state machine.
pub struct MultiplayerController {
    clipboard_text: Option<String>,
    enabled: bool,
    menu_open: bool,
    started: bool,
    flow: MultiplayerFlow,
    guest_connected: bool,
    clipboard_scan: ClipboardScanResult,
    generation: GenerationFlags,
}

pub open spec fn opt_chars(s: Option<String>) -> Option<Seq<char>> {
    match s {
        Some(t) => Some(t@),
        None => None,
    }
}

impl View for MultiplayerController {
    type V = ControllerModel;

    closed spec fn view(&self) -> ControllerModel {
        ControllerModel {
            clipboard_text: opt_chars(self.clipboard_text),
            enabled: self.enabled,
            menu_open: self.menu_open,
            started: self.started,
            flow: self.flow,
            guest_connected: self.guest_connected,
            clipboard_scan: self.clipboard_scan,
            generation: self.generation,
        }
    }
}

/// The controller before the menu was ever opened.
pub open spec fn initial_controller() -> ControllerModel {
    ControllerModel {
        clipboard_text: None,
        enabled: false,
        menu_open: false,
        started: false,
        flow: MultiplayerFlow::Inactive,
        guest_connected: false,
        clipboard_scan: ClipboardScanResult { offer_available: false, answer_available: false },
        generation: GenerationFlags {
            offers_generating: false,
            answers_generating: false,
            offers_ready: false,
            answers_ready: false,
        },
    }
}

/// Effect of the menu being present (or not) this frame, given whether the
/// manager holds peers and local offers.
pub open spec fn sync_spec(
    m: ControllerModel,
    menu_present: bool,
    has_peers: bool,
    has_local_offers: bool,
) -> (ControllerModel, MenuPresenceChange) {
    let m1 = if has_peers {
        ControllerModel {
            started: true,
            flow: if m.flow == MultiplayerFlow::Inactive {
                if has_local_offers {
                    MultiplayerFlow::Host
                } else {
                    MultiplayerFlow::Guest
                }
            } else {
                m.flow
            },
            ..m
        }
    } else {
        m
    };
    let m2 = ControllerModel { menu_open: menu_present, ..m1 };
    let m3 = if menu_present {
        ControllerModel { enabled: true, ..m2 }
    } else if m.menu_open && !(m2.started || has_peers) {
        ControllerModel {
            enabled: false,
            started: false,
            flow: MultiplayerFlow::Inactive,
            guest_connected: false,
            clipboard_scan: ClipboardScanResult { offer_available: false, answer_available: false },
            ..m2
        }
    } else {
        m2
    };
    let change = if !m.menu_open && menu_present {
        MenuPresenceChange::Opened
    } else if m.menu_open && !menu_present {
        MenuPresenceChange::Closed
    } else {
        MenuPresenceChange::Unchanged
    };
    (m3, change)
}

/// Effect of a native menu action whose outside work ended in `outcome`
/// (`kept` is the text a refused clipboard write leaves behind).
pub open spec fn native_action_spec(
    m: ControllerModel,
    action: MultiplayerAction,
    succeeded: bool,
    kept: Option<Seq<char>>,
) -> ControllerModel {
    match action {
        MultiplayerAction::GenerateConnections => {
            let g = GenerationFlags {
                offers_generating: succeeded,
                offers_ready: false,
                ..m.generation
            };
            ControllerModel {
                generation: g,
                flow: MultiplayerFlow::Host,
                guest_connected: false,
                enabled: m.enabled || succeeded,
                started: m.started || succeeded,
                ..m
            }
        },
        MultiplayerAction::GenerateAnswerConnections => {
            let g = GenerationFlags {
                answers_generating: succeeded,
                answers_ready: false,
                ..m.generation
            };
            ControllerModel {
                generation: g,
                flow: MultiplayerFlow::Guest,
                guest_connected: false,
                enabled: m.enabled || succeeded,
                started: m.started || succeeded,
                ..m
            }
        },
        MultiplayerAction::AcceptAnswerPayload => ControllerModel {
            flow: MultiplayerFlow::Host,
            clipboard_scan: ClipboardScanResult { offer_available: false, answer_available: false },
            clipboard_text: None,
            ..m
        },
        MultiplayerAction::CopyOfferPayload | MultiplayerAction::CopyAnswerPayload => match kept {
            Some(t) => ControllerModel { clipboard_text: Some(t), ..m },
            None => m,
        },
    }
}

/// Effect of a web menu action at the moment it is triggered (the manager
/// was available); generation completes later.
pub open spec fn web_action_spec(m: ControllerModel, action: MultiplayerAction) -> ControllerModel {
    match action {
        MultiplayerAction::GenerateConnections => ControllerModel {
            generation: GenerationFlags {
                offers_generating: true,
                offers_ready: false,
                ..m.generation
            },
            enabled: true,
            flow: MultiplayerFlow::Host,
            started: true,
            guest_connected: false,
            ..m
        },
        MultiplayerAction::GenerateAnswerConnections => ControllerModel {
            generation: GenerationFlags {
                answers_generating: true,
                answers_ready: false,
                ..m.generation
            },
            enabled: true,
            flow: MultiplayerFlow::Guest,
            started: true,
            guest_connected: false,
            ..m
        },
        MultiplayerAction::AcceptAnswerPayload => ControllerModel { flow: MultiplayerFlow::Host, ..m },
        _ => m,
    }
}

/// Effect of a native driver pass.
pub open spec fn drive_spec(m: ControllerModel, report: Option<DriveReport>) -> ControllerModel {
    match report {
        Some(rep) if m.enabled => {
            let g0 = m.generation;
            let g1 = if g0.offers_generating && rep.offers_ready {
                GenerationFlags { offers_generating: false, offers_ready: true, ..g0 }
            } else {
                g0
            };
            let g2 = if g0.answers_generating && rep.answers_ready {
                GenerationFlags { answers_generating: false, answers_ready: true, ..g1 }
            } else {
                g1
            };
            ControllerModel { guest_connected: rep.guest_connected, generation: g2, ..m }
        },
        _ => m,
    }
}

impl Default for MultiplayerController {
    fn default() -> (r: MultiplayerController)
        ensures
            r@ == initial_controller(),
    {
        MultiplayerController {
            clipboard_text: None,
            enabled: false,
            menu_open: false,
            started: false,
            flow: MultiplayerFlow::Inactive,
            guest_connected: false,
            clipboard_scan: ClipboardScanResult { offer_available: false, answer_available: false },
            generation: GenerationFlags {
                offers_generating: false,
                answers_generating: false,
                offers_ready: false,
                answers_ready: false,
            },
        }
    }
}

impl MultiplayerController {
    pub fn is_enabled(&self) -> (r: bool)
        ensures
            r == self@.enabled,
    {
        self.enabled
    }

    pub fn flow_state(&self) -> (r: MultiplayerFlow)
        ensures
            r == self@.flow,
    {
        self.flow
    }

    pub fn guest_connected(&self) -> (r: bool)
        ensures
            r == self@.guest_connected,
    {
        self.guest_connected
    }

    pub fn generation_flags(&self) -> (r: GenerationFlags)
        ensures
            r == self@.generation,
    {
        self.generation
    }

    pub fn clipboard_scan(&self) -> (r: ClipboardScanResult)
        ensures
            r == self@.clipboard_scan,
    {
        self.clipboard_scan
    }

    /// Track whether the menu is on screen. A manager with peers marks the
    /// session started (and picks host or guest by whether it has offers);
    /// closing the menu of a session that never started resets it.
    pub fn sync_menu_presence(
        &mut self,
        menu_present: bool,
        has_peers: bool,
        has_local_offers: bool,
    ) -> (r: MenuPresenceChange)
        ensures
            (final(self)@, r) == sync_spec(old(self)@, menu_present, has_peers, has_local_offers),
    {
        let was_open = self.menu_open;
        if has_peers {
            self.started = true;
            if self.flow == MultiplayerFlow::Inactive {
                self.flow = if has_local_offers {
                    MultiplayerFlow::Host
                } else {
                    MultiplayerFlow::Guest
                };
            }
        }
        self.menu_open = menu_present;
        if menu_present {
            self.enabled = true;
        } else if was_open && !(self.started || has_peers) {
            self.enabled = false;
            self.started = false;
            self.flow = MultiplayerFlow::Inactive;
            self.guest_connected = false;
            self.clipboard_scan = ClipboardScanResult { offer_available: false, answer_available: false };
        }
        if !was_open && menu_present {
            MenuPresenceChange::Opened
        } else if was_open && !menu_present {
            MenuPresenceChange::Closed
        } else {
            MenuPresenceChange::Unchanged
        }
    }

    /// The clipboard text to use: what the clipboard returned, or, when it
    /// could not be read, the text of the last refused write.
    pub fn clipboard_text_or_buffer(&self, read: Result<String, String>) -> (r: Result<
        String,
        String,
    >)
        ensures
            match read {
                Ok(t) => r == Ok::<String, String>(t),
                Err(e) => match self@.clipboard_text {
                    Some(b) => r matches Ok(t) && t@ == b,
                    None => r == Err::<String, String>(e),
                },
            },
            match self.clipboard_text_spec(read) {
                Some(t) => r == Ok::<String, String>(t),
                None => r is Err,
            },
    {
        match read {
            Ok(text) => Ok(text),
            Err(err) => match &self.clipboard_text {
                Some(fallback) => Ok(fallback.clone()),
                None => Err(err),
            },
        }
    }

    /// Record a clipboard scan. `read` is what the clipboard returned and
    /// `decode` turns clipboard text into peers; blank text, undecodable
    /// text and invalid payloads find nothing.
    pub fn scan_clipboard<F: Fn(String) -> Result<Vec<RemotePeer>, String>>(
        &mut self,
        read: Result<String, String>,
        has_local_offers: bool,
        decode: &F,
    )
        requires
            forall|t: String| decode.requires((t,)),
        ensures
            final(self)@ == (ControllerModel { clipboard_scan: final(self)@.clipboard_scan, ..old(self)@ }),
            match old(self).clipboard_text_spec(read) {
                None => final(self)@.clipboard_scan == ClipboardScanResult::default_spec(),
                Some(text) => if blank(text@) {
                    final(self)@.clipboard_scan == ClipboardScanResult::default_spec()
                } else {
                    exists|res: Result<Vec<RemotePeer>, String>| #[trigger]
                        decode.ensures((text,), res) && final(self)@.clipboard_scan == match res {
                            Ok(p) => scan_spec(p@, has_local_offers),
                            Err(_) => ClipboardScanResult::default_spec(),
                        }
                },
            },
    {
        self.clipboard_scan = ClipboardScanResult { offer_available: false, answer_available: false };
        let text = match self.clipboard_text_or_buffer(read) {
            Ok(text) => text,
            Err(_) => return ,
        };
        if is_blank(text.as_str()) {
            return ;
        }
        let ghost t0 = text;
        let res = decode(text);
        let payload = match res {
            Ok(p) => p,
            Err(_) => {
                assert(decode.ensures((t0,), res));
                return ;
            },
        };
        assert(decode.ensures((t0,), res));
        if !is_valid_payload(payload.as_slice()) {
            return ;
        }
        let kind = match classify_payload(payload.as_slice()) {
            Some(k) => k,
            None => if has_local_offers {
                ClipboardPayloadKind::Answer
            } else {
                ClipboardPayloadKind::Offer
            },
        };
        match kind {
            ClipboardPayloadKind::Offer => self.mark_clipboard_offer(),
            ClipboardPayloadKind::Answer => self.mark_clipboard_answer(),
        }
    }

    fn mark_clipboard_offer(&mut self)
        ensures
            final(self)@ == (ControllerModel {
                clipboard_scan: ClipboardScanResult { offer_available: true, ..old(self)@.clipboard_scan },
                ..old(self)@
            }),
    {
        self.clipboard_scan.offer_available = true;
    }

    fn mark_clipboard_answer(&mut self)
        ensures
            final(self)@ == (ControllerModel {
                clipboard_scan: ClipboardScanResult { answer_available: true, ..old(self)@.clipboard_scan },
                ..old(self)@
            }),
    {
        self.clipboard_scan.answer_available = true;
    }

    /// Rescan the clipboard when the scan timer has just run out; nothing
    /// while multiplayer is off.
    pub fn tick_clipboard_scan<F: Fn(String) -> Result<Vec<RemotePeer>, String>>(
        &mut self,
        timer_just_finished: bool,
        read: Result<String, String>,
        has_local_offers: bool,
        decode: &F,
    )
        requires
            forall|t: String| decode.requires((t,)),
        ensures
            !old(self)@.enabled || !timer_just_finished ==> final(self)@ == old(self)@,
            final(self)@ == (ControllerModel { clipboard_scan: final(self)@.clipboard_scan, ..old(self)@ }),
            old(self)@.enabled && timer_just_finished ==> match old(self).clipboard_text_spec(read) {
                None => final(self)@.clipboard_scan == ClipboardScanResult::default_spec(),
                Some(text) => if blank(text@) {
                    final(self)@.clipboard_scan == ClipboardScanResult::default_spec()
                } else {
                    exists|res: Result<Vec<RemotePeer>, String>| #[trigger]
                        decode.ensures((text,), res) && final(self)@.clipboard_scan == match res {
                            Ok(p) => scan_spec(p@, has_local_offers),
                            Err(_) => ClipboardScanResult::default_spec(),
                        }
                },
            },
    {
        if !self.enabled {
            return ;
        }
        if timer_just_finished {
            self.scan_clipboard(read, has_local_offers, decode);
        }
    }

    /// Rescan the clipboard now (the caller restarts the scan timer);
    /// nothing while multiplayer is off.
    pub fn force_clipboard_scan<F: Fn(String) -> Result<Vec<RemotePeer>, String>>(
        &mut self,
        read: Result<String, String>,
        has_local_offers: bool,
        decode: &F,
    )
        requires
            forall|t: String| decode.requires((t,)),
        ensures
            !old(self)@.enabled ==> final(self)@ == old(self)@,
            final(self)@ == (ControllerModel { clipboard_scan: final(self)@.clipboard_scan, ..old(self)@ }),
            old(self)@.enabled ==> match old(self).clipboard_text_spec(read) {
                None => final(self)@.clipboard_scan == ClipboardScanResult::default_spec(),
                Some(text) => if blank(text@) {
                    final(self)@.clipboard_scan == ClipboardScanResult::default_spec()
                } else {
                    exists|res: Result<Vec<RemotePeer>, String>| #[trigger]
                        decode.ensures((text,), res) && final(self)@.clipboard_scan == match res {
                            Ok(p) => scan_spec(p@, has_local_offers),
                            Err(_) => ClipboardScanResult::default_spec(),
                        }
                },
            },
    {
        if !self.enabled {
            return ;
        }
        self.scan_clipboard(read, has_local_offers, decode);
    }

    /// The peers a native clipboard payload carries: the clipboard's text
    /// (or the buffered one), decoded; an empty list is refused.
    pub fn read_native_payload<F: Fn(String) -> Result<Vec<RemotePeer>, String>>(
        &self,
        read: Result<String, String>,
        decode: &F,
    ) -> (r: Result<Vec<RemotePeer>, String>)
        requires
            forall|t: String| decode.requires((t,)),
        ensures
            match self.clipboard_text_spec(read) {
                None => read matches Err(e) && r == Err::<Vec<RemotePeer>, String>(e),
                Some(text) => exists|res: Result<Vec<RemotePeer>, String>| #[trigger]
                    decode.ensures((text,), res) && match res {
                        Err(e) => r == Err::<Vec<RemotePeer>, String>(e),
                        Ok(p) => if p@.len() == 0 {
                            r matches Err(m) && m@ == "Native clipboard payload was empty"@
                        } else {
                            r == Ok::<Vec<RemotePeer>, String>(p)
                        },
                    },
            },
    {
        let text = match self.clipboard_text_or_buffer(read) {
            Ok(t) => t,
            Err(e) => {
                return Err(e);
            },
        };
        let ghost t0 = text;
        let res = decode(text);
        assert(decode.ensures((t0,), res));
        match res {
            Err(e) => Err(e),
            Ok(payload) => {
                if payload.len() == 0 {
                    Err(String::from_str("Native clipboard payload was empty"))
                } else {
                    Ok(payload)
                }
            },
        }
    }

    /// The text a clipboard read yields (see [`Self::clipboard_text_or_buffer`]).
    pub closed spec fn clipboard_text_spec(&self, read: Result<String, String>) -> Option<String> {
        match read {
            Ok(t) => Some(t),
            Err(_) => self.clipboard_text,
        }
    }

    /// Forget a consumed clipboard payload.
    pub fn clear_clipboard_payload(&mut self)
        ensures
            final(self)@ == (ControllerModel {
                clipboard_scan: ClipboardScanResult::default_spec(),
                clipboard_text: None,
                ..old(self)@
            }),
    {
        self.clipboard_scan = ClipboardScanResult { offer_available: false, answer_available: false };
        self.clipboard_text = None;
    }

    /// Apply a native menu action whose outside work (creating the manager,
    /// generating peers, reading or writing the clipboard) ended in
    /// `outcome`.
    pub fn trigger_native_action(&mut self, action: MultiplayerAction, outcome: ActionOutcome)
        ensures
            final(self)@ == native_action_spec(
                old(self)@,
                action,
                outcome is Succeeded,
                match outcome {
                    ActionOutcome::ClipboardRefused(t) => Some(t@),
                    _ => None,
                },
            ),
    {
        let succeeded = match outcome {
            ActionOutcome::Succeeded => true,
            _ => false,
        };
        match action {
            MultiplayerAction::GenerateConnections => {
                self.generation.offers_generating = true;
                self.generation.offers_ready = false;
                self.flow = MultiplayerFlow::Host;
                self.guest_connected = false;
                if succeeded {
                    self.enabled = true;
                    self.started = true;
                } else {
                    self.generation.offers_generating = false;
                }
            },
            MultiplayerAction::CopyOfferPayload | MultiplayerAction::CopyAnswerPayload => {
                if let ActionOutcome::ClipboardRefused(text) = outcome {
                    self.clipboard_text = Some(text);
                }
            },
            MultiplayerAction::AcceptAnswerPayload => {
                self.flow = MultiplayerFlow::Host;
                self.clear_clipboard_payload();
            },
            MultiplayerAction::GenerateAnswerConnections => {
                self.generation.answers_generating = true;
                self.generation.answers_ready = false;
                self.flow = MultiplayerFlow::Guest;
                self.guest_connected = false;
                if succeeded {
                    self.enabled = true;
                    self.started = true;
                } else {
                    self.generation.answers_generating = false;
                }
            },
        }
    }

    /// Apply a web menu action at the moment it is triggered; nothing
    /// changes when the manager could not be created.
    pub fn trigger_web_action(&mut self, action: MultiplayerAction, manager_available: bool)
        ensures
            final(self)@ == (if manager_available {
                web_action_spec(old(self)@, action)
            } else {
                old(self)@
            }),
    {
        if !manager_available {
            return ;
        }
        match action {
            MultiplayerAction::GenerateConnections => {
                self.generation.offers_generating = true;
                self.generation.offers_ready = false;
                self.enabled = true;
                self.flow = MultiplayerFlow::Host;
                self.started = true;
                self.guest_connected = false;
            },
            MultiplayerAction::AcceptAnswerPayload => {
                self.flow = MultiplayerFlow::Host;
            },
            MultiplayerAction::GenerateAnswerConnections => {
                self.generation.answers_generating = true;
                self.generation.answers_ready = false;
                self.enabled = true;
                self.flow = MultiplayerFlow::Guest;
                self.started = true;
                self.guest_connected = false;
            },
            _ => {},
        }
    }

    /// A web generation finished: on success the payload becomes ready.
    pub fn complete_web_generation(&mut self, kind: GenerationKind, succeeded: bool)
        ensures
            final(self)@ == (ControllerModel {
                generation: match kind {
                    GenerationKind::Offers => GenerationFlags {
                        offers_generating: false,
                        offers_ready: if succeeded {
                            true
                        } else {
                            old(self)@.generation.offers_ready
                        },
                        ..old(self)@.generation
                    },
                    GenerationKind::Answers => GenerationFlags {
                        answers_generating: false,
                        answers_ready: if succeeded {
                            true
                        } else {
                            old(self)@.generation.answers_ready
                        },
                        ..old(self)@.generation
                    },
                },
                ..old(self)@
            }),
    {
        match kind {
            GenerationKind::Offers => {
                self.generation.offers_generating = false;
                if succeeded {
                    self.generation.offers_ready = true;
                }
            },
            GenerationKind::Answers => {
                self.generation.answers_generating = false;
                if succeeded {
                    self.generation.answers_ready = true;
                }
            },
        }
    }

    /// Take in a native driver pass (`None` when no manager exists yet);
    /// ignored while the menu is disabled.
    pub fn drive(&mut self, report: Option<DriveReport>)
        ensures
            final(self)@ == drive_spec(old(self)@, report),
    {
        if !self.enabled {
            return ;
        }
        let rep = match report {
            Some(rep) => rep,
            None => return ,
        };
        let offers_generating = self.generation.offers_generating;
        let answers_generating = self.generation.answers_generating;
        self.guest_connected = rep.guest_connected;
        if offers_generating && rep.offers_ready {
            self.generation.offers_generating = false;
            self.generation.offers_ready = true;
        }
        if answers_generating && rep.answers_ready {
            self.generation.answers_generating = false;
            self.generation.answers_ready = true;
        }
    }
}

impl ClipboardScanResult {
    /// Nothing found.
    pub open spec fn default_spec() -> ClipboardScanResult {
        ClipboardScanResult { offer_available: false, answer_available: false }
    }
}

} // verus!
