use opendwarf::multiplayer::{
    ActionOutcome, ClipboardPayloadKind, ClipboardScanResult, DriveReport, GenerationKind, MenuPresenceChange,
    MultiplayerAction, MultiplayerController, MultiplayerFlow, RemotePeer, classify_payload, default_rtc_config,
    is_valid_payload,
};

fn peer(key: &str, sdp: &str) -> RemotePeer {
    RemotePeer { key: key.to_string(), sdp: sdp.to_string() }
}

fn decode_offer(_text: String) -> Result<Vec<RemotePeer>, String> {
    Ok(vec![peer("guest", "v=0\r\na=setup:actpass\r\n")])
}

fn decode_answer(_text: String) -> Result<Vec<RemotePeer>, String> {
    Ok(vec![peer("host", "v=0\r\na=setup:active\r\n")])
}

fn decode_undecided(_text: String) -> Result<Vec<RemotePeer>, String> {
    Ok(vec![peer("x", "v=0")])
}

fn decode_fails(_text: String) -> Result<Vec<RemotePeer>, String> {
    Err("bad".to_string())
}

#[test]
fn default_rtc_config_lists_two_stun_servers() {
    let c = default_rtc_config();
    assert_eq!(c.ice_servers.len(), 1);
    assert_eq!(c.ice_servers[0].urls, vec!["stun:stun1.l.google.com:19302", "stun:stun3.l.google.com:19302"]);
}

#[test]
fn payload_classification_by_setup_role() {
    assert_eq!(classify_payload(&[peer("a", "a=setup:actpass")]), Some(ClipboardPayloadKind::Offer));
    assert_eq!(classify_payload(&[peer("a", "a=setup:passive")]), Some(ClipboardPayloadKind::Answer));
    assert_eq!(classify_payload(&[peer("a", "a=setup:actpass"), peer("b", "a=setup:active")]), None);
    assert_eq!(classify_payload(&[]), None);
    assert!(is_valid_payload(&[peer("a", "v=0")]));
    assert!(!is_valid_payload(&[]));
    assert!(!is_valid_payload(&[peer(" ", "v=0")]));
    assert!(!is_valid_payload(&[peer("a", "\t")]));
}

#[test]
fn menu_presence_opens_enables_and_closing_resets_an_unstarted_session() {
    let mut c = MultiplayerController::default();
    assert!(!c.is_enabled());
    assert_eq!(c.sync_menu_presence(true, false, false), MenuPresenceChange::Opened);
    assert!(c.is_enabled());
    assert_eq!(c.sync_menu_presence(true, false, false), MenuPresenceChange::Unchanged);
    assert_eq!(c.sync_menu_presence(false, false, false), MenuPresenceChange::Closed);
    assert!(!c.is_enabled());
    assert_eq!(c.flow_state(), MultiplayerFlow::Inactive);

    // With peers the session keeps running after the menu closes.
    assert_eq!(c.sync_menu_presence(true, true, true), MenuPresenceChange::Opened);
    assert_eq!(c.flow_state(), MultiplayerFlow::Host);
    assert_eq!(c.sync_menu_presence(false, true, true), MenuPresenceChange::Closed);
    assert!(c.is_enabled());
}

#[test]
fn clipboard_scan_tells_offers_from_answers() {
    let mut c = MultiplayerController::default();
    c.scan_clipboard(Ok("payload".to_string()), false, &decode_offer);
    assert_eq!(c.clipboard_scan(), ClipboardScanResult { offer_available: true, answer_available: false });
    c.scan_clipboard(Ok("payload".to_string()), false, &decode_answer);
    assert_eq!(c.clipboard_scan(), ClipboardScanResult { offer_available: false, answer_available: true });
    // An undecided payload is an answer once offers are out.
    c.scan_clipboard(Ok("payload".to_string()), true, &decode_undecided);
    assert_eq!(c.clipboard_scan(), ClipboardScanResult { offer_available: false, answer_available: true });
    c.scan_clipboard(Ok("payload".to_string()), false, &decode_undecided);
    assert_eq!(c.clipboard_scan(), ClipboardScanResult { offer_available: true, answer_available: false });
    c.scan_clipboard(Ok("payload".to_string()), false, &decode_fails);
    assert_eq!(c.clipboard_scan(), ClipboardScanResult::default());
    c.scan_clipboard(Ok("   ".to_string()), false, &decode_offer);
    assert_eq!(c.clipboard_scan(), ClipboardScanResult::default());
    c.scan_clipboard(Err("no clipboard".to_string()), false, &decode_offer);
    assert_eq!(c.clipboard_scan(), ClipboardScanResult::default());
}

#[test]
fn refused_clipboard_copy_is_kept_as_fallback_text() {
    let mut c = MultiplayerController::default();
    assert_eq!(c.clipboard_text_or_buffer(Err("denied".to_string())), Err("denied".to_string()));
    c.trigger_native_action(MultiplayerAction::CopyOfferPayload, ActionOutcome::ClipboardRefused("saved".to_string()));
    assert_eq!(c.clipboard_text_or_buffer(Err("denied".to_string())), Ok("saved".to_string()));
    assert_eq!(c.clipboard_text_or_buffer(Ok("fresh".to_string())), Ok("fresh".to_string()));
    c.scan_clipboard(Err("denied".to_string()), false, &decode_offer);
    assert!(c.clipboard_scan().offer_available);
    c.clear_clipboard_payload();
    assert_eq!(c.clipboard_text_or_buffer(Err("denied".to_string())), Err("denied".to_string()));
    assert_eq!(c.clipboard_scan(), ClipboardScanResult::default());
}

#[test]
fn native_generation_starts_hosting_and_drive_reports_readiness() {
    let mut c = MultiplayerController::default();
    c.trigger_native_action(MultiplayerAction::GenerateConnections, ActionOutcome::Succeeded);
    assert_eq!(c.flow_state(), MultiplayerFlow::Host);
    assert!(c.is_enabled());
    assert!(c.generation_flags().offers_generating);
    c.drive(Some(DriveReport { offers_ready: true, answers_ready: false, guest_connected: true }));
    let g = c.generation_flags();
    assert!(!g.offers_generating);
    assert!(g.offers_ready);
    assert!(c.guest_connected());

    let mut failed = MultiplayerController::default();
    failed.trigger_native_action(MultiplayerAction::GenerateAnswerConnections, ActionOutcome::Failed);
    assert_eq!(failed.flow_state(), MultiplayerFlow::Guest);
    assert!(!failed.generation_flags().answers_generating);
    assert!(!failed.is_enabled());
    // A disabled controller ignores driver reports.
    failed.drive(Some(DriveReport { offers_ready: true, answers_ready: true, guest_connected: true }));
    assert!(!failed.guest_connected());
}

#[test]
fn web_actions_wait_for_completion() {
    let mut c = MultiplayerController::default();
    c.trigger_web_action(MultiplayerAction::GenerateAnswerConnections, false);
    assert_eq!(c.flow_state(), MultiplayerFlow::Inactive);
    c.trigger_web_action(MultiplayerAction::GenerateAnswerConnections, true);
    assert_eq!(c.flow_state(), MultiplayerFlow::Guest);
    assert!(c.generation_flags().answers_generating);
    c.complete_web_generation(GenerationKind::Answers, false);
    assert!(!c.generation_flags().answers_generating);
    assert!(!c.generation_flags().answers_ready);
    c.complete_web_generation(GenerationKind::Answers, true);
    assert!(c.generation_flags().answers_ready);
    c.trigger_web_action(MultiplayerAction::AcceptAnswerPayload, true);
    assert_eq!(c.flow_state(), MultiplayerFlow::Host);
}

fn decode_nothing(_text: String) -> Result<Vec<RemotePeer>, String> {
    Ok(vec![])
}

#[test]
fn scan_timer_rescans_only_while_enabled() {
    let mut c = MultiplayerController::default();
    c.tick_clipboard_scan(true, Ok("payload".to_string()), false, &decode_offer);
    assert_eq!(c.clipboard_scan(), ClipboardScanResult::default());
    c.sync_menu_presence(true, false, false);
    c.tick_clipboard_scan(false, Ok("payload".to_string()), false, &decode_offer);
    assert_eq!(c.clipboard_scan(), ClipboardScanResult::default());
    c.tick_clipboard_scan(true, Ok("payload".to_string()), false, &decode_offer);
    assert_eq!(c.clipboard_scan(), ClipboardScanResult { offer_available: true, answer_available: false });
}

#[test]
fn forced_scan_ignores_the_timer_but_not_the_switch() {
    let mut c = MultiplayerController::default();
    c.force_clipboard_scan(Ok("payload".to_string()), false, &decode_answer);
    assert_eq!(c.clipboard_scan(), ClipboardScanResult::default());
    c.sync_menu_presence(true, false, false);
    c.force_clipboard_scan(Ok("payload".to_string()), false, &decode_answer);
    assert_eq!(c.clipboard_scan(), ClipboardScanResult { offer_available: false, answer_available: true });
}

#[test]
fn native_payload_read_decodes_and_refuses_empty_lists() {
    let mut c = MultiplayerController::default();
    let peers = c.read_native_payload(Ok("payload".to_string()), &decode_offer).unwrap();
    assert_eq!(peers.len(), 1);
    assert_eq!(peers[0].key, "guest");
    assert_eq!(peers[0].sdp, "v=0\r\na=setup:actpass\r\n");
    assert_eq!(
        c.read_native_payload(Ok("payload".to_string()), &decode_nothing).unwrap_err(),
        "Native clipboard payload was empty"
    );
    assert_eq!(c.read_native_payload(Ok("payload".to_string()), &decode_fails).unwrap_err(), "bad");
    assert_eq!(c.read_native_payload(Err("denied".to_string()), &decode_offer).unwrap_err(), "denied");
    c.trigger_native_action(MultiplayerAction::CopyOfferPayload, ActionOutcome::ClipboardRefused("saved".to_string()));
    assert!(c.read_native_payload(Err("denied".to_string()), &decode_answer).is_ok());
}
