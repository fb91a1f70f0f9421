use opendwarf::peer_drive::{PeerDriveState, PeerEvent, PeerReply, PeerRole};

#[test]
fn offerer_pings_after_the_channel_opens_and_after_each_pong() {
    let mut p = PeerDriveState::new(PeerRole::Offerer);
    assert_eq!(p.on_event(PeerEvent::ChannelOpened { channel_id: 3 }, 1000), PeerReply::Nothing);
    assert!(p.channel_open);
    assert_eq!(p.channel_id, Some(3));
    assert_eq!(p.next_ping_ms, Some(1200));
    assert!(!p.take_due_ping(1199));
    assert!(p.take_due_ping(1200));
    assert_eq!(p.next_ping_ms, None);
    assert!(!p.take_due_ping(5000));
    assert_eq!(p.on_event(PeerEvent::Text { text: "pong".to_string() }, 1300), PeerReply::Nothing);
    assert_eq!(p.next_ping_ms, Some(2300));
    // A second open does not restart the schedule.
    p.on_event(PeerEvent::ChannelOpened { channel_id: 4 }, 1400);
    assert_eq!(p.next_ping_ms, Some(2300));
    // The offerer ignores pings.
    assert_eq!(p.on_event(PeerEvent::Text { text: "ping".to_string() }, 1500), PeerReply::Nothing);
}

#[test]
fn answerer_answers_pings_and_never_pings() {
    let mut p = PeerDriveState::new(PeerRole::Answerer);
    p.on_event(PeerEvent::ChannelOpened { channel_id: 0 }, 0);
    assert_eq!(p.next_ping_ms, None);
    assert_eq!(p.on_event(PeerEvent::Text { text: "ping".to_string() }, 10), PeerReply::SendPong);
    assert_eq!(p.on_event(PeerEvent::Text { text: "pong".to_string() }, 10), PeerReply::Nothing);
    assert_eq!(p.on_event(PeerEvent::Text { text: "pingx".to_string() }, 10), PeerReply::Nothing);
    assert!(!p.take_due_ping(u64::MAX));
}

#[test]
fn gathered_candidates_are_kept_once() {
    let mut p = PeerDriveState::new(PeerRole::Offerer);
    p.on_event(PeerEvent::CandidateGathered { candidate: "candidate:1".to_string() }, 0);
    p.on_event(PeerEvent::CandidateGathered { candidate: "candidate:2".to_string() }, 0);
    p.on_event(PeerEvent::CandidateGathered { candidate: "candidate:1".to_string() }, 0);
    assert_eq!(p.local_candidates, vec!["candidate:1".to_string(), "candidate:2".to_string()]);
}

#[test]
fn gathering_times_out_after_six_seconds_and_asks_for_one_refresh() {
    let mut p = PeerDriveState::new(PeerRole::Offerer);
    p.check_gathering_timeout(100_000);
    assert!(!p.ice_gathering_complete, "no timeout before gathering starts");
    p.on_event(PeerEvent::GatheringStarted, 1000);
    p.check_gathering_timeout(6999);
    assert!(!p.sdp_refresh_due());
    p.check_gathering_timeout(7000);
    assert!(p.ice_gathering_complete);
    assert!(p.sdp_refresh_due());
    p.sdp_refreshed();
    assert!(!p.sdp_refresh_due());
    p.on_event(PeerEvent::GatheringComplete, 8000);
    p.check_gathering_timeout(20_000);
    assert!(!p.sdp_refresh_due(), "completion after the timeout asks for no second refresh");
}

#[test]
fn gathering_complete_event_asks_for_a_refresh() {
    let mut p = PeerDriveState::new(PeerRole::Answerer);
    p.on_event(PeerEvent::Other, 5);
    assert!(!p.sdp_refresh_due());
    p.on_event(PeerEvent::GatheringComplete, 5);
    assert!(p.sdp_refresh_due());
}
