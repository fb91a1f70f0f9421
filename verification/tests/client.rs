use std::collections::VecDeque;

use opendwarf::geometry::{Vec3i, direction_contains, is_adjacent_direction, signum, step_direction};
use opendwarf::multiplayer::RemotePeer;
use opendwarf::payload::{compress_payload_json, compress_serialized_peers, decompress_remote_peers, payload_json_text};
use opendwarf::protocol::{GameMessage, OP_FLIP_PLAYER_SPRITE, OP_LOG_DEBUG, enqueue_messages_from_bytes};
use opendwarf::sdk::{ModManifest, Welcome, pack_ptr_len, unpack_ptr_len};
use opendwarf::sdp::{is_stun_message, sanitize_remote_sdp};
use opendwarf::text::{contains_text, is_blank};

#[test]
fn simulation_direction_contains_requires_active_direction_to_still_be_held() {
    assert!(direction_contains(Vec3i::new(1, -1, 0), Vec3i::new(0, -1, 0)));
    assert!(direction_contains(Vec3i::new(1, 1, 0), Vec3i::new(1, 0, 0)));
    assert!(!direction_contains(Vec3i::new(1, 0, 0), Vec3i::new(0, -1, 0)));
    assert!(!direction_contains(Vec3i::new(0, -1, 0), Vec3i::new(0, -1, 1)));
}

#[test]
fn tests_direction_contains_requires_active_direction_to_still_be_held() {
    assert!(direction_contains(Vec3i::new(1, -1, 0), Vec3i::new(0, -1, 0)));
    assert!(direction_contains(Vec3i::new(1, 1, 0), Vec3i::new(1, 0, 0)));
    assert!(!direction_contains(Vec3i::new(1, 0, 0), Vec3i::new(0, -1, 0)));
    assert!(!direction_contains(Vec3i::new(0, -1, 0), Vec3i::new(0, -1, 1)));
}

#[test]
fn direction_helpers_on_concrete_vectors() {
    assert_eq!(signum(-7), -1);
    assert_eq!(signum(0), 0);
    assert_eq!(signum(3), 1);
    assert!(is_adjacent_direction(Vec3i::new(1, -1, 0)));
    assert!(!is_adjacent_direction(Vec3i::new(0, 0, 0)));
    assert!(!is_adjacent_direction(Vec3i::new(2, 0, 0)));
    assert_eq!(step_direction(Vec3i::new(0, 0, 0), Vec3i::new(5, -3, 0)), Vec3i::new(1, -1, 0));
}

#[test]
fn protocol_decodes_flip_and_log_frames_in_order() {
    let mut queue = VecDeque::new();
    let bytes = [OP_FLIP_PLAYER_SPRITE, OP_LOG_DEBUG, 2, 0, b'h', b'i', 99, OP_FLIP_PLAYER_SPRITE];
    assert_eq!(enqueue_messages_from_bytes(&bytes, &mut queue), Ok(()));
    assert_eq!(queue.len(), 3);
    assert!(matches!(queue[0], GameMessage::FlipPlayerSprite));
    match &queue[1] {
        GameMessage::Log(s) => assert_eq!(s, "hi"),
        other => panic!("unexpected {other:?}"),
    }
    assert!(matches!(queue[2], GameMessage::FlipPlayerSprite));
}

#[test]
fn protocol_reports_truncated_frames_after_keeping_earlier_messages() {
    let mut queue = VecDeque::new();
    assert_eq!(enqueue_messages_from_bytes(&[OP_FLIP_PLAYER_SPRITE, OP_LOG_DEBUG, 5], &mut queue), Err("truncated log length"));
    assert_eq!(queue.len(), 1);
    let mut queue = VecDeque::new();
    assert_eq!(enqueue_messages_from_bytes(&[OP_LOG_DEBUG, 5, 0, b'a'], &mut queue), Err("truncated log payload"));
    assert!(queue.is_empty());
    // Invalid UTF-8 is replaced, not rejected.
    let mut queue = VecDeque::new();
    assert_eq!(enqueue_messages_from_bytes(&[OP_LOG_DEBUG, 1, 0, 0xff], &mut queue), Ok(()));
    match &queue[0] {
        GameMessage::Log(s) => assert_eq!(s, "\u{fffd}"),
        other => panic!("unexpected {other:?}"),
    }
}

#[test]
fn manifest_builder_and_example_mod() {
    let m = ModManifest::new("a", "1.0").description("d").author("me").requires_mod("base");
    assert_eq!(m.name, "a");
    assert_eq!(m.version, "1.0");
    assert_eq!(m.description.as_deref(), Some("d"));
    assert_eq!(m.author.as_deref(), Some("me"));
    assert_eq!(m.dependencies, vec!["base".to_string()]);
    let w = Welcome.manifest();
    assert_eq!(w.name, "welcome-rs");
    assert_eq!(w.version, "0.1.0");
    assert!(w.dependencies.is_empty());
}

#[test]
fn pack_and_unpack_round_trip() {
    assert_eq!(pack_ptr_len(5, 0), 0);
    let packed = pack_ptr_len(0x1234, 16);
    assert_eq!(packed, (0x1234u64 << 32) | 16);
    assert_eq!(unpack_ptr_len(packed), Some((0x1234, 16)));
    assert_eq!(unpack_ptr_len(0), None);
    assert_eq!(unpack_ptr_len(7), None);
    assert_eq!(unpack_ptr_len(7u64 << 32), None);
}

#[test]
fn text_helpers() {
    assert!(is_blank(""));
    assert!(is_blank(" \t\n"));
    assert!(!is_blank(" x "));
    assert!(contains_text("a=candidate:1", "candidate"));
    assert!(!contains_text("abc", "abd"));
}

#[test]
fn sdp_sanitizer_drops_unreachable_candidates_and_normalises_newlines() {
    let sdp = "v=0\na=candidate:1 1 udp 2122260223 192.168.1.2 5000 typ host\r\na=candidate:2 1 udp 2122260223 abcd.local 5001 typ host\na=candidate:3 1 udp 2122260223 fe80::1 5002 typ host\n";
    let kept = sanitize_remote_sdp(false, sdp);
    assert_eq!(kept, "v=0\r\na=candidate:1 1 udp 2122260223 192.168.1.2 5000 typ host\r\n");
    let with_v6 = sanitize_remote_sdp(true, sdp);
    assert!(with_v6.contains("fe80::1"));
    assert!(!with_v6.contains(".local"));
}

#[test]
fn stun_messages_are_recognised_by_header() {
    let mut header = [0u8; 20];
    header[4..8].copy_from_slice(&0x2112_A442u32.to_be_bytes());
    assert!(is_stun_message(&header));
    header[0] = 0x40;
    assert!(!is_stun_message(&header));
    assert!(!is_stun_message(&header[..19]));
    let mut wrong_cookie = [0u8; 20];
    wrong_cookie[4] = 1;
    assert!(!is_stun_message(&wrong_cookie));
}

#[test]
fn payload_compression_round_trips() {
    let json = r#"[{"key":"a","sdp":"v=0"}]"#;
    let text = compress_payload_json(json);
    assert_ne!(text, json, "compressed text differs from its JSON");
    assert!(text.starts_with("H4sI"), "base64 of the gzip magic bytes");
    assert_eq!(payload_json_text(&text), json);
    // Text that is not a compressed payload passes through.
    assert_eq!(payload_json_text("[]"), "[]");
    assert_eq!(compress_serialized_peers(None), "[]");
    let from_some = compress_serialized_peers(Some(json.to_string()));
    assert_eq!(from_some, text);
    assert_eq!(payload_json_text(&from_some), json);
}

fn parse_peers(json: String) -> Result<Vec<RemotePeer>, String> {
    let value: serde_json::Value = serde_json::from_str(&json).map_err(|e| e.to_string())?;
    let list = value.as_array().ok_or_else(|| "not a list".to_string())?;
    list.iter()
        .map(|p| {
            Ok(RemotePeer {
                key: p["key"].as_str().ok_or("key")?.to_string(),
                sdp: p["sdp"].as_str().ok_or("sdp")?.to_string(),
            })
        })
        .collect()
}

#[test]
fn decompress_remote_peers_reads_compressed_and_plain_lists() {
    let json = r#"[{"key":"host","sdp":"v=0"}]"#;
    let peers = decompress_remote_peers(&compress_payload_json(json), &parse_peers).expect("peers");
    assert_eq!(peers.len(), 1);
    assert_eq!(peers[0].key, "host");
    assert_eq!(peers[0].sdp, "v=0");
    let plain = decompress_remote_peers(json, &parse_peers).expect("plain peers");
    assert_eq!(plain[0].key, "host");
    assert!(decompress_remote_peers("not json", &parse_peers).is_err());
}
