use terracotta::protocol::{
    accepted, encode_request, encode_response, handle_ping, handle_protocols, handle_server_port,
    not_implemented_frame, read_be32, reply_frame, request_body_len, response_of, route,
    split_kind, Handler, PacketResponse,
};
use terracotta::room::Room;
use terracotta::states::{AppStateContainer, ExceptionType, HandlerError};
use terracotta::supervise::{
    stage_step, Stage, StageStep,
    fingerprint_bytes, fingerprint_matches, game_port_of, gave_up, next_failures, probe_succeeded,
};

const FINGERPRINT: [u8; 16] =
    [0x41, 0x57, 0x48, 0x44, 0x86, 0x37, 0x40, 0x59, 0x57, 0x44, 0x92, 0x43, 0x96, 0x99, 0x85, 0x01];

#[test]
fn request_frame_bytes() {
    let frame = encode_request(&b"c".to_vec(), &b"ping".to_vec(), &FINGERPRINT.to_vec());
    let mut expected = vec![6u8];
    expected.extend_from_slice(b"c:ping");
    expected.extend_from_slice(&[0, 0, 0, 16]);
    expected.extend_from_slice(&FINGERPRINT);
    assert_eq!(frame, expected);
}

#[test]
fn response_frame_bytes() {
    assert_eq!(encode_response(0, &vec![0x63, 0xDD]), vec![0, 0, 0, 0, 2, 0x63, 0xDD]);
    assert_eq!(encode_response(32, &vec![]), vec![32, 0, 0, 0, 0]);
    let body = vec![7u8; 300];
    let frame = encode_response(1, &body);
    assert_eq!(&frame[..5], &[1, 0, 0, 1, 44]);
    assert_eq!(frame.len(), 305);
}

#[test]
fn body_length_limit() {
    assert_eq!(read_be32(&[1, 2, 3, 4]), 0x01020304);
    assert_eq!(request_body_len(&[0, 0, 0, 16]), Some(16));
    assert_eq!(request_body_len(&[1, 0, 0, 0]), Some(16 * 1024 * 1024));
    assert_eq!(request_body_len(&[1, 0, 0, 1]), None);
    assert_eq!(request_body_len(&[255, 255, 255, 255]), None);
}

#[test]
fn kinds_split_at_one_colon() {
    assert_eq!(split_kind(&b"c:ping".to_vec()), Some((b"c".to_vec(), b"ping".to_vec())));
    assert_eq!(split_kind(&b"c:".to_vec()), Some((b"c".to_vec(), vec![])));
    assert_eq!(split_kind(&b"c:a:b".to_vec()), None);
    assert_eq!(split_kind(&b"cping".to_vec()), None);
    assert_eq!(split_kind(&vec![b'c', b':', 0xFF]), None);
}

#[test]
fn routes_known_kinds() {
    let c = b"c".to_vec();
    assert_eq!(route(&c, &b"ping".to_vec()), Some(Handler::Ping));
    assert_eq!(route(&c, &b"protocols".to_vec()), Some(Handler::Protocols));
    assert_eq!(route(&c, &b"server_port".to_vec()), Some(Handler::ServerPort));
    assert_eq!(route(&c, &b"player_ping".to_vec()), Some(Handler::PlayerPing));
    assert_eq!(route(&c, &b"player_profiles_list".to_vec()), Some(Handler::PlayerProfilesList));
    assert_eq!(route(&c, &b"pong".to_vec()), None);
    assert_eq!(route(&b"d".to_vec(), &b"ping".to_vec()), None);
}

#[test]
fn ping_echoes() {
    match handle_ping(&FINGERPRINT.to_vec()) {
        PacketResponse::Success { data } => assert_eq!(data, FINGERPRINT.to_vec()),
        _ => panic!("ping failed"),
    }
}

#[test]
fn protocols_lists_kinds() {
    match handle_protocols() {
        PacketResponse::Success { data } => assert_eq!(
            data,
            b"c:ping\0c:protocols\0c:server_port\0c:player_ping\0c:player_profiles_list".to_vec()
        ),
        _ => panic!("protocols failed"),
    }
}

#[test]
fn server_port_needs_host_ok() {
    let mut cell: AppStateContainer<u8, u8, u8> = AppStateContainer::new();
    match handle_server_port(&cell) {
        PacketResponse::Fail { status, data } => {
            assert_eq!(status, 32);
            assert!(data.is_empty());
        }
        _ => panic!("expected a failure"),
    }
    let cap = cell.set_scanning(0).unwrap();
    let room = Room::from("U/6UBB-8R71-7MAC-0000").unwrap();
    let cap = cell.host_scan_found(&cap, 25565, room).unwrap();
    let host = terracotta::profile::make_profile(
        "h".into(),
        "H".into(),
        "v".into(),
        terracotta::profile::ProfileKind::HOST,
    );
    cell.host_started(&cap, 0, host, 0).unwrap();
    match handle_server_port(&cell) {
        PacketResponse::Success { data } => assert_eq!(data, vec![0x63, 0xDD]),
        _ => panic!("expected the port"),
    }
}

#[test]
fn error_replies() {
    let frame = reply_frame(Err(HandlerError::NotHostOk));
    let text = format!("{:?}", std::io::Error::other("IllegalStateException: Expecting HostOk."));
    assert_eq!(text.len(), 73);
    assert_eq!(frame[0], 255);
    assert_eq!(&frame[1..5], &(text.len() as u32).to_be_bytes());
    assert_eq!(&frame[5..], text.as_bytes());
    let frame = reply_frame(Err(HandlerError::HostConflict));
    let text = format!(
        "{:?}",
        std::io::Error::other("IllegalStateException: Cannot modify host, machine_id may conflict.")
    );
    assert_eq!(&frame[5..], text.as_bytes());
    let frame = reply_frame(PacketResponse::fail(32, vec![]));
    assert_eq!(frame, vec![32, 0, 0, 0, 0]);
    let frame = reply_frame(PacketResponse::ok(vec![1, 2]));
    assert_eq!(frame, vec![0, 0, 0, 0, 2, 1, 2]);
    let frame = not_implemented_frame();
    let text = b"Requested protocol hasn't been implemented.";
    assert_eq!(frame[0], 255);
    assert_eq!(&frame[5..], text);
}

#[test]
fn responses_read_back() {
    assert!(matches!(response_of(0, vec![1]), PacketResponse::Success { .. }));
    assert!(matches!(response_of(32, vec![]), PacketResponse::Fail { status: 32, .. }));
    assert_eq!(accepted(Some(PacketResponse::Success { data: vec![9] })), Some(vec![9]));
    assert_eq!(accepted(Some(PacketResponse::Fail { status: 1, data: vec![9] })), None);
    assert_eq!(accepted(None), None);
}

#[test]
fn fingerprint_must_match_exactly() {
    assert_eq!(fingerprint_bytes(), FINGERPRINT.to_vec());
    assert!(fingerprint_matches(&FINGERPRINT.to_vec()));
    for i in 0..16 {
        let mut changed = FINGERPRINT.to_vec();
        changed[i] ^= 1;
        assert!(!fingerprint_matches(&changed));
    }
    let mut longer = FINGERPRINT.to_vec();
    longer.push(0);
    assert!(!fingerprint_matches(&longer));
}

#[test]
fn game_port_reply() {
    assert_eq!(game_port_of(&PacketResponse::Success { data: vec![0x63, 0xDD] }), Some(25565));
    assert_eq!(game_port_of(&PacketResponse::Success { data: vec![0x63] }), None);
    assert_eq!(game_port_of(&PacketResponse::Fail { status: 32, data: vec![0, 1] }), None);
}

#[test]
fn probes_and_failures() {
    assert!(probe_succeeded(Some(0xFF)));
    assert!(!probe_succeeded(Some(0x00)));
    assert!(!probe_succeeded(None));
    let mut count = 0;
    count = next_failures(count, false);
    count = next_failures(count, false);
    assert!(!gave_up(count));
    assert_eq!(next_failures(count, true), 0);
    count = next_failures(count, false);
    assert_eq!(count, 3);
    assert!(gave_up(count));
}

#[test]
fn port_forward_retries() {
    assert_eq!(terracotta::supervise::forward_backoff_ms(0), 500);
    assert_eq!(terracotta::supervise::forward_backoff_ms(2), 2500);
    let left = terracotta::supervise::still_pending(&vec![0, 1, 2, 3], &vec![true, false, true, false]);
    assert_eq!(left, vec![1, 3]);
    assert!(terracotta::supervise::still_pending(&vec![5], &vec![true]).is_empty());
}

#[test]
fn stages_are_bounded() {
    assert_eq!(Stage::PeerDiscovery.limit(), 5);
    assert_eq!(Stage::Handshake.limit(), 60);
    assert_eq!(Stage::GameReach.limit(), 8);
    assert_eq!(Stage::LegacyReach.limit(), 5);
    assert_eq!(Stage::PeerDiscovery.pause_ms(), 3000);
    assert_eq!(Stage::Handshake.pause_ms(), 4000);
    assert_eq!(stage_step(Stage::PeerDiscovery, 1, true), StageStep::Proceed);
    assert_eq!(stage_step(Stage::PeerDiscovery, 4, false), StageStep::Retry);
    assert_eq!(
        stage_step(Stage::PeerDiscovery, 5, false),
        StageStep::GiveUp { kind: ExceptionType::PingHostFail }
    );
    assert_eq!(stage_step(Stage::Handshake, 59, false), StageStep::Retry);
    assert_eq!(
        stage_step(Stage::Handshake, 60, false),
        StageStep::GiveUp { kind: ExceptionType::PingHostFail }
    );
    assert_eq!(stage_step(Stage::GameReach, 8, false), StageStep::Proceed);
    assert_eq!(
        stage_step(Stage::LegacyReach, 5, false),
        StageStep::GiveUp { kind: ExceptionType::PingHostFail }
    );
}
