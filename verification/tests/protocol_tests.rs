use gomoku_lib::config::{get_default_webrtc_config, greet};
use gomoku_lib::protocol::{classify_frame, fallback_event, FrameKind, FrameScan, GameMessage};

fn empty_scan() -> FrameScan {
    FrameScan {
        create_room: false,
        join_room: false,
        join_room_id: None,
        place_stone: false,
        place_row: None,
        place_col: None,
    }
}

#[test]
fn frames_containing_ping_are_heartbeats() {
    assert_eq!(classify_frame("ping"), FrameKind::Ping);
    assert_eq!(classify_frame("{\"type\":\"ping\",\"n\":1}"), FrameKind::Ping);
    assert_eq!(classify_frame("prefix ping suffix"), FrameKind::Ping);
}

#[test]
fn frames_containing_close_end_the_connection() {
    assert_eq!(classify_frame("close"), FrameKind::Close);
    assert_eq!(classify_frame("{\"type\":\"close\"}"), FrameKind::Close);
}

#[test]
fn ping_takes_precedence_over_close() {
    assert_eq!(classify_frame("ping close"), FrameKind::Ping);
    assert_eq!(classify_frame("close ping"), FrameKind::Ping);
}

#[test]
fn other_frames_are_payloads() {
    assert_eq!(classify_frame(""), FrameKind::Payload);
    assert_eq!(classify_frame("{\"CreateRoom\":{}}"), FrameKind::Payload);
    assert_eq!(classify_frame("pin g clo se"), FrameKind::Payload);
}

#[test]
fn fallback_create_room_uses_the_sender_identity() {
    let mut scan = empty_scan();
    scan.create_room = true;
    match fallback_event(&scan, "me").expect("create must decode") {
        GameMessage::CreateRoom { player_id } => assert_eq!(player_id, "me"),
        other => panic!("expected CreateRoom, got {:?}", other),
    }
}

#[test]
fn fallback_create_room_wins_over_other_shapes() {
    let mut scan = empty_scan();
    scan.create_room = true;
    scan.join_room = true;
    scan.join_room_id = Some("r".to_string());
    scan.place_stone = true;
    scan.place_row = Some(1);
    scan.place_col = Some(2);
    assert!(matches!(
        fallback_event(&scan, "me"),
        Some(GameMessage::CreateRoom { .. })
    ));
}

#[test]
fn fallback_join_room_needs_its_room_id() {
    let mut scan = empty_scan();
    scan.join_room = true;
    assert!(fallback_event(&scan, "me").is_none());
    scan.join_room_id = Some("room-7".to_string());
    match fallback_event(&scan, "me").expect("join must decode") {
        GameMessage::JoinRoom { player_id, room_id } => {
            assert_eq!(player_id, "me");
            assert_eq!(room_id, "room-7");
        },
        other => panic!("expected JoinRoom, got {:?}", other),
    }
}

#[test]
fn fallback_join_room_without_id_does_not_fall_through_to_place_stone() {
    let mut scan = empty_scan();
    scan.join_room = true;
    scan.place_stone = true;
    scan.place_row = Some(3);
    scan.place_col = Some(4);
    assert!(fallback_event(&scan, "me").is_none());
}

#[test]
fn fallback_place_stone_needs_both_coordinates() {
    let mut scan = empty_scan();
    scan.place_stone = true;
    scan.place_row = Some(3);
    assert!(fallback_event(&scan, "me").is_none());
    scan.place_col = Some(4);
    match fallback_event(&scan, "me").expect("place must decode") {
        GameMessage::PlaceStone { player_id, row, col } => {
            assert_eq!(player_id, "me");
            assert_eq!(row, 3);
            assert_eq!(col, 4);
        },
        other => panic!("expected PlaceStone, got {:?}", other),
    }
}

#[test]
fn fallback_with_no_known_shape_is_discarded() {
    let scan = empty_scan();
    assert!(fallback_event(&scan, "me").is_none());
}

#[test]
fn greeting_embeds_the_name() {
    assert_eq!(greet("World"), "Hello, World! You've been greeted from Rust!");
}

#[test]
fn default_webrtc_config_lists_the_public_servers() {
    let c = get_default_webrtc_config();
    assert_eq!(c.stun_servers.len(), 5);
    assert_eq!(c.stun_servers[0], "stun:stun.l.google.com:19302");
    assert_eq!(c.stun_servers[4], "stun:stun4.l.google.com:19302");
    assert_eq!(c.turn_servers.len(), 3);
    assert_eq!(c.turn_servers[0].urls, "turn:openrelay.metered.ca:80");
    assert_eq!(c.turn_servers[1].urls, "turn:openrelay.metered.ca:443");
    assert_eq!(c.turn_servers[2].urls, "turn:openrelay.metered.ca:443?transport=tcp");
    for t in &c.turn_servers {
        assert_eq!(t.username, "openrelayproject");
        assert_eq!(t.credential, "openrelayproject");
    }
}
