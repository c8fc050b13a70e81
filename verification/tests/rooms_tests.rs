use gomoku_lib::rooms::{GameState, RoomStatus};

#[test]
fn create_room_returns_a_fresh_uuid_sized_id() {
    let mut s = GameState::new();
    let a = s.create_room("alice".to_string());
    let b = s.create_room("bob".to_string());
    assert_eq!(a.chars().count(), 36);
    assert_eq!(b.chars().count(), 36);
    assert_ne!(a, b);
    assert!(!a.is_empty());
}

#[test]
fn created_room_waits_with_host_indexed() {
    let mut s = GameState::new();
    let rid = s.create_room("alice".to_string());
    let room = s.get_player_room("alice").expect("host must be indexed");
    assert_eq!(room.id, rid);
    assert_eq!(room.host_id, "alice");
    assert!(room.guest_id.is_none());
    assert_eq!(room.status, RoomStatus::Waiting);
}

#[test]
fn join_room_seats_guest_and_starts_playing() {
    let mut s = GameState::new();
    let rid = s.create_room("alice".to_string());
    let r = s.join_room("bob".to_string(), rid.clone());
    assert!(r.is_ok());
    let room = s.get_player_room("bob").expect("guest must be indexed");
    assert_eq!(room.id, rid);
    assert_eq!(room.host_id, "alice");
    assert_eq!(room.guest_id.as_deref(), Some("bob"));
    assert_eq!(room.status, RoomStatus::Playing);
}

#[test]
fn guest_present_exactly_when_playing() {
    let mut s = GameState::new();
    let rid = s.create_room("alice".to_string());
    let room = s.get_player_room("alice").unwrap();
    assert_eq!(room.guest_id.is_some(), room.status != RoomStatus::Waiting);
    s.join_room("bob".to_string(), rid).unwrap();
    let room = s.get_player_room("alice").unwrap();
    assert!(room.guest_id.is_some());
    assert_eq!(room.status, RoomStatus::Playing);
}

#[test]
fn join_room_on_playing_room_yields_room_full_and_keeps_state() {
    let mut s = GameState::new();
    let rid = s.create_room("alice".to_string());
    s.join_room("bob".to_string(), rid.clone()).unwrap();
    let r = s.join_room("carol".to_string(), rid.clone());
    assert_eq!(r, Err("RoomFull".to_string()));
    let room = s.get_player_room("alice").unwrap();
    assert_eq!(room.guest_id.as_deref(), Some("bob"));
    assert_eq!(room.status, RoomStatus::Playing);
    assert!(s.get_player_room("carol").is_none());
}

#[test]
fn join_room_on_unknown_id_yields_room_not_found() {
    let mut s = GameState::new();
    s.create_room("alice".to_string());
    let r = s.join_room("bob".to_string(), "no-such-room".to_string());
    assert_eq!(r, Err("RoomNotFound".to_string()));
    assert!(s.get_player_room("bob").is_none());
}

#[test]
fn host_disconnect_removes_room_and_unindexes_guest() {
    let mut s = GameState::new();
    let rid = s.create_room("alice".to_string());
    s.join_room("bob".to_string(), rid.clone()).unwrap();
    s.handle_disconnect("alice");
    assert!(s.get_player_room("alice").is_none());
    assert!(s.get_player_room("bob").is_none());
    let r = s.join_room("carol".to_string(), rid);
    assert_eq!(r, Err("RoomNotFound".to_string()));
}

#[test]
fn guest_disconnect_returns_room_to_waiting_with_host_indexed() {
    let mut s = GameState::new();
    let rid = s.create_room("alice".to_string());
    s.join_room("bob".to_string(), rid.clone()).unwrap();
    s.handle_disconnect("bob");
    assert!(s.get_player_room("bob").is_none());
    let room = s.get_player_room("alice").expect("host stays indexed");
    assert_eq!(room.id, rid);
    assert_eq!(room.status, RoomStatus::Waiting);
    assert!(room.guest_id.is_none());
    let r = s.join_room("carol".to_string(), rid);
    assert!(r.is_ok());
}

#[test]
fn disconnect_of_unindexed_player_is_a_no_op() {
    let mut s = GameState::new();
    let rid = s.create_room("alice".to_string());
    s.handle_disconnect("nobody");
    let room = s.get_player_room("alice").unwrap();
    assert_eq!(room.id, rid);
}

#[test]
fn host_disconnect_of_waiting_room_deletes_it() {
    let mut s = GameState::new();
    let rid = s.create_room("alice".to_string());
    s.handle_disconnect("alice");
    assert!(s.get_player_room("alice").is_none());
    let r = s.join_room("bob".to_string(), rid);
    assert_eq!(r, Err("RoomNotFound".to_string()));
}
