use gomoku_lib::protocol::{Directed, GameMessage, OutboundEvent};
use gomoku_lib::registry::{dispatch, PeerRegistry};
use gomoku_lib::rooms::GameState;
use gomoku_lib::router::{init_event, pong_event, route_disconnect, route_message};
use tokio::sync::mpsc::unbounded_channel;
use tokio::sync::mpsc::UnboundedReceiver;

fn room_created_id(out: &[Directed]) -> String {
    assert_eq!(out.len(), 1);
    match &out[0].event {
        OutboundEvent::RoomCreated { room_id } => room_id.clone(),
        other => panic!("expected roomCreated, got {:?}", other),
    }
}

#[test]
fn create_and_join_scenario_reaches_both_players() {
    let mut state = GameState::new();

    // Player A creates a room and alone receives the confirmation.
    let out = route_message(
        &mut state,
        GameMessage::CreateRoom { player_id: "player-a".to_string() },
    );
    assert_eq!(out[0].target, "player-a");
    let rid = room_created_id(&out);
    assert!(!rid.is_empty());

    // Player B joins: both A and B receive a matching gameStart.
    let out = route_message(
        &mut state,
        GameMessage::JoinRoom { player_id: "player-b".to_string(), room_id: rid.clone() },
    );
    assert_eq!(out.len(), 2);
    assert_eq!(out[0].target, "player-a");
    assert_eq!(out[1].target, "player-b");
    for d in &out {
        match &d.event {
            OutboundEvent::GameStart { room_id, host_id, guest_id } => {
                assert_eq!(room_id, &rid);
                assert_eq!(host_id, "player-a");
                assert_eq!(guest_id, "player-b");
            },
            other => panic!("expected gameStart, got {:?}", other),
        }
    }

    // A third join of the same room is refused as full, to C alone.
    let out = route_message(
        &mut state,
        GameMessage::JoinRoom { player_id: "player-c".to_string(), room_id: rid.clone() },
    );
    assert_eq!(out.len(), 1);
    assert_eq!(out[0].target, "player-c");
    match &out[0].event {
        OutboundEvent::ErrorMessage { message } => assert_eq!(message, "RoomFull"),
        other => panic!("expected error, got {:?}", other),
    }
}

#[test]
fn join_of_unknown_room_reports_room_not_found() {
    let mut state = GameState::new();
    let out = route_message(
        &mut state,
        GameMessage::JoinRoom { player_id: "player-b".to_string(), room_id: "missing".to_string() },
    );
    assert_eq!(out.len(), 1);
    assert_eq!(out[0].target, "player-b");
    match &out[0].event {
        OutboundEvent::ErrorMessage { message } => assert_eq!(message, "RoomNotFound"),
        other => panic!("expected error, got {:?}", other),
    }
}

#[test]
fn place_stone_is_relayed_to_both_occupants() {
    let mut state = GameState::new();
    let out = route_message(
        &mut state,
        GameMessage::CreateRoom { player_id: "host".to_string() },
    );
    let rid = room_created_id(&out);
    route_message(
        &mut state,
        GameMessage::JoinRoom { player_id: "guest".to_string(), room_id: rid },
    );
    let out = route_message(
        &mut state,
        GameMessage::PlaceStone { player_id: "guest".to_string(), row: 7, col: 8 },
    );
    assert_eq!(out.len(), 2);
    assert_eq!(out[0].target, "host");
    assert_eq!(out[1].target, "guest");
    for d in &out {
        match &d.event {
            OutboundEvent::StonePlaced { player_id, row, col } => {
                assert_eq!(player_id, "guest");
                assert_eq!(*row, 7);
                assert_eq!(*col, 8);
            },
            other => panic!("expected placeStone, got {:?}", other),
        }
    }
}

#[test]
fn place_stone_without_a_room_is_dropped() {
    let mut state = GameState::new();
    let out = route_message(
        &mut state,
        GameMessage::PlaceStone { player_id: "stranger".to_string(), row: 1, col: 1 },
    );
    assert!(out.is_empty());
}

#[test]
fn pass_through_events_produce_nothing() {
    let mut state = GameState::new();
    let out = route_message(
        &mut state,
        GameMessage::RestartGame { player_id: "a".to_string() },
    );
    assert!(out.is_empty());
    let out = route_message(
        &mut state,
        GameMessage::UndoRequest { player_id: "a".to_string() },
    );
    assert!(out.is_empty());
    let out = route_message(
        &mut state,
        GameMessage::UndoResponse { player_id: "a".to_string(), accepted: true },
    );
    assert!(out.is_empty());
}

#[test]
fn mid_game_disconnect_notifies_peers_and_frees_the_room_id() {
    let mut state = GameState::new();
    let mut registry = PeerRegistry::new();
    let (tx_a, _rx_a) = unbounded_channel();
    let (tx_b, mut rx_b) = unbounded_channel();
    registry.register("player-a".to_string(), tx_a);
    registry.register("player-b".to_string(), tx_b);

    let out = route_message(
        &mut state,
        GameMessage::CreateRoom { player_id: "player-a".to_string() },
    );
    let rid = room_created_id(&out);
    route_message(
        &mut state,
        GameMessage::JoinRoom { player_id: "player-b".to_string(), room_id: rid.clone() },
    );

    // A disconnects mid-game: B is told, through its channel.
    let out = route_disconnect(&mut state, &mut registry, "player-a");
    assert_eq!(out.len(), 1);
    assert_eq!(out[0].target, "player-b");
    match &out[0].event {
        OutboundEvent::PlayerDisconnected { player_id } => assert_eq!(player_id, "player-a"),
        other => panic!("expected playerDisconnected, got {:?}", other),
    }
    dispatch(&registry, &out);
    match rx_b.try_recv().expect("B must have been notified") {
        OutboundEvent::PlayerDisconnected { player_id } => assert_eq!(player_id, "player-a"),
        other => panic!("expected playerDisconnected, got {:?}", other),
    }

    // The room is gone: a later join by C is RoomNotFound.
    let out = route_message(
        &mut state,
        GameMessage::JoinRoom { player_id: "player-c".to_string(), room_id: rid },
    );
    match &out[0].event {
        OutboundEvent::ErrorMessage { message } => assert_eq!(message, "RoomNotFound"),
        other => panic!("expected error, got {:?}", other),
    }
}

#[test]
fn registry_send_reports_membership() {
    let mut registry = PeerRegistry::new();
    let (tx, mut rx): (_, UnboundedReceiver<OutboundEvent>) = unbounded_channel();
    registry.register("a".to_string(), tx);
    let ev = OutboundEvent::Pong { time: 5 };
    assert!(registry.send("a", &ev));
    assert!(!registry.send("b", &ev));
    match rx.try_recv().unwrap() {
        OutboundEvent::Pong { time } => assert_eq!(time, 5),
        other => panic!("expected pong, got {:?}", other),
    }
    assert!(rx.try_recv().is_err());
    registry.unregister("a");
    assert!(!registry.send("a", &ev));
}

#[test]
fn broadcast_except_skips_only_the_excluded_peer() {
    let mut registry = PeerRegistry::new();
    let (tx_a, mut rx_a) = unbounded_channel();
    let (tx_b, mut rx_b) = unbounded_channel();
    let (tx_c, mut rx_c) = unbounded_channel();
    registry.register("a".to_string(), tx_a);
    registry.register("b".to_string(), tx_b);
    registry.register("c".to_string(), tx_c);
    let ev = OutboundEvent::PlayerDisconnected { player_id: "a".to_string() };
    let receivers = registry.broadcast_except("a", &ev);
    assert_eq!(receivers, vec!["b".to_string(), "c".to_string()]);
    assert!(rx_a.try_recv().is_err());
    assert!(rx_b.try_recv().is_ok());
    assert!(rx_c.try_recv().is_ok());
}

#[test]
fn pong_and_init_events_are_addressed_to_the_sender() {
    let d = pong_event("someone");
    assert_eq!(d.target, "someone");
    assert!(matches!(d.event, OutboundEvent::Pong { .. }));
    let d = init_event("fresh-id");
    assert_eq!(d.target, "fresh-id");
    match &d.event {
        OutboundEvent::Init { player_id } => assert_eq!(player_id, "fresh-id"),
        other => panic!("expected init, got {:?}", other),
    }
}
