//! Message router: turns typed inbound events into room-state changes and
//! directed outbound events, and handles a connection's departure.
//!
//! The router never talks to a socket: it returns the events to deliver,
//! each addressed to one peer, and `registry::dispatch` enqueues them.

use vstd::prelude::*;
use vstd::pervasive::unreached;
use crate::protocol::{Directed, GameMessage, OutboundEvent};
use crate::registry::{except, registry_ids, PeerRegistry};
use crate::rooms::{
    joinable, joined, room_full_text, room_not_found_text, spec_disconnect, GameState, RoomModel,
    RoomStatus,
};

verus! {

/// Relies on chrono's `Utc::now().timestamp()`: the wall clock, as whole
/// seconds since the Unix epoch. Nothing is assumed about the value.
#[verifier::external_body]
fn now_unix_seconds() -> i64 {
    chrono::Utc::now().timestamp()
}

/// The heartbeat reply: a pong carrying the server clock, addressed to the
/// sender alone.
pub fn pong_event(sender_id: &str) -> (d: Directed)
    ensures
        d.target@ == sender_id@,
        d.event is Pong,
{
    Directed {
        target: sender_id.to_owned(),
        event: OutboundEvent::Pong { time: now_unix_seconds() },
    }
}

/// The init greeting sent right after the handshake, addressed to the new
/// connection and carrying its assigned identity.
pub fn init_event(player_id: &str) -> (d: Directed)
    ensures
        d.target@ == player_id@,
        (d.event matches OutboundEvent::Init { player_id: p } && p@ == player_id@),
{
    Directed {
        target: player_id.to_owned(),
        event: OutboundEvent::Init { player_id: player_id.to_owned() },
    }
}

/// The event relays a stone placed by `pid` at (row, col).
pub open spec fn stone_event_ok(e: OutboundEvent, pid: Seq<char>, row: usize, col: usize) -> bool {
    e matches OutboundEvent::StonePlaced { player_id, row: r, col: c } && player_id@ == pid && r
        == row && c == col
}

/// The event announces the departure of `pid`.
pub open spec fn disconnect_event_ok(e: OutboundEvent, pid: Seq<char>) -> bool {
    e matches OutboundEvent::PlayerDisconnected { player_id } && player_id@ == pid
}

/// The event starts the game in room `rid` between `host` and `guest`.
pub open spec fn game_start_event_ok(
    e: OutboundEvent,
    rid: Seq<char>,
    host: Seq<char>,
    guest: Seq<char>,
) -> bool {
    e matches OutboundEvent::GameStart { room_id, host_id, guest_id } && room_id@ == rid
        && host_id@ == host && guest_id@ == guest
}

/// Dispatch one decoded inbound event against the room table.
///
/// CreateRoom inserts a fresh Waiting room and confirms it to the
/// requester alone. JoinRoom either seats the guest and announces the game
/// start to host and guest, or reports the error to the requester alone.
/// PlaceStone relays the move to both occupants of the sender's room (the
/// sender included) and is dropped silently when the sender has no room.
/// The remaining variants are recognized but carry no relay logic.
pub fn route_message(state: &mut GameState, msg: GameMessage) -> (out: Vec<Directed>)
    requires
        old(state).wf(),
    ensures
        final(state).wf(),
        (msg matches GameMessage::CreateRoom { player_id } ==> {
            &&& out@.len() == 1
            &&& out@[0].target@ == player_id@
            &&& (out@[0].event matches OutboundEvent::RoomCreated { room_id } && {
                &&& room_id@.len() >= 36
                &&& !old(state)@.rooms.contains_key(room_id@)
                &&& final(state)@.rooms == old(state)@.rooms.insert(
                    room_id@,
                    (RoomModel {
                        id: room_id@,
                        host: player_id@,
                        guest: None,
                        status: RoomStatus::Waiting,
                    }),
                )
                &&& final(state)@.players == old(state)@.players.insert(player_id@, room_id@)
            })
        }),
        (msg matches GameMessage::JoinRoom { player_id, room_id } ==> {
            &&& !old(state)@.rooms.contains_key(room_id@) ==> {
                &&& *final(state) == *old(state)
                &&& out@.len() == 1
                &&& out@[0].target@ == player_id@
                &&& (out@[0].event matches OutboundEvent::ErrorMessage { message } && message@
                    == room_not_found_text())
            }
            &&& old(state)@.rooms.contains_key(room_id@) && !joinable(
                old(state)@.rooms[room_id@],
            ) ==> {
                &&& *final(state) == *old(state)
                &&& out@.len() == 1
                &&& out@[0].target@ == player_id@
                &&& (out@[0].event matches OutboundEvent::ErrorMessage { message } && message@
                    == room_full_text())
            }
            &&& old(state)@.rooms.contains_key(room_id@) && joinable(
                old(state)@.rooms[room_id@],
            ) ==> {
                &&& final(state)@.rooms == old(state)@.rooms.insert(
                    room_id@,
                    joined(old(state)@.rooms[room_id@], player_id@),
                )
                &&& final(state)@.players == old(state)@.players.insert(player_id@, room_id@)
                &&& out@.len() == 2
                &&& out@[0].target@ == old(state)@.rooms[room_id@].host
                &&& out@[1].target@ == player_id@
                &&& game_start_event_ok(
                    out@[0].event,
                    room_id@,
                    old(state)@.rooms[room_id@].host,
                    player_id@,
                )
                &&& game_start_event_ok(
                    out@[1].event,
                    room_id@,
                    old(state)@.rooms[room_id@].host,
                    player_id@,
                )
            }
        }),
        (msg matches GameMessage::PlaceStone { player_id, row, col } ==> {
            &&& *final(state) == *old(state)
            &&& if old(state)@.players.contains_key(player_id@) && old(
                state,
            )@.rooms.contains_key(old(state)@.players[player_id@]) {
                let room = old(state)@.rooms[old(state)@.players[player_id@]];
                match room.guest {
                    Some(g) => out@.len() == 2 && out@[0].target@ == room.host && out@[1].target@
                        == g && stone_event_ok(out@[0].event, player_id@, row, col)
                        && stone_event_ok(out@[1].event, player_id@, row, col),
                    None => out@.len() == 1 && out@[0].target@ == room.host && stone_event_ok(
                        out@[0].event,
                        player_id@,
                        row,
                        col,
                    ),
                }
            } else {
                out@.len() == 0
            }
        }),
        !(msg is CreateRoom) && !(msg is JoinRoom) && !(msg is PlaceStone) ==> *final(state)
            == *old(state) && out@.len() == 0,
{
    match msg {
        GameMessage::CreateRoom { player_id } => {
            let target = player_id.clone();
            let room_id = state.create_room(player_id);
            let mut out: Vec<Directed> = Vec::new();
            out.push(Directed { target, event: OutboundEvent::RoomCreated { room_id } });
            out
        },
        GameMessage::JoinRoom { player_id, room_id } => {
            let pid = player_id.clone();
            let rid = room_id.clone();
            let res = state.join_room(player_id, room_id);
            match res {
                Ok(_) => {
                    let room_opt = state.get_player_room(pid.as_str());
                    match room_opt {
                        Some(room) => {
                            let mut out: Vec<Directed> = Vec::new();
                            out.push(
                                Directed {
                                    target: room.host_id.clone(),
                                    event: OutboundEvent::GameStart {
                                        room_id: rid.clone(),
                                        host_id: room.host_id.clone(),
                                        guest_id: pid.clone(),
                                    },
                                },
                            );
                            out.push(
                                Directed {
                                    target: pid.clone(),
                                    event: OutboundEvent::GameStart {
                                        room_id: rid,
                                        host_id: room.host_id.clone(),
                                        guest_id: pid,
                                    },
                                },
                            );
                            out
                        },
                        None => unreached(),
                    }
                },
                Err(reason) => {
                    let mut out: Vec<Directed> = Vec::new();
                    out.push(
                        Directed { target: pid, event: OutboundEvent::ErrorMessage { message: reason } },
                    );
                    out
                },
            }
        },
        GameMessage::PlaceStone { player_id, row, col } => {
            let mut out: Vec<Directed> = Vec::new();
            let room_opt = state.get_player_room(player_id.as_str());
            match room_opt {
                Some(room) => {
                    out.push(
                        Directed {
                            target: room.host_id.clone(),
                            event: OutboundEvent::StonePlaced {
                                player_id: player_id.clone(),
                                row,
                                col,
                            },
                        },
                    );
                    match &room.guest_id {
                        Some(g) => {
                            out.push(
                                Directed {
                                    target: g.clone(),
                                    event: OutboundEvent::StonePlaced {
                                        player_id: player_id.clone(),
                                        row,
                                        col,
                                    },
                                },
                            );
                        },
                        None => {},
                    }
                },
                None => {},
            }
            out
        },
        _ => Vec::new(),
    }
}

/// Handle a connection's departure: update the room table, drop the
/// peer's channel, and address a PlayerDisconnected notice to every peer
/// that remains registered.
pub fn route_disconnect(state: &mut GameState, registry: &mut PeerRegistry, leaving: &str) -> (out:
    Vec<Directed>)
    requires
        old(state).wf(),
        old(registry).wf(),
    ensures
        final(state).wf(),
        final(registry).wf(),
        final(state)@ == spec_disconnect(old(state)@, leaving@),
        forall|p: Seq<char>|
            #[trigger] final(registry).has_peer(p) <==> (old(registry).has_peer(p) && p
                != leaving@),
        out@.map_values(|d: Directed| d.target@) == except(old(registry).ids(), leaving@),
        forall|k: int|
            0 <= k < out@.len() ==> disconnect_event_ok((#[trigger] out@[k]).event, leaving@),
{
    let mut out: Vec<Directed> = Vec::new();
    let mut i: usize = 0;
    while i < registry.entries.len()
        invariant
            i <= registry.entries@.len(),
            *registry == *old(registry),
            out@.map_values(|d: Directed| d.target@) == except(
                registry_ids(registry.entries@.subrange(0, i as int)),
                leaving@,
            ),
            forall|k: int|
                0 <= k < out@.len() ==> disconnect_event_ok((#[trigger] out@[k]).event, leaving@),
        decreases registry.entries@.len() - i,
    {
        let ghost pre = registry.entries@.subrange(0, i as int);
        if !crate::rooms::str_eq(registry.entries[i].0.as_str(), leaving) {
            out.push(
                Directed {
                    target: registry.entries[i].0.clone(),
                    event: OutboundEvent::PlayerDisconnected { player_id: leaving.to_owned() },
                },
            );
        }
        i += 1;
        proof {
            let cur = registry.entries@.subrange(0, i as int);
            assert(cur.drop_last() =~= pre);
            assert(registry_ids(cur).drop_last() =~= registry_ids(pre));
            assert(registry_ids(cur).last() == registry.entries@[i - 1].0@);
            assert(out@.map_values(|d: Directed| d.target@) =~= except(
                registry_ids(cur),
                leaving@,
            ));
        }
    }
    proof {
        assert(registry.entries@.subrange(0, registry.entries@.len() as int) =~= registry.entries@);
    }
    state.handle_disconnect(leaving);
    registry.unregister(leaving);
    out
}

} // verus!
