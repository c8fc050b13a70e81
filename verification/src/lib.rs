//! Relay core for a two-player five-in-a-row session server.
//!
//! The crate models the connection/room subsystem of the server: a room
//! state machine with a player-to-room index, a peer registry that maps a
//! player to its outbound delivery channel, a message router that turns
//! inbound protocol events into room-state changes and directed outbound
//! events, and the board rule evaluator for win and draw detection.

pub mod board;
pub mod config;
pub mod protocol;
pub mod registry;
pub mod rooms;
pub mod router;
