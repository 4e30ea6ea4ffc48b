//! Core of a multiplayer custom-room lobby: rooms group players into teams,
//! players pick slots and archetypes, and a full room can be sent into an
//! external matchmaking search. This crate holds the verified state machine:
//! the room/slot store with its occupancy invariants, the service operations
//! that mutate it, and the connection registry that decides who is notified.
//! Transport, persistence and the matchmaking backend stand outside, behind
//! plain-value interfaces.

pub mod counting;
pub mod enums;
pub mod errors;
pub mod lobby;
pub mod matchmaking;
pub mod models;
pub mod service;
pub mod store;
