//! Matchmaking server state machine: players, lobbies, the matchmaking queue,
//! games waiting for confirmation and games in progress, with the rules that
//! move them from one state to the next.

pub mod app_state;
pub mod bot;
pub mod client;
pub mod ids;
pub mod keyed;
pub mod laws;
pub mod rank;
pub mod round_laws;
pub mod messages;
pub mod structs;
