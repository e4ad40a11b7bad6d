//! Realtime core of a multiplayer server for a browser platformer: flags,
//! rooms, players, sessions, the chat pipeline and the fixed-rate game loop.
//!
//! Positions are kept in thousandths of a game unit so that every rule of the
//! world (grab radius, fall floor, drop offsets) is exact integer arithmetic.
use vstd::prelude::*;

pub mod auth;
pub mod chat;
pub mod client;
pub mod flag;
pub mod game;
pub mod history;
pub mod laws;
pub mod moderation;
pub mod protocol;
pub mod room;
pub mod server;
pub mod session;
pub mod token;
pub mod wire;

verus! {

} // verus!
