//! Verified core of a real-time multiplayer quiz game server.
//!
//! The library holds the game's logic: the quiz file parser, the scoring
//! rules, the leaderboard, the per-session state machine that drives a game
//! from lobby to finish, and the session registry.  Network transport,
//! timers and task scheduling live outside the library and call into it
//! with plain values.

pub mod config;
pub mod errors;
pub mod models;
pub mod services;
pub mod text;
