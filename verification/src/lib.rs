//! Simulation and session-coordination core of a multiplayer grid-racing
//! game: course catalog, per-match movement/collision engine, and the
//! multi-match session manager (matchmaking, routing, leaderboard, archive).

pub mod course;
pub mod events;
pub mod game;
pub mod manager;
pub mod protocol;
pub mod text;
