//! Engine for a turn-based social guessing game: players write prompts,
//! anonymously answer prompts assigned to them by a random rotation, then
//! guess who supplied each answer, earning a point per correct guess.
//!
//! All terminal interaction lives outside this crate; the engine works on
//! plain values (ids, strings, byte lines) handed in by its caller.

pub mod game;
pub mod guessing;
pub mod orchestrator;
pub mod pairing;
pub mod players;
pub mod ranking;
pub mod rounds;
pub mod scoring;
