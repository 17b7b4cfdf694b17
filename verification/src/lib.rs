//! The game logic of a party game server: a lobby that players join, rounds of
//! prompts that pairs of players answer, votes on the answers, and the final
//! ranking shown on the television screen.

pub mod backend;
pub mod phase;
pub mod questions;
pub mod shuffle;
pub mod game;
pub mod scoring;
pub mod screen;
