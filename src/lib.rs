//! Rules engine of a competitive progression game: turn-based battles between
//! owned game assets and a branching mission progression with rewards.

pub mod combat_system;
pub mod levels;
pub mod platform;
pub mod quest_system;
