//! Rules engine of a falling-block puzzle game: board state, piece movement
//! and rotation with wall kicks, the seven-kind randomizer, line clearing and
//! scoring. Terminal rendering, raw input and timers are left to the caller.

pub mod events;
pub mod flags;
pub mod game;
pub mod help;
pub mod settings;
