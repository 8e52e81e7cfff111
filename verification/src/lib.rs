//! An arena-battle simulation engine.
//!
//! Autonomous characters, each driven by a pluggable agent adapter, fight in a
//! bounded 2D arena over a sequence of rounds. The engine advances the arena
//! one tick at a time, resolves movement, turning, vision and projectiles, and
//! records every state transition as an ordered batch of replayable events.
//!
//! All quantities are fixed-point integers: distances and angles are stored in
//! millionths of an arena unit / radian (see [`math_utils::UNIT`]), which keeps
//! the whole simulation deterministic and lets every transition be verified.

pub mod character;
pub mod color;
pub mod game;
pub mod math_utils;
pub mod settings;
