//! Opening-hand and stack-copy rules of a trading card game, verified with Verus.

pub mod types;
pub mod util;
pub mod game;
