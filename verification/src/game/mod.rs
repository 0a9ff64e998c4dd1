pub mod ability_utils;
pub mod arrival_order;
pub mod begin_game_laws;
pub mod decision_laws;
pub mod effects;
pub mod engine;
pub mod engine_laws;
pub mod functioning_abilities;
pub mod mulligan;
pub mod mulligan_laws;
pub mod opening_laws;
pub mod stack;
pub mod targeting;
pub mod turn_control;
pub mod turns;
pub mod zone_laws;
pub mod zones;
