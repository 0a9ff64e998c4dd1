pub mod ability;
pub mod actions;
pub mod events;
pub mod format;
pub mod game_object;
pub mod game_state;
pub mod identifiers;
pub mod model_laws;
pub mod mulligan_counts;
pub mod object_map;
pub mod phase;
pub mod player;
pub mod stack;
pub mod statics;
pub mod zones;
