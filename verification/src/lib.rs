//! A deterministic, tick-based entity/component simulation kernel.
//!
//! The world is a grid of tiles. Entities are opaque identifiers handed out
//! by an [`entity_manager::EntityManager`]; data is attached to them through
//! sparse-set [`components::ComponentManager`] stores. Positions are
//! fixed-point: a whole-tile coordinate plus a sub-tile offset counted in
//! hundredths of a tile. Each tick, [`game_state::game_update`] applies the
//! player's input and then executes one instruction of every entity's
//! program.

pub mod components;
pub mod entity_manager;
pub mod game_state;
pub mod position;
pub mod utils;
