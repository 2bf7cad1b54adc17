//! The systems that resolve queued intents, one per concern.

pub mod combat;
pub mod end_turn;
pub mod hud;
pub mod movement;
pub mod player_input;
pub mod use_item;
