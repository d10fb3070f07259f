//! Rules-and-interaction core of a Klondike-style solitaire game.
//!
//! The crate is organised around the components of the game core:
//! card and deck value types, the board model that owns every pile,
//! the pure placement rules, the hit-test engine over an integer
//! world-coordinate model, and the per-tick systems that turn pointer
//! samples into validated card moves.

pub mod board;
pub mod bundles;
pub mod card;
pub mod components;
pub mod deck;
pub mod errors;
pub mod hittest;
pub mod math;
pub mod rules;
pub mod systems;
