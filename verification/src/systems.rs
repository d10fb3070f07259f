//! The per-tick systems: the stock/waste draw cycle, the drag
//! gesture, and the reveal policy that derives each card's display
//! state.

pub mod deck;
pub mod flip;
pub mod stack;
