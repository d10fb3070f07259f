use vstd::prelude::*;

verus! {

/// Outcome classification for operations on the game core.
///
/// `IllegalMove` reports a placement that fails the rule engine; the
/// gesture treats it as the normal signal to revert a dragged card.
/// `EmptySource` reports a draw from an empty stock.
/// `InvariantViolation` reports a caller defect: a card was not where
/// the caller claimed it to be.
#[derive(Debug, PartialEq, Eq, Structural, Copy, Clone)]
pub enum SolitaireError {
    IllegalMove,
    EmptySource,
    InvariantViolation,
}

} // verus!
