use vstd::prelude::*;
use crate::board::Board;
use crate::components::CardComponent;
use crate::errors::SolitaireError;
use crate::hittest::Candidate;
use crate::math::{Rectangle2, WorldPoint};
use crate::systems::deck::{deck_step, DeckEvent, DeckSystem};
use crate::systems::flip::{card_views, FlipSystem};
use crate::systems::stack::{cands_wf, stack_step, StackSystem, TickEvent};

verus! {

/// Everything one tick hands back to the render layer: what the drag
/// gesture did, what the stock/waste cycle did, and the full display
/// list the reveal policy derives from the board afterwards.
pub struct TickOutcome {
    pub gesture: Result<TickEvent, SolitaireError>,
    pub cycle: DeckEvent,
    pub views: Vec<CardComponent>,
}

/// The whole interaction core wired together: the drag gesture, the
/// stock/waste cycle and the reveal policy, run once per frame tick
/// in that fixed order against the one shared board.
pub struct SolitaireBundle {
    pub stack: StackSystem,
    pub deck: DeckSystem,
    pub flip: FlipSystem,
}

impl Default for SolitaireBundle {
    /// All three systems in their idle states.
    fn default() -> (b: Self)
        ensures
            b.stack.point is None && b.stack.active is None,
            !b.deck.is_down && !b.deck.is_pressed,
    {
        SolitaireBundle {
            stack: StackSystem::default(),
            deck: DeckSystem::default(),
            flip: FlipSystem::default(),
        }
    }
}

impl SolitaireBundle {
    /// One frame tick: the drag gesture sees the pointer sample
    /// first, then the stock/waste cycle, and the reveal policy
    /// recomputes the display list last. The board's cards are
    /// conserved across the whole tick and its ordering invariants
    /// carry over; some intermediate board links the gesture's exact
    /// step to the cycle's.
    pub fn tick(
        &mut self,
        board: &mut Board,
        pointer: Option<WorldPoint>,
        button_down: bool,
        candidates: &Vec<Candidate>,
        stock_rect: Rectangle2,
    ) -> (out: TickOutcome)
        requires
            old(self).stack.wf(),
            old(board).wf(),
            cands_wf(candidates@, *old(board)),
        ensures
            final(self).stack.wf(),
            final(board).wf(),
            final(board).all_cards() == old(board).all_cards(),
            old(board).conserved() ==> final(board).conserved(),
            old(board).ordered() ==> final(board).ordered(),
            out.views@ == card_views(*final(board)),
            exists|mid: Board|
                {
                    &&& #[trigger] stack_step(
                        old(self).stack,
                        final(self).stack,
                        *old(board),
                        mid,
                        pointer,
                        button_down,
                        candidates@,
                        out.gesture,
                    )
                    &&& deck_step(
                        old(self).deck,
                        final(self).deck,
                        mid,
                        *final(board),
                        pointer,
                        button_down,
                        stock_rect,
                        out.cycle,
                    )
                },
    {
        let gesture = self.stack.run(board, pointer, button_down, candidates);
        let ghost mid = *board;
        let cycle = self.deck.run(board, pointer, button_down, stock_rect);
        let views = self.flip.run(board);
        proof {
            assert(stack_step(
                old(self).stack,
                self.stack,
                *old(board),
                mid,
                pointer,
                button_down,
                candidates@,
                gesture,
            ));
            assert(deck_step(
                old(self).deck,
                self.deck,
                mid,
                *board,
                pointer,
                button_down,
                stock_rect,
                cycle,
            ));
        }
        TickOutcome { gesture, cycle, views }
    }
}

} // verus!
