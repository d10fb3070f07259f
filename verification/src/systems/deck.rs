use vstd::prelude::*;
use crate::board::{same_board, same_foundations, same_tableaus, Board, PileId};
use crate::card::Card;
use crate::math::{rect_contains, Rectangle2, WorldPoint};

verus! {

/// What one tick of the stock/waste cycle did to the board.
#[derive(Debug, PartialEq, Eq, Structural, Copy, Clone)]
pub enum DeckEvent {
    Idle,
    Drew(Card),
    Recycled,
}

/// What a completed click on the stock does: draw one card onto the
/// waste; with the stock empty, recycle the whole waste back into the
/// stock; with both empty, nothing.
pub open spec fn clicked_effect(b1: Board, b2: Board, ev: DeckEvent) -> bool {
    if b1.stock_cards().len() > 0 {
        &&& ev == DeckEvent::Drew(b1.stock_cards().last())
        &&& b2.stock_cards() == b1.stock_cards().drop_last()
        &&& b2.waste_cards() == b1.waste_cards().push(b1.stock_cards().last())
    } else if b1.waste_cards().len() > 0 {
        &&& ev == DeckEvent::Recycled
        &&& b2.stock_cards() == b1.waste_cards().reverse()
        &&& b2.waste_cards().len() == 0
    } else {
        ev == DeckEvent::Idle && same_board(b1, b2)
    }
}

/// One tick of the stock/waste cycle, exactly: nothing happens
/// without a button edge; a pointer over the stock arms the cycle on
/// press and fires it on release; a pointer elsewhere disarms it.
pub open spec fn deck_step(
    s1: DeckSystem,
    s2: DeckSystem,
    b1: Board,
    b2: Board,
    pointer: Option<WorldPoint>,
    button_down: bool,
    stock_rect: Rectangle2,
    ev: DeckEvent,
) -> bool {
    if button_down == s1.is_down {
        s2 == s1 && same_board(b1, b2) && ev == DeckEvent::Idle
    } else {
        &&& s2.is_down == button_down
        &&& match pointer {
            Option::None => s2.is_pressed == s1.is_pressed && same_board(b1, b2) && ev
                == DeckEvent::Idle,
            Option::Some(p) => if !rect_contains(stock_rect, p.x as int, p.y as int) {
                !s2.is_pressed && same_board(b1, b2) && ev == DeckEvent::Idle
            } else if s1.is_pressed && !button_down {
                !s2.is_pressed && clicked_effect(b1, b2, ev)
            } else {
                s2.is_pressed && same_board(b1, b2) && ev == DeckEvent::Idle
            },
        }
    }
}

/// The stock/waste cycle: an edge-triggered press-then-release over
/// the stock sprite draws one card to the waste, or recycles the
/// waste when the stock has run out.
#[derive(Debug, PartialEq, Eq, Structural, Copy, Clone)]
pub struct DeckSystem {
    pub is_down: bool,
    pub is_pressed: bool,
}

impl Default for DeckSystem {
    /// Button up, not armed.
    fn default() -> (d: Self)
        ensures
            !d.is_down && !d.is_pressed,
    {
        DeckSystem { is_down: false, is_pressed: false }
    }
}

impl DeckSystem {
    /// A cycle in the given state.
    pub fn new(is_down: bool, is_pressed: bool) -> (d: Self)
        ensures
            d == (DeckSystem { is_down, is_pressed }),
    {
        DeckSystem { is_down, is_pressed }
    }

    /// One tick: sees the per-tick pointer sample, the button, and
    /// the stock sprite's world rectangle, and performs at most one
    /// draw or recycle, on the release edge of a click over the
    /// stock. Conservation and the ordering invariants carry over,
    /// and no tableau or foundation is ever touched.
    pub fn run(
        &mut self,
        board: &mut Board,
        pointer: Option<WorldPoint>,
        button_down: bool,
        stock_rect: Rectangle2,
    ) -> (ev: DeckEvent)
        requires
            old(board).wf(),
        ensures
            final(board).wf(),
            final(board).all_cards() == old(board).all_cards(),
            old(board).conserved() ==> final(board).conserved(),
            old(board).ordered() ==> final(board).ordered(),
            same_tableaus(*old(board), *final(board)),
            same_foundations(*old(board), *final(board)),
            deck_step(
                *old(self),
                *final(self),
                *old(board),
                *final(board),
                pointer,
                button_down,
                stock_rect,
                ev,
            ),
    {
        if button_down == self.is_down {
            return DeckEvent::Idle;
        }
        self.is_down = button_down;
        let p = match pointer {
            Some(p) => p,
            None => {
                return DeckEvent::Idle;
            }
        };
        if !stock_rect.contains(p.x, p.y) {
            self.is_pressed = false;
            return DeckEvent::Idle;
        }
        if self.is_pressed && !button_down {
            self.is_pressed = false;
            match board.draw_stock() {
                Ok(card) => DeckEvent::Drew(card),
                Err(_) => {
                    if board.pile_len(PileId::Waste) > 0 {
                        board.recycle();
                        DeckEvent::Recycled
                    } else {
                        DeckEvent::Idle
                    }
                }
            }
        } else {
            self.is_pressed = true;
            DeckEvent::Idle
        }
    }
}

} // verus!
