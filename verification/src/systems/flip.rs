use vstd::prelude::*;
use crate::board::{Board, PileId};
use crate::components::{CardComponent, CardState};

verus! {

/// The display state of the card at index `idx` of tableau column
/// `i`: face-down before the reveal boundary, face-up from it on.
pub open spec fn tableau_state_at(b: Board, i: int, idx: int) -> CardState {
    if idx < b.tableau_boundary(i) {
        CardState::TableauCovered
    } else {
        CardState::TableauRevealed
    }
}

/// The display state of the top card of the pile `p` names. The
/// stock's top is face-down; waste and foundation tops show their
/// faces; a tableau top follows the reveal boundary.
pub open spec fn top_state(b: Board, p: PileId) -> CardState {
    match p {
        PileId::Stock => CardState::TableauCovered,
        PileId::Waste => CardState::Waste,
        PileId::Foundation(_) => CardState::Foundation,
        PileId::Tableau(i) => tableau_state_at(b, i as int, b.tableau_cards(i as int).len() - 1),
    }
}

/// The displayed cards of the waste, in pile order.
pub open spec fn waste_views(b: Board) -> Seq<CardComponent> {
    Seq::new(
        b.waste_cards().len(),
        |idx: int| CardComponent { card: b.waste_cards()[idx], state: CardState::Waste },
    )
}

/// The displayed cards of tableau column `i`, in pile order.
pub open spec fn tableau_views(b: Board, i: int) -> Seq<CardComponent> {
    Seq::new(
        b.tableau_cards(i).len(),
        |idx: int|
            CardComponent { card: b.tableau_cards(i)[idx], state: tableau_state_at(b, i, idx) },
    )
}

/// The displayed cards of foundation `k`, in pile order.
pub open spec fn foundation_views(b: Board, k: int) -> Seq<CardComponent> {
    Seq::new(
        b.foundation_cards(k).len(),
        |idx: int| CardComponent { card: b.foundation_cards(k)[idx], state: CardState::Foundation },
    )
}

/// The displayed cards of the first `n` tableau columns, column by
/// column.
pub open spec fn tableau_views_upto(b: Board, n: int) -> Seq<CardComponent>
    decreases n,
{
    if n <= 0 {
        Seq::empty()
    } else {
        tableau_views_upto(b, n - 1) + tableau_views(b, n - 1)
    }
}

/// The displayed cards of the first `n` foundations.
pub open spec fn foundation_views_upto(b: Board, n: int) -> Seq<CardComponent>
    decreases n,
{
    if n <= 0 {
        Seq::empty()
    } else {
        foundation_views_upto(b, n - 1) + foundation_views(b, n - 1)
    }
}

/// Every displayed card with its state: the waste, then the seven
/// tableau columns, then the four foundations.
pub open spec fn card_views(b: Board) -> Seq<CardComponent> {
    waste_views(b) + tableau_views_upto(b, 7) + foundation_views_upto(b, 4)
}

/// The display state of the top card of pile `p`.
pub fn top_card_state(board: &Board, p: PileId) -> (r: CardState)
    requires
        board.wf(),
        p.valid(),
    ensures
        r == top_state(*board, p),
{
    match p {
        PileId::Stock => CardState::TableauCovered,
        PileId::Waste => CardState::Waste,
        PileId::Foundation(_) => CardState::Foundation,
        PileId::Tableau(i) => {
            let len = board.pile_len(p);
            let rev = board.tableau_reveal(i);
            if len == 0 || len - 1 < rev {
                CardState::TableauCovered
            } else {
                CardState::TableauRevealed
            }
        }
    }
}

/// The reveal policy as a per-tick system: it derives, from the board
/// alone, the display state of every card, so the render layer can
/// swap face and back sprites after each mutation.
pub struct FlipSystem {}

impl Default for FlipSystem {
    /// The system carries no state of its own.
    fn default() -> (f: Self) {
        FlipSystem {}
    }
}

impl FlipSystem {
    /// Whether a card in the given display state shows its face.
    pub fn face_up(state: &CardState) -> (r: bool)
        ensures
            r == !(*state is TableauCovered),
    {
        match state {
            CardState::TableauCovered => false,
            _ => true,
        }
    }

    /// The full display list: every card on the waste, the tableau
    /// columns and the foundations, each with its current state.
    pub fn run(&self, board: &Board) -> (r: Vec<CardComponent>)
        requires
            board.wf(),
        ensures
            r@ == card_views(*board),
    {
        let ghost b = *board;
        let mut r: Vec<CardComponent> = Vec::new();
        let wlen = board.pile_len(PileId::Waste);
        let mut idx: usize = 0;
        while idx < wlen
            invariant
                b == *board,
                board.wf(),
                wlen == b.waste_cards().len(),
                idx <= wlen,
                r@ == waste_views(b).take(idx as int),
            decreases wlen - idx,
        {
            let card = board.pile_card(PileId::Waste, idx);
            r.push(CardComponent::new(card, CardState::Waste));
            proof {
                assert(r@ =~= waste_views(b).take(idx + 1));
            }
            idx = idx + 1;
        }
        proof {
            assert(waste_views(b).take(wlen as int) =~= waste_views(b));
        }
        let mut i: usize = 0;
        while i < 7
            invariant
                b == *board,
                board.wf(),
                i <= 7,
                r@ == waste_views(b) + tableau_views_upto(b, i as int),
            decreases 7 - i,
        {
            let tlen = board.pile_len(PileId::Tableau(i));
            let rev = board.tableau_reveal(i);
            let mut idx: usize = 0;
            while idx < tlen
                invariant
                    b == *board,
                    board.wf(),
                    i < 7,
                    tlen == b.tableau_cards(i as int).len(),
                    rev == b.tableau_boundary(i as int),
                    idx <= tlen,
                    r@ == waste_views(b) + tableau_views_upto(b, i as int) + tableau_views(
                        b,
                        i as int,
                    ).take(idx as int),
                decreases tlen - idx,
            {
                let card = board.pile_card(PileId::Tableau(i), idx);
                let state = if idx < rev {
                    CardState::TableauCovered
                } else {
                    CardState::TableauRevealed
                };
                r.push(CardComponent::new(card, state));
                proof {
                    assert(r@ =~= waste_views(b) + tableau_views_upto(b, i as int)
                        + tableau_views(b, i as int).take(idx + 1));
                }
                idx = idx + 1;
            }
            proof {
                assert(tableau_views_upto(b, i + 1) == tableau_views_upto(b, i as int)
                    + tableau_views(b, i as int));
                assert(tableau_views(b, i as int).take(tlen as int) =~= tableau_views(b, i as int));
                assert(r@ =~= waste_views(b) + tableau_views_upto(b, i + 1));
            }
            i = i + 1;
        }
        let mut k: usize = 0;
        while k < 4
            invariant
                b == *board,
                board.wf(),
                k <= 4,
                r@ == waste_views(b) + tableau_views_upto(b, 7) + foundation_views_upto(
                    b,
                    k as int,
                ),
            decreases 4 - k,
        {
            let flen = board.pile_len(PileId::Foundation(k));
            let mut idx: usize = 0;
            while idx < flen
                invariant
                    b == *board,
                    board.wf(),
                    k < 4,
                    flen == b.foundation_cards(k as int).len(),
                    idx <= flen,
                    r@ == waste_views(b) + tableau_views_upto(b, 7) + foundation_views_upto(
                        b,
                        k as int,
                    ) + foundation_views(b, k as int).take(idx as int),
                decreases flen - idx,
            {
                let card = board.pile_card(PileId::Foundation(k), idx);
                r.push(CardComponent::new(card, CardState::Foundation));
                proof {
                    assert(r@ =~= waste_views(b) + tableau_views_upto(b, 7)
                        + foundation_views_upto(b, k as int) + foundation_views(b, k as int).take(
                        idx + 1,
                    ));
                }
                idx = idx + 1;
            }
            proof {
                assert(foundation_views_upto(b, k + 1) == foundation_views_upto(b, k as int)
                    + foundation_views(b, k as int));
                assert(foundation_views(b, k as int).take(flen as int) =~= foundation_views(
                    b,
                    k as int,
                ));
                assert(r@ =~= waste_views(b) + tableau_views_upto(b, 7) + foundation_views_upto(
                    b,
                    k + 1,
                ));
            }
            k = k + 1;
        }
        r
    }
}

} // verus!
