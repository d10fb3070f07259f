use solitaire::board::{Board, PileId};
use solitaire::bundles::SolitaireBundle;
use solitaire::card::{Card, Rank, Suit};
use solitaire::components::CardState;
use solitaire::deck::Deck;
use solitaire::hittest::{Candidate, Target};
use solitaire::math::{Rectangle2, WorldPoint};
use solitaire::systems::deck::{DeckEvent, DeckSystem};
use solitaire::systems::flip::FlipSystem;
use solitaire::systems::stack::{StackSystem, TickEvent};

fn stock_rect() -> Rectangle2 {
    Rectangle2::new(38, 48, 102, 112)
}

fn card_candidate(pile: PileId, rect: Rectangle2, depth: i32) -> Candidate {
    Candidate {
        target: Target::Card(pile),
        rect,
        pos: WorldPoint::new(rect.left + 32, rect.top + 32),
        depth,
    }
}

fn pile_candidate(pile: PileId, rect: Rectangle2, depth: i32) -> Candidate {
    Candidate {
        target: Target::Pile(pile),
        rect,
        pos: WorldPoint::new(rect.left + 32, rect.top + 32),
        depth,
    }
}

/// The canonical deck with the ace of spades moved to the top of the
/// dealt stock.
fn deck_with_ace_on_stock_top() -> Deck {
    let base = Deck::default();
    let mut cards: Vec<Card> = Vec::new();
    for i in 0..52 {
        cards.push(base.get(i));
    }
    cards.swap(0, 23);
    let mut deck = Deck::default();
    deck.swap(&mut cards);
    deck
}

#[test]
fn test_draw_system_down() {
    let mut board = Board::deal(Deck::default());
    let mut deck_system = DeckSystem::new(true, true);
    let pointer = Some(WorldPoint::new(70, 80));
    let ev = deck_system.run(&mut board, pointer, false, stock_rect());
    assert!(matches!(ev, DeckEvent::Drew(_)));
    board
        .top(PileId::Waste)
        .expect("There should be a card in the waste");
}

#[test]
fn test_deck_system_needs_press_before_release() {
    let mut board = Board::deal(Deck::default());
    let mut deck_system = DeckSystem::default();
    let pointer = Some(WorldPoint::new(70, 80));
    // a release with nothing armed does not draw
    let ev = deck_system.run(&mut board, pointer, false, stock_rect());
    assert_eq!(DeckEvent::Idle, ev);
    assert_eq!(0, board.pile_len(PileId::Waste));
    // press over the stock arms the cycle, release fires it
    assert_eq!(
        DeckEvent::Idle,
        deck_system.run(&mut board, pointer, true, stock_rect())
    );
    assert_eq!(
        DeckEvent::Drew(Card::new(Rank::Jack, Suit::Heart)),
        deck_system.run(&mut board, pointer, false, stock_rect())
    );
    assert_eq!(1, board.pile_len(PileId::Waste));
}

#[test]
fn test_deck_system_ignores_clicks_off_the_stock() {
    let mut board = Board::deal(Deck::default());
    let mut deck_system = DeckSystem::default();
    let away = Some(WorldPoint::new(400, 400));
    assert_eq!(
        DeckEvent::Idle,
        deck_system.run(&mut board, away, true, stock_rect())
    );
    assert_eq!(
        DeckEvent::Idle,
        deck_system.run(&mut board, away, false, stock_rect())
    );
    assert_eq!(24, board.pile_len(PileId::Stock));
    assert_eq!(0, board.pile_len(PileId::Waste));
}

#[test]
fn test_deck_system_recycles_when_stock_runs_out() {
    let mut board = Board::deal(Deck::default());
    let mut deck_system = DeckSystem::default();
    let pointer = Some(WorldPoint::new(70, 80));
    for _ in 0..24 {
        deck_system.run(&mut board, pointer, true, stock_rect());
        let ev = deck_system.run(&mut board, pointer, false, stock_rect());
        assert!(matches!(ev, DeckEvent::Drew(_)));
    }
    assert_eq!(0, board.pile_len(PileId::Stock));
    assert_eq!(24, board.pile_len(PileId::Waste));
    deck_system.run(&mut board, pointer, true, stock_rect());
    let ev = deck_system.run(&mut board, pointer, false, stock_rect());
    assert_eq!(DeckEvent::Recycled, ev);
    assert_eq!(24, board.pile_len(PileId::Stock));
    assert_eq!(0, board.pile_len(PileId::Waste));
}

#[test]
fn test_flip_system_after_deal() {
    let board = Board::deal(Deck::default());
    let flip = FlipSystem::default();
    let views = flip.run(&board);
    // 28 dealt cards are displayed, one face-up per column
    assert_eq!(28, views.len());
    let revealed = views
        .iter()
        .filter(|v| v.state == CardState::TableauRevealed)
        .count();
    let covered = views
        .iter()
        .filter(|v| v.state == CardState::TableauCovered)
        .count();
    assert_eq!(7, revealed);
    assert_eq!(21, covered);
    // column one shows its queen covered and its jack face-up
    assert_eq!(Card::new(Rank::Queen, Suit::Diamond), views[1].card);
    assert_eq!(CardState::TableauCovered, views[1].state);
    assert_eq!(Card::new(Rank::Jack, Suit::Diamond), views[2].card);
    assert_eq!(CardState::TableauRevealed, views[2].state);
}

#[test]
fn test_flip_face_up() {
    assert!(FlipSystem::face_up(&CardState::Waste));
    assert!(FlipSystem::face_up(&CardState::Foundation));
    assert!(FlipSystem::face_up(&CardState::TableauRevealed));
    assert!(!FlipSystem::face_up(&CardState::TableauCovered));
}

#[test]
fn test_stack_system_drag_and_revert() {
    let mut board = Board::deal(Deck::default());
    let mut stack = StackSystem::default();
    let column_rect = Rectangle2::new(38, 144, 102, 208);
    let cands = vec![card_candidate(PileId::Tableau(0), column_rect, 1)];
    // press on the column's king picks it up
    let down = WorldPoint::new(70, 176);
    let ev = stack.run(&mut board, Some(down), true, &cands);
    assert_eq!(
        Ok(TickEvent::Lifted {
            target: PileId::Tableau(0),
            pos: WorldPoint::new(70, 176),
        }),
        ev
    );
    // holding the button drags it by the pointer delta
    let moved = WorldPoint::new(90, 150);
    let ev = stack.run(&mut board, Some(moved), true, &cands);
    assert_eq!(Ok(TickEvent::Dragged { dx: 20, dy: -26 }), ev);
    // releasing over nothing reverts to the recorded origin
    let ev = stack.run(&mut board, Some(WorldPoint::new(400, 400)), true, &cands);
    assert_eq!(Ok(TickEvent::Dragged { dx: 310, dy: 250 }), ev);
    let ev = stack.run(&mut board, Some(WorldPoint::new(400, 400)), false, &cands);
    assert_eq!(
        Ok(TickEvent::Reverted {
            pos: WorldPoint::new(70, 176),
        }),
        ev
    );
    assert_eq!(1, board.pile_len(PileId::Tableau(0)));
}

#[test]
fn test_end_to_end_scenario() {
    let mut board = Board::deal(deck_with_ace_on_stock_top());
    // 28 cards dealt, each column's last card face-up, 24 in the stock
    for i in 0..7 {
        assert_eq!(i + 1, board.pile_len(PileId::Tableau(i)));
        assert_eq!(i, board.tableau_reveal(i));
    }
    assert_eq!(24, board.pile_len(PileId::Stock));

    // click the stock once: one card moves to the waste, face up
    let mut deck_system = DeckSystem::default();
    let over_stock = Some(WorldPoint::new(70, 80));
    deck_system.run(&mut board, over_stock, true, stock_rect());
    let ev = deck_system.run(&mut board, over_stock, false, stock_rect());
    let ace = Card::new(Rank::Ace, Suit::Spade);
    assert_eq!(DeckEvent::Drew(ace), ev);
    assert_eq!(Some(ace), board.top(PileId::Waste));
    assert_eq!(23, board.pile_len(PileId::Stock));

    // drag the ace from the waste onto an empty foundation slot
    let mut stack = StackSystem::default();
    let waste_rect = Rectangle2::new(143, 48, 207, 112);
    let foundation_rect = Rectangle2::new(353, 48, 417, 112);
    let cands = vec![
        card_candidate(PileId::Waste, waste_rect, 1),
        pile_candidate(PileId::Foundation(0), foundation_rect, 0),
    ];
    let ev = stack.run(&mut board, Some(WorldPoint::new(175, 80)), true, &cands);
    assert_eq!(
        Ok(TickEvent::Lifted {
            target: PileId::Waste,
            pos: WorldPoint::new(175, 80),
        }),
        ev
    );
    let ev = stack.run(&mut board, Some(WorldPoint::new(385, 80)), false, &cands);
    assert_eq!(
        Ok(TickEvent::Committed {
            card: ace,
            from: PileId::Waste,
            to: PileId::Foundation(0),
        }),
        ev
    );
    assert_eq!(Some(ace), board.top(PileId::Foundation(0)));
    // only one card had been drawn, so the waste is empty again
    assert_eq!(0, board.pile_len(PileId::Waste));

    // dragging a face-up tableau card onto a wrong target reverts it
    let column0_rect = Rectangle2::new(38, 144, 102, 208);
    let column1_rect = Rectangle2::new(143, 144, 207, 208);
    let cands = vec![
        card_candidate(PileId::Tableau(0), column0_rect, 1),
        card_candidate(PileId::Tableau(1), column1_rect, 1),
    ];
    let ev = stack.run(&mut board, Some(WorldPoint::new(70, 176)), true, &cands);
    assert_eq!(
        Ok(TickEvent::Lifted {
            target: PileId::Tableau(0),
            pos: WorldPoint::new(70, 176),
        }),
        ev
    );
    // the king of diamonds cannot lie on the jack of diamonds
    let ev = stack.run(&mut board, Some(WorldPoint::new(175, 176)), false, &cands);
    assert_eq!(
        Ok(TickEvent::Reverted {
            pos: WorldPoint::new(70, 176),
        }),
        ev
    );
    assert_eq!(1, board.pile_len(PileId::Tableau(0)));
    assert_eq!(
        Some(Card::new(Rank::King, Suit::Diamond)),
        board.top(PileId::Tableau(0))
    );
    assert_eq!(2, board.pile_len(PileId::Tableau(1)));
    assert_eq!(
        Some(Card::new(Rank::Jack, Suit::Diamond)),
        board.top(PileId::Tableau(1))
    );
}

#[test]
fn test_bundle_runs_a_whole_tick() {
    let mut board = Board::deal(Deck::default());
    let mut bundle = SolitaireBundle::default();
    let no_candidates: Vec<Candidate> = Vec::new();
    let over_stock = Some(WorldPoint::new(70, 80));
    let out = bundle.tick(&mut board, over_stock, true, &no_candidates, stock_rect());
    assert_eq!(Ok(TickEvent::Idle), out.gesture);
    assert_eq!(DeckEvent::Idle, out.cycle);
    assert_eq!(28, out.views.len());
    let out = bundle.tick(&mut board, over_stock, false, &no_candidates, stock_rect());
    assert_eq!(Ok(TickEvent::Idle), out.gesture);
    assert_eq!(
        DeckEvent::Drew(Card::new(Rank::Jack, Suit::Heart)),
        out.cycle
    );
    assert_eq!(29, out.views.len());
    assert_eq!(CardState::Waste, out.views[0].state);
}

#[test]
fn test_stack_system_freezes_without_a_pointer_sample() {
    let mut board = Board::deal(Deck::default());
    let mut stack = StackSystem::default();
    let column_rect = Rectangle2::new(38, 144, 102, 208);
    let cands = vec![card_candidate(PileId::Tableau(0), column_rect, 1)];
    let ev = stack.run(&mut board, Some(WorldPoint::new(70, 176)), true, &cands);
    assert!(matches!(ev, Ok(TickEvent::Lifted { .. })));
    // a tick without a pointer sample changes nothing
    let ev = stack.run(&mut board, None, true, &cands);
    assert_eq!(Ok(TickEvent::Idle), ev);
    // the card is still held: the next sample drags it
    let ev = stack.run(&mut board, Some(WorldPoint::new(75, 180)), true, &cands);
    assert_eq!(Ok(TickEvent::Dragged { dx: 5, dy: 4 }), ev);
}

#[test]
fn test_deck_system_fires_on_edges_only() {
    let mut board = Board::deal(Deck::default());
    let mut deck_system = DeckSystem::default();
    let pointer = Some(WorldPoint::new(70, 80));
    // holding the button down is one press, however many ticks it lasts
    assert_eq!(
        DeckEvent::Idle,
        deck_system.run(&mut board, pointer, true, stock_rect())
    );
    assert_eq!(
        DeckEvent::Idle,
        deck_system.run(&mut board, pointer, true, stock_rect())
    );
    assert!(matches!(
        deck_system.run(&mut board, pointer, false, stock_rect()),
        DeckEvent::Drew(_)
    ));
    // and the release already happened: nothing fires twice
    assert_eq!(
        DeckEvent::Idle,
        deck_system.run(&mut board, pointer, false, stock_rect())
    );
    assert_eq!(1, board.pile_len(PileId::Waste));
}
