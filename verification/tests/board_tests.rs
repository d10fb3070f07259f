use solitaire::board::{Board, PileId};
use solitaire::card::{Card, Rank, Suit};
use solitaire::deck::Deck;
use solitaire::errors::SolitaireError;

fn total_cards(board: &Board) -> usize {
    let mut n = board.pile_len(PileId::Stock) + board.pile_len(PileId::Waste);
    for i in 0..7 {
        n += board.pile_len(PileId::Tableau(i));
    }
    for k in 0..4 {
        n += board.pile_len(PileId::Foundation(k));
    }
    n
}

#[test]
fn test_deal_layout() {
    let board = Board::deal(Deck::default());
    assert_eq!(24, board.pile_len(PileId::Stock));
    assert_eq!(0, board.pile_len(PileId::Waste));
    for i in 0..7 {
        assert_eq!(i + 1, board.pile_len(PileId::Tableau(i)));
        assert_eq!(i, board.tableau_reveal(i));
    }
    for k in 0..4 {
        assert_eq!(0, board.pile_len(PileId::Foundation(k)));
    }
    // the columns draw from the top of the canonical deck
    assert_eq!(
        Some(Card::new(Rank::King, Suit::Diamond)),
        board.top(PileId::Tableau(0))
    );
    assert_eq!(
        Some(Card::new(Rank::Jack, Suit::Diamond)),
        board.top(PileId::Tableau(1))
    );
    assert_eq!(
        Some(Card::new(Rank::Queen, Suit::Heart)),
        board.top(PileId::Tableau(6))
    );
    assert_eq!(52, total_cards(&board));
}

#[test]
fn test_draw_stock_moves_top() {
    let mut board = Board::deal(Deck::default());
    let drawn = board.draw_stock();
    assert_eq!(Ok(Card::new(Rank::Jack, Suit::Heart)), drawn);
    assert_eq!(23, board.pile_len(PileId::Stock));
    assert_eq!(
        Some(Card::new(Rank::Jack, Suit::Heart)),
        board.top(PileId::Waste)
    );
    assert_eq!(52, total_cards(&board));
}

#[test]
fn test_draw_stock_empty_source() {
    let mut board = Board::deal(Deck::default());
    for _ in 0..24 {
        assert!(board.draw_stock().is_ok());
    }
    assert_eq!(0, board.pile_len(PileId::Stock));
    assert_eq!(Err(SolitaireError::EmptySource), board.draw_stock());
    assert_eq!(24, board.pile_len(PileId::Waste));
}

#[test]
fn test_recycle_round_trip() {
    let mut board = Board::deal(Deck::default());
    let mut first: Vec<Card> = Vec::new();
    while let Ok(card) = board.draw_stock() {
        first.push(card);
    }
    assert_eq!(24, first.len());
    board.recycle();
    assert_eq!(24, board.pile_len(PileId::Stock));
    assert_eq!(0, board.pile_len(PileId::Waste));
    let mut second: Vec<Card> = Vec::new();
    while let Ok(card) = board.draw_stock() {
        second.push(card);
    }
    assert_eq!(first, second);
    assert_eq!(52, total_cards(&board));
}

#[test]
fn test_recycle_without_empty_stock_is_a_noop() {
    let mut board = Board::deal(Deck::default());
    board.recycle();
    assert_eq!(24, board.pile_len(PileId::Stock));
    assert_eq!(0, board.pile_len(PileId::Waste));
}

#[test]
fn test_move_card_needs_the_top_card() {
    let mut board = Board::deal(Deck::default());
    // the ace of spades is nowhere near the top of the stock
    let result = board.move_card(
        Card::new(Rank::Ace, Suit::Spade),
        PileId::Stock,
        PileId::Foundation(0),
    );
    assert_eq!(Err(SolitaireError::InvariantViolation), result);
    assert_eq!(24, board.pile_len(PileId::Stock));
    // an empty pile has no top at all
    let from_empty = board.move_card(
        Card::new(Rank::Ace, Suit::Spade),
        PileId::Waste,
        PileId::Foundation(0),
    );
    assert_eq!(Err(SolitaireError::InvariantViolation), from_empty);
    assert_eq!(52, total_cards(&board));
}

#[test]
fn test_move_card_advances_reveal_boundary() {
    let mut board = Board::deal(Deck::default());
    // the queen of hearts tops column six, face-up above six covered cards
    assert_eq!(6, board.tableau_reveal(6));
    let result = board.move_card(
        Card::new(Rank::Queen, Suit::Heart),
        PileId::Tableau(6),
        PileId::Tableau(0),
    );
    assert_eq!(Ok(()), result);
    assert_eq!(6, board.pile_len(PileId::Tableau(6)));
    assert_eq!(5, board.tableau_reveal(6));
    assert_eq!(
        Some(Card::new(Rank::King, Suit::Heart)),
        board.top(PileId::Tableau(6))
    );
    assert_eq!(2, board.pile_len(PileId::Tableau(0)));
    assert_eq!(
        Some(Card::new(Rank::Queen, Suit::Heart)),
        board.top(PileId::Tableau(0))
    );
    assert_eq!(52, total_cards(&board));
}

#[test]
fn test_validate_drop_rejections() {
    let board = Board::deal(Deck::default());
    let ace_spade = Card::new(Rank::Ace, Suit::Spade);
    let two_spade = Card::new(Rank::Two, Suit::Spade);
    // stock and waste never accept a drop
    assert_eq!(
        Err(SolitaireError::IllegalMove),
        board.validate_drop(ace_spade, PileId::Stock)
    );
    assert_eq!(
        Err(SolitaireError::IllegalMove),
        board.validate_drop(ace_spade, PileId::Waste)
    );
    // only an ace opens a foundation
    assert_eq!(
        Err(SolitaireError::IllegalMove),
        board.validate_drop(two_spade, PileId::Foundation(0))
    );
    assert_eq!(Ok(()), board.validate_drop(ace_spade, PileId::Foundation(0)));
    // column zero is topped by the king of diamonds: same colour rejected
    let queen_heart = Card::new(Rank::Queen, Suit::Heart);
    let queen_spade = Card::new(Rank::Queen, Suit::Spade);
    assert_eq!(
        Err(SolitaireError::IllegalMove),
        board.validate_drop(queen_heart, PileId::Tableau(0))
    );
    assert_eq!(Ok(()), board.validate_drop(queen_spade, PileId::Tableau(0)));
}

#[test]
fn test_top_of_every_pile_after_deal() {
    let board = Board::deal(Deck::default());
    assert_eq!(
        Some(Card::new(Rank::Jack, Suit::Heart)),
        board.top(PileId::Stock)
    );
    assert_eq!(None, board.top(PileId::Waste));
    assert_eq!(None, board.top(PileId::Foundation(3)));
    assert_eq!(
        Some(Card::new(Rank::King, Suit::Diamond)),
        board.top(PileId::Tableau(0))
    );
}

#[test]
fn test_pile_card_reads_bottom_up() {
    let board = Board::deal(Deck::default());
    // column one took the queen then the jack of diamonds
    assert_eq!(
        Card::new(Rank::Queen, Suit::Diamond),
        board.pile_card(PileId::Tableau(1), 0)
    );
    assert_eq!(
        Card::new(Rank::Jack, Suit::Diamond),
        board.pile_card(PileId::Tableau(1), 1)
    );
    assert_eq!(
        Card::new(Rank::Ace, Suit::Spade),
        board.pile_card(PileId::Stock, 0)
    );
}
