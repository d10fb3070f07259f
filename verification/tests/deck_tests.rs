use solitaire::card::{Card, Rank, Suit};
use solitaire::deck::Deck;

#[test]
fn test_size() {
    let deck = Deck::default();
    assert_eq!(52, deck.len());
}

#[test]
fn test_order() {
    let deck = Deck::default();
    for i in 0..52 {
        assert_eq!(i, deck.get(i).index());
    }
}

#[test]
fn test_shuffle() {}

#[test]
fn test_draw_from_top() {
    let mut deck = Deck::default();
    assert_eq!(Some(Card::new(Rank::King, Suit::Diamond)), deck.draw());
    assert_eq!(51, deck.len());
    assert_eq!(Some(Card::new(Rank::Queen, Suit::Diamond)), deck.draw());
}

#[test]
fn test_draw_empty() {
    let mut cards: Vec<Card> = Vec::new();
    let mut deck = Deck::default();
    deck.swap(&mut cards);
    assert_eq!(52, cards.len());
    assert_eq!(0, deck.len());
    assert_eq!(None, deck.draw());
}

#[test]
fn test_insert_then_draw() {
    let mut cards: Vec<Card> = Vec::new();
    let mut deck = Deck::default();
    deck.swap(&mut cards);
    deck.insert(Card::new(Rank::Five, Suit::Club));
    deck.insert(Card::new(Rank::Nine, Suit::Heart));
    assert_eq!(Some(Card::new(Rank::Nine, Suit::Heart)), deck.draw());
    assert_eq!(Some(Card::new(Rank::Five, Suit::Club)), deck.draw());
    assert_eq!(None, deck.draw());
}

#[test]
fn test_swap_round_trip() {
    let mut deck = Deck::default();
    let mut cards: Vec<Card> = vec![Card::new(Rank::Ace, Suit::Heart)];
    deck.swap(&mut cards);
    assert_eq!(52, cards.len());
    assert_eq!(1, deck.len());
    assert_eq!(Card::new(Rank::Ace, Suit::Heart), deck.get(0));
    deck.swap(&mut cards);
    assert_eq!(52, deck.len());
    assert_eq!(1, cards.len());
}
