use solitaire::card::{Card, Color, Rank, RankIterator, Suit, SuitIterator};

#[test]
fn test_color_cmp() {
    assert_eq!(Color::Red, Color::Red);
    assert_eq!(Color::Black, Color::Black);
    assert_ne!(Color::Red, Color::Black);
    assert_ne!(Color::Black, Color::Red);
}

#[test]
fn test_rank_iterator() {
    let mut iter = RankIterator::default();
    assert_eq!(Some(Rank::Ace), iter.next());
    assert_eq!(Some(Rank::Two), iter.next());
    assert_eq!(Some(Rank::Three), iter.next());
    assert_eq!(Some(Rank::Four), iter.next());
    assert_eq!(Some(Rank::Five), iter.next());
    assert_eq!(Some(Rank::Six), iter.next());
    assert_eq!(Some(Rank::Seven), iter.next());
    assert_eq!(Some(Rank::Eight), iter.next());
    assert_eq!(Some(Rank::Nine), iter.next());
    assert_eq!(Some(Rank::Ten), iter.next());
    assert_eq!(Some(Rank::Jack), iter.next());
    assert_eq!(Some(Rank::Queen), iter.next());
    assert_eq!(Some(Rank::King), iter.next());
    assert_eq!(None, iter.next());
}

#[test]
fn test_suit_iterator() {
    let mut iter = SuitIterator::default();
    assert_eq!(Some(Suit::Spade), iter.next());
    assert_eq!(Some(Suit::Heart), iter.next());
    assert_eq!(Some(Suit::Club), iter.next());
    assert_eq!(Some(Suit::Diamond), iter.next());
    assert_eq!(None, iter.next());
}

#[test]
fn test_suit_colors() {
    assert_eq!(Color::Black, Suit::Spade.color());
    assert_eq!(Color::Red, Suit::Heart.color());
    assert_eq!(Color::Black, Suit::Club.color());
    assert_eq!(Color::Red, Suit::Diamond.color());
}

#[test]
fn test_rank_next() {
    assert_eq!(Some(Rank::Two), Rank::Ace.next());
    assert_eq!(Some(Rank::King), Rank::Queen.next());
    assert_eq!(None, Rank::King.next());
}

#[test]
fn test_rank_is_next() {
    assert!(Rank::Two.is_next(&Rank::Ace));
    assert!(Rank::King.is_next(&Rank::Queen));
    assert!(!Rank::Ace.is_next(&Rank::Two));
    assert!(!Rank::Ace.is_next(&Rank::King));
}

#[test]
fn test_rank_predicates() {
    assert!(Rank::King.is_king());
    assert!(!Rank::Queen.is_king());
    assert!(Rank::Ace.is_ace());
    assert!(!Rank::Two.is_ace());
}

#[test]
fn test_card_accessors() {
    let card = Card::new(Rank::Queen, Suit::Heart);
    assert_eq!(Rank::Queen, card.rank());
    assert_eq!(Suit::Heart, card.suit());
    assert_eq!(11 + 13, card.index());
}

#[test]
fn test_card_index_corners() {
    assert_eq!(0, Card::new(Rank::Ace, Suit::Spade).index());
    assert_eq!(51, Card::new(Rank::King, Suit::Diamond).index());
}
