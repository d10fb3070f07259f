use solitaire::card::{Card, Rank, Suit};
use solitaire::components::{
    CardComponent, CardState, DeckComponent, DragComponent, Foundation, FoundationComponent,
    PileComponent, StackComponent, TableauComponent, Waste, WasteComponent,
};
use solitaire::deck::Deck;
use solitaire::math::WorldPoint;

#[test]
fn test_card_component_new() {
    let card = Card::new(Rank::Ten, Suit::Club);
    let component = CardComponent::new(card, CardState::Waste);
    assert_eq!(card, component.card);
    assert_eq!(CardState::Waste, component.state);
}

#[test]
fn test_deck_component_wraps_a_deck() {
    let mut component = DeckComponent::new(Deck::default());
    assert_eq!(52, component.cards().len());
    let drawn = component.cards_mut().draw();
    assert_eq!(Some(Card::new(Rank::King, Suit::Diamond)), drawn);
    assert_eq!(51, component.cards().len());
}

#[test]
fn test_drag_component_starts_unselected() {
    let drag = DragComponent::default();
    assert!(!drag.selected);
}

#[test]
fn test_stack_component_remembers_origin() {
    let stack = StackComponent::new(WorldPoint::new(3, -7));
    assert_eq!(WorldPoint::new(3, -7), stack.original);
}

#[test]
fn test_waste_insert_and_swap() {
    let mut waste = Waste::default();
    assert_eq!(0, waste.len());
    waste.insert(Card::new(Rank::Four, Suit::Heart));
    waste.insert(Card::new(Rank::Six, Suit::Spade));
    assert_eq!(Some(Card::new(Rank::Six, Suit::Spade)), waste.top());
    let mut cards: Vec<Card> = Vec::new();
    let mut deck = Deck::default();
    deck.swap(&mut cards);
    waste.swap(&mut deck);
    assert_eq!(0, waste.len());
    assert_eq!(2, deck.len());
    assert_eq!(Some(Card::new(Rank::Six, Suit::Spade)), deck.draw());
}

#[test]
fn test_foundation_stack_order() {
    let mut foundation = Foundation::default();
    assert_eq!(None, foundation.top());
    foundation.push(Card::new(Rank::Ace, Suit::Club));
    foundation.push(Card::new(Rank::Two, Suit::Club));
    assert_eq!(2, foundation.len());
    assert_eq!(Some(Card::new(Rank::Two, Suit::Club)), foundation.pop());
    assert_eq!(Some(Card::new(Rank::Ace, Suit::Club)), foundation.top());
    assert_eq!(Card::new(Rank::Ace, Suit::Club), foundation.get(0));
}

#[test]
fn test_pile_component_roles() {
    assert!(matches!(PileComponent::waste(), PileComponent::Waste(_)));
    assert!(matches!(
        PileComponent::foundation(),
        PileComponent::Foundation(_)
    ));
    assert!(matches!(PileComponent::tableau(), PileComponent::Tableau));
}

#[test]
fn test_waste_component_insert_and_swap() {
    let mut waste = WasteComponent::default();
    waste.insert(Card::new(Rank::Seven, Suit::Diamond));
    let mut cards: Vec<Card> = Vec::new();
    let mut deck = Deck::default();
    deck.swap(&mut cards);
    waste.swap(&mut deck);
    assert_eq!(1, deck.len());
    assert_eq!(Some(Card::new(Rank::Seven, Suit::Diamond)), deck.draw());
}

#[test]
fn test_foundation_component_starts_empty() {
    let foundation = FoundationComponent::default();
    let _ = foundation;
}

#[test]
fn test_tableau_deal_reveals_only_the_top() {
    let cards = vec![
        Card::new(Rank::Nine, Suit::Spade),
        Card::new(Rank::Three, Suit::Heart),
        Card::new(Rank::King, Suit::Club),
    ];
    let mut column = TableauComponent::deal(cards);
    assert_eq!(3, column.len());
    assert_eq!(2, column.boundary_index());
    assert_eq!(Some(Card::new(Rank::King, Suit::Club)), column.top());
    // removing the boundary card reveals the card below it
    assert_eq!(Some(Card::new(Rank::King, Suit::Club)), column.pop_top());
    assert_eq!(1, column.boundary_index());
    // a pushed card lands face-up and the boundary stays put
    column.push(Card::new(Rank::Two, Suit::Diamond));
    assert_eq!(1, column.boundary_index());
    assert_eq!(Some(Card::new(Rank::Two, Suit::Diamond)), column.top());
}

#[test]
fn test_tableau_pop_keeps_deeper_reveals() {
    let cards = vec![
        Card::new(Rank::Nine, Suit::Spade),
        Card::new(Rank::Eight, Suit::Heart),
    ];
    let mut column = TableauComponent::deal(cards);
    column.push(Card::new(Rank::Seven, Suit::Club));
    assert_eq!(1, column.boundary_index());
    // two face-up cards: removing the top one moves no boundary
    assert_eq!(Some(Card::new(Rank::Seven, Suit::Club)), column.pop_top());
    assert_eq!(1, column.boundary_index());
    // draining the column resets the boundary to the bottom
    assert_eq!(Some(Card::new(Rank::Eight, Suit::Heart)), column.pop_top());
    assert_eq!(Some(Card::new(Rank::Nine, Suit::Spade)), column.pop_top());
    assert_eq!(None, column.pop_top());
    assert_eq!(0, column.boundary_index());
}
