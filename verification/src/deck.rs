use vstd::prelude::*;
use crate::card::{
    card_idx, card_of_idx, lemma_card_idx_of_idx, lemma_card_of_card_idx, suit_of_idx, Card, Rank,
    RankIterator, Suit, SuitIterator,
};

verus! {

broadcast use vstd::seq_lib::group_to_multiset_ensures;

/// The full 52-card sequence in canonical order: position `i` holds
/// the card whose canonical index is `i`.
pub open spec fn full_deck_seq() -> Seq<Card> {
    Seq::new(52, |i: int| card_of_idx(i))
}

/// An ordered pile of cards with stack semantics: the back of the
/// sequence is the top, `draw` pops it and `insert` pushes onto it.
pub struct Deck {
    cards: Vec<Card>,
}

impl View for Deck {
    type V = Seq<Card>;

    closed spec fn view(&self) -> Seq<Card> {
        self.cards@
    }
}

impl Default for Deck {
    /// The standard deck: all 52 distinct cards in canonical order.
    fn default() -> (d: Self)
        ensures
            d@ == full_deck_seq(),
    {
        let mut cards: Vec<Card> = Vec::with_capacity(52);
        let mut suits = SuitIterator::default();
        for s in 0..4usize
            invariant
                suits.pos() == s,
                cards@.len() == 13 * s,
                cards@ =~= full_deck_seq().take(13 * s),
        {
            let suit = match suits.next() {
                Some(suit) => suit,
                None => {
                    proof { assert(false); }
                    Suit::Spade
                }
            };
            let mut ranks = RankIterator::default();
            for r in 0..13usize
                invariant
                    suits.pos() == s + 1,
                    suit == suit_of_idx(s as int),
                    ranks.pos() == r,
                    cards@.len() == 13 * s + r,
                    cards@ =~= full_deck_seq().take(13 * s + r),
            {
                let rank = match ranks.next() {
                    Some(rank) => rank,
                    None => {
                        proof { assert(false); }
                        Rank::Ace
                    }
                };
                proof {
                    let i = 13 * s + r;
                    assert(i / 13 == s as int && i % 13 == r as int) by (nonlinear_arith)
                        requires 0 <= r < 13, 0 <= s < 4, i == 13 * s + r,
                    {}
                    assert(full_deck_seq()[i as int] == (Card { rank, suit }));
                }
                cards.push(Card::new(rank, suit));
            }
        }
        assert(cards@ =~= full_deck_seq());
        Deck { cards }
    }
}

impl Deck {
    /// Reorders the pile; the current strategy keeps the order as it is.
    pub fn shuffle(&mut self)
        ensures
            final(self)@ == old(self)@,
    {
    }

    /// Removes and returns the top card; `None` when the pile is empty.
    pub fn draw(&mut self) -> (r: Option<Card>)
        ensures
            old(self)@.len() == 0 ==> r is None && final(self)@ == old(self)@,
            old(self)@.len() > 0 ==> {
                &&& r == Option::Some(old(self)@.last())
                &&& final(self)@ == old(self)@.drop_last()
            },
    {
        self.cards.pop()
    }

    /// Pushes a card onto the top of the pile.
    pub fn insert(&mut self, card: Card)
        ensures
            final(self)@ == old(self)@.push(card),
    {
        self.cards.push(card);
    }

    /// Exchanges the pile's contents with the given vector.
    pub fn swap(&mut self, cards: &mut Vec<Card>)
        ensures
            final(self)@ == old(cards)@,
            final(cards)@ == old(self)@,
    {
        core::mem::swap(&mut self.cards, cards);
    }

    /// How many cards the pile holds.
    pub fn len(&self) -> (n: usize)
        ensures
            n == self@.len(),
    {
        self.cards.len()
    }

    /// The card at position `i`, counting from the bottom of the pile.
    pub fn get(&self, i: usize) -> (c: Card)
        requires
            i < self@.len(),
        ensures
            c == self@[i as int],
    {
        self.cards[i]
    }
}

/// The canonical deck is exact: its 52 positions hold 52 distinct
/// cards, and every card appears in it exactly once. A board whose
/// cards form this deck's multiset therefore holds each of the 52
/// cards exactly once — no duplicates and no omissions.
pub proof fn lemma_full_deck_exact()
    ensures
        forall|i: int, j: int|
            #![trigger full_deck_seq()[i], full_deck_seq()[j]]
            0 <= i < 52 && 0 <= j < 52 && i != j ==> full_deck_seq()[i] != full_deck_seq()[j],
        forall|c: Card| #[trigger] full_deck_seq().to_multiset().count(c) == 1,
{
    let s = full_deck_seq();
    assert forall|i: int, j: int|
        #![trigger s[i], s[j]]
        0 <= i < 52 && 0 <= j < 52 && i != j implies s[i] != s[j] by {
        lemma_card_idx_of_idx(i);
        lemma_card_idx_of_idx(j);
    }
    assert(s.no_duplicates());
    s.lemma_multiset_has_no_duplicates();
    assert forall|c: Card| #[trigger] s.to_multiset().count(c) == 1 by {
        lemma_card_of_card_idx(c);
        assert(s[card_idx(c)] == c);
        assert(s.contains(c));
    }
}

} // verus!
