use vstd::prelude::*;
use crate::card::Card;
use crate::deck::Deck;
use crate::math::WorldPoint;

verus! {

/// Where a displayed card lives, and whether it shows its face.
#[derive(Debug, PartialEq, Eq, Structural, Copy, Clone)]
pub enum CardState {
    Waste,
    TableauCovered,
    TableauRevealed,
    Foundation,
}

/// A displayed card together with its display state.
#[derive(Debug, PartialEq, Eq, Structural, Copy, Clone)]
pub struct CardComponent {
    pub card: Card,
    pub state: CardState,
}

impl CardComponent {
    /// A displayed card in the given state.
    pub fn new(card: Card, state: CardState) -> (c: Self)
        ensures
            c == (CardComponent { card, state }),
    {
        CardComponent { card, state }
    }
}

/// The stock pile, wrapped so the board can hand it out as a unit.
pub struct DeckComponent {
    deck: Deck,
}

impl DeckComponent {
    /// The pile's view, for contracts about the wrapper.
    pub closed spec fn spec_cards(self) -> Seq<Card> {
        self.deck@
    }

    /// Wraps a pile of cards.
    pub fn new(deck: Deck) -> (d: DeckComponent)
        ensures
            d.spec_cards() == deck@,
    {
        DeckComponent { deck }
    }

    /// Read access to the wrapped pile.
    pub fn cards(&self) -> (d: &Deck)
        ensures
            d@ == self.spec_cards(),
    {
        &self.deck
    }

    /// Write access to the wrapped pile.
    pub fn cards_mut(&mut self) -> (d: &mut Deck)
        ensures
            d@ == old(self).spec_cards(),
            final(self).spec_cards() == final(d)@,
    {
        &mut self.deck
    }
}

/// Marks a card as the one a drag gesture currently holds.
#[derive(Debug, PartialEq, Eq, Structural, Copy, Clone)]
pub struct DragComponent {
    pub selected: bool,
}

impl Default for DragComponent {
    /// Not selected.
    fn default() -> (d: Self)
        ensures
            !d.selected,
    {
        DragComponent { selected: false }
    }
}

/// The on-screen position a dragged card returns to when a drop is
/// rejected.
#[derive(Debug, PartialEq, Eq, Structural, Copy, Clone)]
pub struct StackComponent {
    pub original: WorldPoint,
}

impl StackComponent {
    /// Remembers the given origin position.
    pub fn new(original: WorldPoint) -> (s: Self)
        ensures
            s == (StackComponent { original }),
    {
        StackComponent { original }
    }
}

/// The face-up discard pile: the back of the sequence is the most
/// recently discarded card.
pub struct Waste {
    cards: Vec<Card>,
}

impl View for Waste {
    type V = Seq<Card>;

    closed spec fn view(&self) -> Seq<Card> {
        self.cards@
    }
}

impl Default for Waste {
    /// An empty waste pile.
    fn default() -> (w: Self)
        ensures
            w@ == Seq::<Card>::empty(),
    {
        Waste { cards: Vec::with_capacity(24) }
    }
}

impl Waste {
    /// Discards a card onto the top of the pile.
    pub fn insert(&mut self, card: Card)
        ensures
            final(self)@ == old(self)@.push(card),
    {
        self.cards.push(card);
    }

    /// Exchanges the pile's contents with a stock pile.
    pub fn swap(&mut self, deck: &mut Deck)
        ensures
            final(self)@ == old(deck)@,
            final(deck)@ == old(self)@,
    {
        deck.swap(&mut self.cards);
    }

    /// Removes and returns the top card; `None` when the pile is empty.
    pub fn pop(&mut self) -> (r: Option<Card>)
        ensures
            old(self)@.len() == 0 ==> r is None && final(self)@ == old(self)@,
            old(self)@.len() > 0 ==> {
                &&& r == Option::Some(old(self)@.last())
                &&& final(self)@ == old(self)@.drop_last()
            },
    {
        self.cards.pop()
    }

    /// The top card without removing it.
    pub fn top(&self) -> (r: Option<Card>)
        ensures
            self@.len() == 0 ==> r is None,
            self@.len() > 0 ==> r == Option::Some(self@.last()),
    {
        if self.cards.len() == 0 {
            None
        } else {
            Some(self.cards[self.cards.len() - 1])
        }
    }

    /// How many cards the pile holds.
    pub fn len(&self) -> (n: usize)
        ensures
            n == self@.len(),
    {
        self.cards.len()
    }

    /// The card at position `i`, counting from the bottom.
    pub fn get(&self, i: usize) -> (c: Card)
        requires
            i < self@.len(),
        ensures
            c == self@[i as int],
    {
        self.cards[i]
    }
}

/// One ascending, single-suit collection pile.
pub struct Foundation {
    cards: Vec<Card>,
}

impl View for Foundation {
    type V = Seq<Card>;

    closed spec fn view(&self) -> Seq<Card> {
        self.cards@
    }
}

impl Default for Foundation {
    /// An empty foundation.
    fn default() -> (f: Self)
        ensures
            f@ == Seq::<Card>::empty(),
    {
        Foundation { cards: Vec::with_capacity(13) }
    }
}

impl Foundation {
    /// Places a card on top of the pile.
    pub fn push(&mut self, card: Card)
        ensures
            final(self)@ == old(self)@.push(card),
    {
        self.cards.push(card);
    }

    /// Removes and returns the top card; `None` when the pile is empty.
    pub fn pop(&mut self) -> (r: Option<Card>)
        ensures
            old(self)@.len() == 0 ==> r is None && final(self)@ == old(self)@,
            old(self)@.len() > 0 ==> {
                &&& r == Option::Some(old(self)@.last())
                &&& final(self)@ == old(self)@.drop_last()
            },
    {
        self.cards.pop()
    }

    /// The top card without removing it.
    pub fn top(&self) -> (r: Option<Card>)
        ensures
            self@.len() == 0 ==> r is None,
            self@.len() > 0 ==> r == Option::Some(self@.last()),
    {
        if self.cards.len() == 0 {
            None
        } else {
            Some(self.cards[self.cards.len() - 1])
        }
    }

    /// How many cards the pile holds.
    pub fn len(&self) -> (n: usize)
        ensures
            n == self@.len(),
    {
        self.cards.len()
    }

    /// The card at position `i`, counting from the bottom.
    pub fn get(&self, i: usize) -> (c: Card)
        requires
            i < self@.len(),
        ensures
            c == self@[i as int],
    {
        self.cards[i]
    }
}

/// The pile role a drop target can play.
pub enum PileComponent {
    Waste(Waste),
    Tableau,
    Foundation(Foundation),
}

impl PileComponent {
    /// A waste pile role with an empty pile.
    pub fn waste() -> (p: PileComponent)
        ensures
            p matches PileComponent::Waste(w) && w@ == Seq::<Card>::empty(),
    {
        PileComponent::Waste(Waste::default())
    }

    /// A foundation role with an empty pile.
    pub fn foundation() -> (p: PileComponent)
        ensures
            p matches PileComponent::Foundation(f) && f@ == Seq::<Card>::empty(),
    {
        PileComponent::Foundation(Foundation::default())
    }

    /// A tableau role.
    pub fn tableau() -> (p: PileComponent)
        ensures
            p is Tableau,
    {
        PileComponent::Tableau
    }
}

/// A build column: an ordered pile with a reveal boundary. Cards at or
/// after the boundary are face-up; cards before it are face-down and
/// untouchable. The boundary always leaves a non-empty column's top
/// card face-up.
pub struct TableauComponent {
    cards: Vec<Card>,
    reveal: usize,
}

impl View for TableauComponent {
    type V = Seq<Card>;

    closed spec fn view(&self) -> Seq<Card> {
        self.cards@
    }
}

impl TableauComponent {
    /// The reveal boundary: the index of the first face-up card.
    pub closed spec fn boundary(self) -> int {
        self.reveal as int
    }

    /// The boundary is in range and the top card of a non-empty column
    /// is face-up.
    pub open spec fn wf(self) -> bool {
        if self@.len() == 0 {
            self.boundary() == 0
        } else {
            0 <= self.boundary() < self@.len()
        }
    }

    /// Whether the card at index `i` is face-down.
    pub open spec fn spec_covered(self, i: int) -> bool {
        i < self.boundary()
    }

    /// A column dealt from the given cards, all face-down except the
    /// top one.
    pub fn deal(cards: Vec<Card>) -> (t: Self)
        requires
            cards@.len() > 0,
        ensures
            t@ == cards@,
            t.boundary() == cards@.len() - 1,
            t.wf(),
    {
        let reveal = cards.len() - 1;
        TableauComponent { cards, reveal }
    }

    /// Places a face-up card on top of the column.
    pub fn push(&mut self, card: Card)
        ensures
            final(self)@ == old(self)@.push(card),
            final(self).boundary() == old(self).boundary(),
            old(self).wf() ==> final(self).wf(),
    {
        self.cards.push(card);
    }

    /// Removes the top card. When the removed card stood at the
    /// boundary, the boundary retreats so that the newly exposed top
    /// card — if any remains — becomes face-up; otherwise every card's
    /// state is unchanged.
    pub fn pop_top(&mut self) -> (r: Option<Card>)
        requires
            old(self).wf(),
        ensures
            final(self).wf(),
            old(self)@.len() == 0 ==> r is None && final(self)@ == old(self)@
                && final(self).boundary() == old(self).boundary(),
            old(self)@.len() > 0 ==> {
                &&& r == Option::Some(old(self)@.last())
                &&& final(self)@ == old(self)@.drop_last()
                &&& final(self).boundary() == (
                    if old(self)@.len() == 1 {
                        0int
                    } else if old(self).boundary() >= old(self)@.len() - 1 {
                        old(self)@.len() - 2
                    } else {
                        old(self).boundary()
                    })
            },
    {
        match self.cards.pop() {
            Some(card) => {
                if self.cards.len() == 0 {
                    self.reveal = 0;
                } else if self.reveal >= self.cards.len() {
                    self.reveal = self.cards.len() - 1;
                }
                Some(card)
            }
            None => None,
        }
    }

    /// The top card without removing it.
    pub fn top(&self) -> (r: Option<Card>)
        ensures
            self@.len() == 0 ==> r is None,
            self@.len() > 0 ==> r == Option::Some(self@.last()),
    {
        if self.cards.len() == 0 {
            None
        } else {
            Some(self.cards[self.cards.len() - 1])
        }
    }

    /// How many cards the column holds.
    pub fn len(&self) -> (n: usize)
        ensures
            n == self@.len(),
    {
        self.cards.len()
    }

    /// The card at index `i`, counting from the bottom.
    pub fn get(&self, i: usize) -> (c: Card)
        requires
            i < self@.len(),
        ensures
            c == self@[i as int],
    {
        self.cards[i]
    }

    /// The reveal boundary as an index.
    pub fn boundary_index(&self) -> (b: usize)
        ensures
            b == self.boundary(),
    {
        self.reveal
    }
}

impl Default for TableauComponent {
    /// An empty column.
    fn default() -> (t: Self)
        ensures
            t@ == Seq::<Card>::empty(),
            t.boundary() == 0,
            t.wf(),
    {
        TableauComponent { cards: Vec::new(), reveal: 0 }
    }
}

/// A face-up discard pile kept as a bare component.
pub struct WasteComponent {
    cards: Vec<Card>,
}

impl View for WasteComponent {
    type V = Seq<Card>;

    closed spec fn view(&self) -> Seq<Card> {
        self.cards@
    }
}

impl Default for WasteComponent {
    /// An empty pile.
    fn default() -> (w: Self)
        ensures
            w@ == Seq::<Card>::empty(),
    {
        WasteComponent { cards: Vec::with_capacity(24) }
    }
}

impl WasteComponent {
    /// Discards a card onto the top of the pile.
    pub fn insert(&mut self, card: Card)
        ensures
            final(self)@ == old(self)@.push(card),
    {
        self.cards.push(card);
    }

    /// Exchanges the pile's contents with a stock pile.
    pub fn swap(&mut self, deck: &mut Deck)
        ensures
            final(self)@ == old(deck)@,
            final(deck)@ == old(self)@,
    {
        deck.swap(&mut self.cards);
    }
}

/// A collection pile kept as a bare component.
pub struct FoundationComponent {
    cards: Vec<Card>,
}

impl View for FoundationComponent {
    type V = Seq<Card>;

    closed spec fn view(&self) -> Seq<Card> {
        self.cards@
    }
}

impl Default for FoundationComponent {
    /// An empty pile.
    fn default() -> (f: Self)
        ensures
            f@ == Seq::<Card>::empty(),
    {
        FoundationComponent { cards: Vec::with_capacity(13) }
    }
}

} // verus!
