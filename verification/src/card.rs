use vstd::prelude::*;

verus! {

/// The colour of a suit: spades and clubs are black, hearts and
/// diamonds are red.
#[derive(Debug, PartialEq, Eq, Structural, Copy, Clone)]
pub enum Color {
    Black,
    Red,
}

/// One of the four French suits.
#[derive(Debug, PartialEq, Eq, Structural, Copy, Clone)]
pub enum Suit {
    Spade,
    Heart,
    Club,
    Diamond,
}

/// The position of a suit in the canonical suit order
/// (spade, heart, club, diamond).
pub open spec fn suit_idx(s: Suit) -> int {
    match s {
        Suit::Spade => 0,
        Suit::Heart => 1,
        Suit::Club => 2,
        Suit::Diamond => 3,
    }
}

/// The suit at a position of the canonical suit order.
pub open spec fn suit_of_idx(i: int) -> Suit {
    if i == 0 {
        Suit::Spade
    } else if i == 1 {
        Suit::Heart
    } else if i == 2 {
        Suit::Club
    } else {
        Suit::Diamond
    }
}

/// The colour a suit maps to.
pub open spec fn suit_color(s: Suit) -> Color {
    match s {
        Suit::Spade => Color::Black,
        Suit::Heart => Color::Red,
        Suit::Club => Color::Black,
        Suit::Diamond => Color::Red,
    }
}

impl Suit {
    /// The colour of this suit.
    pub fn color(&self) -> (c: Color)
        ensures
            c == suit_color(*self),
    {
        match self {
            Suit::Spade => Color::Black,
            Suit::Heart => Color::Red,
            Suit::Club => Color::Black,
            Suit::Diamond => Color::Red,
        }
    }

    /// The position of this suit in the canonical suit order.
    pub fn index(&self) -> (i: usize)
        ensures
            i == suit_idx(*self),
    {
        match self {
            Suit::Spade => 0,
            Suit::Heart => 1,
            Suit::Club => 2,
            Suit::Diamond => 3,
        }
    }
}

/// Walks the suits once in the canonical order and then yields nothing.
#[derive(Copy, Clone)]
pub struct SuitIterator {
    /// The suit most recently yielded, or `None` before the first step.
    pub suit: Option<Suit>,
}

impl SuitIterator {
    /// How many suits have been yielded so far.
    pub open spec fn pos(self) -> int {
        match self.suit {
            Option::None => 0,
            Option::Some(s) => suit_idx(s) + 1,
        }
    }

    /// The next suit in the canonical order, or `None` once all four
    /// have been yielded.
    pub fn next(&mut self) -> (r: Option<Suit>)
        ensures
            old(self).pos() < 4 ==> {
                &&& r == Option::Some(suit_of_idx(old(self).pos()))
                &&& final(self).pos() == old(self).pos() + 1
            },
            old(self).pos() >= 4 ==> r is None && *final(self) == *old(self),
    {
        if let Some(next) = match &self.suit {
            Some(suit) => match suit {
                Suit::Spade => Some(Suit::Heart),
                Suit::Heart => Some(Suit::Club),
                Suit::Club => Some(Suit::Diamond),
                Suit::Diamond => None,
            },
            None => Some(Suit::Spade),
        } {
            self.suit = Some(next);
            Some(next)
        } else {
            None
        }
    }
}

impl Default for SuitIterator {
    /// A fresh iterator that has yielded nothing yet.
    fn default() -> (it: Self)
        ensures
            it.pos() == 0,
    {
        SuitIterator { suit: None }
    }
}

/// One of the thirteen ranks, ace low, king high.
#[derive(Debug, PartialEq, Eq, Structural, Copy, Clone)]
pub enum Rank {
    Ace,
    Two,
    Three,
    Four,
    Five,
    Six,
    Seven,
    Eight,
    Nine,
    Ten,
    Jack,
    Queen,
    King,
}

/// The position of a rank in the ace-to-king order (ace is 0).
pub open spec fn rank_idx(r: Rank) -> int {
    match r {
        Rank::Ace => 0,
        Rank::Two => 1,
        Rank::Three => 2,
        Rank::Four => 3,
        Rank::Five => 4,
        Rank::Six => 5,
        Rank::Seven => 6,
        Rank::Eight => 7,
        Rank::Nine => 8,
        Rank::Ten => 9,
        Rank::Jack => 10,
        Rank::Queen => 11,
        Rank::King => 12,
    }
}

/// The rank at a position of the ace-to-king order.
pub open spec fn rank_of_idx(i: int) -> Rank {
    if i == 0 {
        Rank::Ace
    } else if i == 1 {
        Rank::Two
    } else if i == 2 {
        Rank::Three
    } else if i == 3 {
        Rank::Four
    } else if i == 4 {
        Rank::Five
    } else if i == 5 {
        Rank::Six
    } else if i == 6 {
        Rank::Seven
    } else if i == 7 {
        Rank::Eight
    } else if i == 8 {
        Rank::Nine
    } else if i == 9 {
        Rank::Ten
    } else if i == 10 {
        Rank::Jack
    } else if i == 11 {
        Rank::Queen
    } else {
        Rank::King
    }
}

/// The successor of a rank, or `None` for the king.
pub open spec fn rank_next(r: Rank) -> Option<Rank> {
    if r is King {
        Option::None
    } else {
        Option::Some(rank_of_idx(rank_idx(r) + 1))
    }
}

impl Rank {
    /// The immediate successor of this rank; a king has none.
    pub fn next(&self) -> (r: Option<Rank>)
        ensures
            r == rank_next(*self),
    {
        match self {
            Rank::Ace => Some(Rank::Two),
            Rank::Two => Some(Rank::Three),
            Rank::Three => Some(Rank::Four),
            Rank::Four => Some(Rank::Five),
            Rank::Five => Some(Rank::Six),
            Rank::Six => Some(Rank::Seven),
            Rank::Seven => Some(Rank::Eight),
            Rank::Eight => Some(Rank::Nine),
            Rank::Nine => Some(Rank::Ten),
            Rank::Ten => Some(Rank::Jack),
            Rank::Jack => Some(Rank::Queen),
            Rank::Queen => Some(Rank::King),
            Rank::King => None,
        }
    }

    /// Whether `self` is the immediate successor of `other`.
    pub fn is_next(&self, other: &Rank) -> (r: bool)
        ensures
            r == (rank_next(*other) == Option::Some(*self)),
    {
        match other.next() {
            Some(rank) => *self == rank,
            None => false,
        }
    }

    /// Whether this rank is the king.
    pub fn is_king(&self) -> (r: bool)
        ensures
            r == (*self is King),
    {
        match self {
            Rank::King => true,
            _ => false,
        }
    }

    /// Whether this rank is the ace.
    pub fn is_ace(&self) -> (r: bool)
        ensures
            r == (*self is Ace),
    {
        match self {
            Rank::Ace => true,
            _ => false,
        }
    }

    /// The position of this rank in the ace-to-king order.
    pub fn index(&self) -> (i: usize)
        ensures
            i == rank_idx(*self),
    {
        match self {
            Rank::Ace => 0,
            Rank::Two => 1,
            Rank::Three => 2,
            Rank::Four => 3,
            Rank::Five => 4,
            Rank::Six => 5,
            Rank::Seven => 6,
            Rank::Eight => 7,
            Rank::Nine => 8,
            Rank::Ten => 9,
            Rank::Jack => 10,
            Rank::Queen => 11,
            Rank::King => 12,
        }
    }
}

/// Walks the ranks once from ace to king and then yields nothing.
#[derive(Copy, Clone)]
pub struct RankIterator {
    /// The rank most recently yielded, or `None` before the first step.
    pub rank: Option<Rank>,
}

impl RankIterator {
    /// How many ranks have been yielded so far.
    pub open spec fn pos(self) -> int {
        match self.rank {
            Option::None => 0,
            Option::Some(r) => rank_idx(r) + 1,
        }
    }

    /// The next rank in ace-to-king order, or `None` once all thirteen
    /// have been yielded.
    pub fn next(&mut self) -> (r: Option<Rank>)
        ensures
            old(self).pos() < 13 ==> {
                &&& r == Option::Some(rank_of_idx(old(self).pos()))
                &&& final(self).pos() == old(self).pos() + 1
            },
            old(self).pos() >= 13 ==> r is None && *final(self) == *old(self),
    {
        match &self.rank {
            Some(rank) => match rank.next() {
                Some(next) => {
                    self.rank = Some(next);
                    Some(next)
                }
                None => None,
            },
            None => {
                self.rank = Some(Rank::Ace);
                Some(Rank::Ace)
            }
        }
    }
}

impl Default for RankIterator {
    /// A fresh iterator that has yielded nothing yet.
    fn default() -> (it: Self)
        ensures
            it.pos() == 0,
    {
        RankIterator { rank: None }
    }
}

/// A playing card, compared by value: the pair of a rank and a suit.
#[derive(Debug, PartialEq, Eq, Structural, Copy, Clone)]
pub struct Card {
    pub rank: Rank,
    pub suit: Suit,
}

/// The position of a card in the canonical 52-card order: the thirteen
/// spades ace to king, then hearts, clubs and diamonds.
pub open spec fn card_idx(c: Card) -> int {
    rank_idx(c.rank) + suit_idx(c.suit) * 13
}

/// The card at a position of the canonical 52-card order.
pub open spec fn card_of_idx(i: int) -> Card {
    Card { rank: rank_of_idx(i % 13), suit: suit_of_idx(i / 13) }
}

impl Card {
    /// A card with the given rank and suit.
    pub fn new(rank: Rank, suit: Suit) -> (c: Card)
        ensures
            c == (Card { rank, suit }),
    {
        Card { rank, suit }
    }

    /// The rank of this card.
    pub fn rank(&self) -> (r: Rank)
        ensures
            r == self.rank,
    {
        self.rank
    }

    /// The suit of this card.
    pub fn suit(&self) -> (s: Suit)
        ensures
            s == self.suit,
    {
        self.suit
    }

    /// The position of this card in the canonical 52-card order.
    pub fn index(&self) -> (i: usize)
        ensures
            i == card_idx(*self),
            i < 52,
    {
        self.rank.index() + self.suit.index() * 13
    }
}

/// Positions and cards of the canonical order correspond one to one.
pub proof fn lemma_card_idx_of_idx(i: int)
    requires
        0 <= i < 52,
    ensures
        card_idx(card_of_idx(i)) == i,
{
    let s = i / 13;
    let r = i % 13;
    assert(0 <= r < 13 && 0 <= s < 4 && i == 13 * s + r) by (nonlinear_arith)
        requires 0 <= i < 52, s == i / 13, r == i % 13,
    {}
    assert(rank_idx(rank_of_idx(r)) == r);
    assert(suit_idx(suit_of_idx(s)) == s);
}

/// Every card sits at its own position of the canonical order.
pub proof fn lemma_card_of_card_idx(c: Card)
    ensures
        0 <= card_idx(c) < 52,
        card_of_idx(card_idx(c)) == c,
{
    let r = rank_idx(c.rank);
    let s = suit_idx(c.suit);
    assert((13 * s + r) / 13 == s && (13 * s + r) % 13 == r) by (nonlinear_arith)
        requires 0 <= r < 13, 0 <= s < 4,
    {}
    assert(rank_of_idx(r) == c.rank);
    assert(suit_of_idx(s) == c.suit);
}

} // verus!
