use vstd::prelude::*;
use crate::card::{rank_idx, rank_next, rank_of_idx, suit_color, Card, Rank};

verus! {

/// The top card of a pile sequence, `None` when it is empty.
pub open spec fn seq_top(s: Seq<Card>) -> Option<Card> {
    if s.len() == 0 {
        Option::None
    } else {
        Option::Some(s.last())
    }
}

/// Whether a card may be placed on a foundation whose current top is
/// `foundation_top`: an ace opens an empty foundation, and otherwise
/// the card must follow the top card's rank in its own suit.
pub open spec fn foundation_ok(card: Card, foundation_top: Option<Card>) -> bool {
    match foundation_top {
        Option::None => card.rank is Ace,
        Option::Some(t) => card.suit == t.suit && rank_next(t.rank) == Option::Some(card.rank),
    }
}

/// Whether a card may be placed on a tableau column whose current top
/// is `tableau_top`: a king opens an empty column, and otherwise the
/// card must be one rank below the top card and of the other colour.
pub open spec fn tableau_ok(card: Card, tableau_top: Option<Card>) -> bool {
    match tableau_top {
        Option::None => card.rank is King,
        Option::Some(t) => suit_color(card.suit) != suit_color(t.suit)
            && rank_next(card.rank) == Option::Some(t.rank),
    }
}

/// Whether a foundation may accept the card.
pub fn can_place_on_foundation(card: Card, foundation_top: Option<Card>) -> (r: bool)
    ensures
        r == foundation_ok(card, foundation_top),
{
    match foundation_top {
        None => card.rank.is_ace(),
        Some(t) => card.suit == t.suit && card.rank.is_next(&t.rank),
    }
}

/// Whether a tableau column may accept the card.
pub fn can_place_on_tableau(card: Card, tableau_top: Option<Card>) -> (r: bool)
    ensures
        r == tableau_ok(card, tableau_top),
{
    match tableau_top {
        None => card.rank.is_king(),
        Some(t) => card.suit.color() != t.suit.color() && t.rank.is_next(&card.rank),
    }
}

/// Whether `card` may lie directly on `below` in a tableau run:
/// one rank lower and of the other colour.
pub open spec fn stacks_on(card: Card, below: Card) -> bool {
    suit_color(card.suit) != suit_color(below.suit)
        && rank_next(card.rank) == Option::Some(below.rank)
}

/// The face-up suffix of a column, starting at `boundary`, descends by
/// one rank per card with alternating colours.
pub open spec fn tableau_run(s: Seq<Card>, boundary: int) -> bool {
    forall|j: int| boundary <= j < s.len() - 1 ==> stacks_on(#[trigger] s[j + 1], s[j])
}

/// A foundation sequence read bottom to top is ace, two, and so on,
/// all of one suit.
pub open spec fn foundation_run(s: Seq<Card>) -> bool {
    forall|j: int|
        0 <= j < s.len() ==> rank_idx((#[trigger] s[j]).rank) == j && s[j].suit == s[0].suit
}

/// No rank is its own successor.
pub proof fn lemma_rank_next_moves(r: Rank)
    ensures
        rank_next(r) != Option::Some(r),
{
    if !(r is King) {
        assert(rank_idx(rank_of_idx(rank_idx(r) + 1)) == rank_idx(r) + 1);
    }
}

/// A legal foundation placement keeps the foundation ordered.
pub proof fn lemma_foundation_push(s: Seq<Card>, card: Card)
    requires
        foundation_run(s),
        foundation_ok(card, seq_top(s)),
    ensures
        foundation_run(s.push(card)),
{
    let t = s.push(card);
    if s.len() == 0 {
        assert(rank_idx(card.rank) == 0);
        assert forall|j: int| 0 <= j < t.len() implies rank_idx((#[trigger] t[j]).rank) == j
            && t[j].suit == t[0].suit by {
            assert(t[j] == card);
        }
    } else {
        let top = s.last();
        assert(rank_idx(top.rank) == s.len() - 1);
        assert(rank_idx(rank_of_idx(rank_idx(top.rank) + 1)) == rank_idx(top.rank) + 1);
        assert(rank_idx(card.rank) == s.len());
        assert forall|j: int| 0 <= j < t.len() implies rank_idx((#[trigger] t[j]).rank) == j
            && t[j].suit == t[0].suit by {
            if j < s.len() {
                assert(t[j] == s[j]);
            } else {
                assert(t[j] == card);
                assert(s[0].suit == top.suit);
            }
        }
    }
}

/// Removing the top card keeps the foundation ordered.
pub proof fn lemma_foundation_pop(s: Seq<Card>)
    requires
        foundation_run(s),
        s.len() > 0,
    ensures
        foundation_run(s.drop_last()),
{
    let t = s.drop_last();
    assert forall|j: int| 0 <= j < t.len() implies rank_idx((#[trigger] t[j]).rank) == j
        && t[j].suit == t[0].suit by {
        assert(t[j] == s[j]);
    }
}

/// A legal tableau placement keeps the face-up run descending and
/// alternating.
pub proof fn lemma_tableau_push(s: Seq<Card>, boundary: int, card: Card)
    requires
        tableau_run(s, boundary),
        tableau_ok(card, seq_top(s)),
        0 <= boundary,
        s.len() == 0 ==> boundary == 0,
    ensures
        tableau_run(s.push(card), boundary),
{
    let t = s.push(card);
    assert forall|j: int| boundary <= j < t.len() - 1 implies stacks_on(
        #[trigger] t[j + 1],
        t[j],
    ) by {
        if j < s.len() - 1 {
            assert(t[j + 1] == s[j + 1] && t[j] == s[j]);
        } else {
            assert(j == s.len() - 1 && t[j] == s[j] && t[j + 1] == card);
        }
    }
}

/// Removing the top card keeps the remaining face-up run intact, for
/// any boundary at or above the old one or exposing only the new top.
pub proof fn lemma_tableau_pop(s: Seq<Card>, boundary: int, new_boundary: int)
    requires
        tableau_run(s, boundary),
        s.len() > 0,
        0 <= boundary,
        0 <= new_boundary,
        new_boundary >= boundary || new_boundary >= s.len() - 2,
    ensures
        tableau_run(s.drop_last(), new_boundary),
{
    let t = s.drop_last();
    assert forall|j: int| new_boundary <= j < t.len() - 1 implies stacks_on(
        #[trigger] t[j + 1],
        t[j],
    ) by {
        if new_boundary >= boundary {
            assert(boundary <= j < s.len() - 1);
        } else {
            assert(j < s.len() - 2 && j >= new_boundary >= s.len() - 2);
        }
        assert(t[j + 1] == s[j + 1] && t[j] == s[j]);
    }
}

/// A card never stacks on itself on a tableau, and never follows
/// itself on a foundation.
pub proof fn lemma_no_self_placement(card: Card)
    ensures
        !foundation_ok(card, Option::Some(card)),
        !tableau_ok(card, Option::Some(card)),
{
    lemma_rank_next_moves(card.rank);
}

} // verus!
