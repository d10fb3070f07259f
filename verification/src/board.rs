use vstd::prelude::*;
use vstd::multiset::Multiset;
use crate::card::Card;
use crate::components::{Foundation, TableauComponent, Waste};
use crate::deck::{full_deck_seq, Deck};
use crate::errors::SolitaireError;
use crate::rules::{
    can_place_on_foundation, can_place_on_tableau, foundation_ok, foundation_run,
    lemma_foundation_pop, lemma_foundation_push, lemma_no_self_placement, lemma_tableau_pop,
    lemma_tableau_push, seq_top, tableau_ok, tableau_run,
};

verus! {

broadcast use {vstd::seq_lib::group_to_multiset_ensures, vstd::multiset::group_multiset_axioms};

/// Identifies one of the board's thirteen piles.
#[derive(Debug, PartialEq, Eq, Structural, Copy, Clone)]
pub enum PileId {
    Stock,
    Waste,
    Tableau(usize),
    Foundation(usize),
}

impl PileId {
    /// Whether the identifier names a pile the board has.
    pub open spec fn valid(self) -> bool {
        match self {
            PileId::Stock => true,
            PileId::Waste => true,
            PileId::Tableau(i) => i < 7,
            PileId::Foundation(k) => k < 4,
        }
    }
}

/// The multiset of every card held by a sequence of piles.
pub open spec fn piles_cards(ss: Seq<Seq<Card>>) -> Multiset<Card>
    decreases ss.len(),
{
    if ss.len() == 0 {
        Multiset::empty()
    } else {
        piles_cards(ss.drop_last()).add(ss.last().to_multiset())
    }
}

/// Where a tableau column's reveal boundary stands after its top card
/// is removed: unchanged while deeper face-up cards remain, otherwise
/// retreating so the newly exposed top card becomes face-up.
pub open spec fn boundary_after_pop(cards: Seq<Card>, boundary: int) -> int {
    if cards.len() <= 1 {
        0
    } else if boundary >= cards.len() - 1 {
        cards.len() - 2
    } else {
        boundary
    }
}

/// The single source of truth for where every card lives: the stock,
/// the waste, seven tableau columns and four foundations.
pub struct Board {
    stock: Deck,
    waste: Waste,
    tableaus: Vec<TableauComponent>,
    foundations: Vec<Foundation>,
}

impl Board {
    /// The stock's cards; the back of the sequence is the top.
    pub closed spec fn stock_cards(self) -> Seq<Card> {
        self.stock@
    }

    /// The waste's cards; the back of the sequence is the top.
    pub closed spec fn waste_cards(self) -> Seq<Card> {
        self.waste@
    }

    /// How many tableau columns the board holds.
    pub closed spec fn tableau_count(self) -> int {
        self.tableaus@.len() as int
    }

    /// The cards of tableau column `i`, bottom first.
    pub closed spec fn tableau_cards(self, i: int) -> Seq<Card> {
        self.tableaus@[i]@
    }

    /// The reveal boundary of tableau column `i`.
    pub closed spec fn tableau_boundary(self, i: int) -> int {
        self.tableaus@[i].boundary()
    }

    /// How many foundations the board holds.
    pub closed spec fn foundation_count(self) -> int {
        self.foundations@.len() as int
    }

    /// The cards of foundation `k`, bottom first.
    pub closed spec fn foundation_cards(self, k: int) -> Seq<Card> {
        self.foundations@[k]@
    }

    /// The cards of the pile `p` names.
    pub open spec fn pile_seq(self, p: PileId) -> Seq<Card> {
        match p {
            PileId::Stock => self.stock_cards(),
            PileId::Waste => self.waste_cards(),
            PileId::Tableau(i) => self.tableau_cards(i as int),
            PileId::Foundation(k) => self.foundation_cards(k as int),
        }
    }

    /// Column `i` is structurally sound: its boundary is in range and
    /// a non-empty column's top card is face-up.
    pub open spec fn tableau_ok_at(self, i: int) -> bool {
        if self.tableau_cards(i).len() == 0 {
            self.tableau_boundary(i) == 0
        } else {
            0 <= self.tableau_boundary(i) < self.tableau_cards(i).len()
        }
    }

    /// The board's structural invariant.
    pub open spec fn wf(self) -> bool {
        &&& self.tableau_count() == 7
        &&& self.foundation_count() == 4
        &&& forall|i: int| 0 <= i < 7 ==> #[trigger] self.tableau_ok_at(i)
    }

    /// The tableau columns' card sequences.
    pub open spec fn tab_seqs(self) -> Seq<Seq<Card>> {
        Seq::new(self.tableau_count() as nat, |i: int| self.tableau_cards(i))
    }

    /// The foundations' card sequences.
    pub open spec fn found_seqs(self) -> Seq<Seq<Card>> {
        Seq::new(self.foundation_count() as nat, |k: int| self.foundation_cards(k))
    }

    /// The multiset of every card on the board, over all piles.
    pub open spec fn all_cards(self) -> Multiset<Card> {
        self.stock_cards().to_multiset().add(self.waste_cards().to_multiset()).add(
            piles_cards(self.tab_seqs()),
        ).add(piles_cards(self.found_seqs()))
    }

    /// Conservation: the board holds exactly the 52-card standard
    /// deck, no duplicates and no omissions.
    pub open spec fn conserved(self) -> bool {
        self.all_cards() == full_deck_seq().to_multiset()
    }

    /// Ordering: every tableau's face-up run descends with alternating
    /// colours, and every foundation ascends from the ace in one suit.
    pub open spec fn ordered(self) -> bool {
        &&& forall|i: int|
            0 <= i < 7 ==> #[trigger] tableau_run(
                self.tableau_cards(i),
                self.tableau_boundary(i),
            )
        &&& forall|k: int| 0 <= k < 4 ==> #[trigger] foundation_run(self.foundation_cards(k))
    }
}

/// The two boards' tableau columns agree, contents and boundaries.
pub open spec fn same_tableaus(b1: Board, b2: Board) -> bool {
    &&& b2.tableau_count() == b1.tableau_count()
    &&& forall|i: int|
        0 <= i < b1.tableau_count() ==> #[trigger] b2.tableau_cards(i) == b1.tableau_cards(i)
            && b2.tableau_boundary(i) == b1.tableau_boundary(i)
}

/// The two boards' foundations agree.
pub open spec fn same_foundations(b1: Board, b2: Board) -> bool {
    &&& b2.foundation_count() == b1.foundation_count()
    &&& forall|k: int|
        0 <= k < b1.foundation_count() ==> #[trigger] b2.foundation_cards(k)
            == b1.foundation_cards(k)
}

/// The two boards agree pile for pile.
pub open spec fn same_board(b1: Board, b2: Board) -> bool {
    &&& b2.stock_cards() == b1.stock_cards()
    &&& b2.waste_cards() == b1.waste_cards()
    &&& same_tableaus(b1, b2)
    &&& same_foundations(b1, b2)
}

/// A pile move's exact effect: the card leaves the top of `from`,
/// lands on top of `to`, no third pile changes, and only the `from`
/// column's reveal boundary moves, by the pop rule.
pub open spec fn move_effect(b1: Board, b2: Board, card: Card, from: PileId, to: PileId) -> bool {
    &&& b2.tableau_count() == b1.tableau_count()
    &&& b2.foundation_count() == b1.foundation_count()
    &&& if from == to {
        b2.pile_seq(from) == b1.pile_seq(from)
    } else {
        b2.pile_seq(from) == b1.pile_seq(from).drop_last() && b2.pile_seq(to) == b1.pile_seq(
            to,
        ).push(card)
    }
    &&& forall|q: PileId|
        q.valid() && q != from && q != to ==> #[trigger] b2.pile_seq(q) == b1.pile_seq(q)
    &&& forall|i: int|
        0 <= i < 7 ==> #[trigger] b2.tableau_boundary(i) == (
            if from == PileId::Tableau(i as usize) {
                boundary_after_pop(b1.tableau_cards(i), b1.tableau_boundary(i))
            } else {
                b1.tableau_boundary(i)
            })
}

/// Dropping `card` on `target` is legal: only a foundation or a
/// tableau accepts cards, each by its own rule on its current top.
pub open spec fn drop_ok(b: Board, card: Card, target: PileId) -> bool {
    match target {
        PileId::Foundation(k) => foundation_ok(card, seq_top(b.pile_seq(target))),
        PileId::Tableau(i) => tableau_ok(card, seq_top(b.pile_seq(target))),
        _ => false,
    }
}

/// Exchanging one pile of a pile sequence rebalances the multiset of
/// all cards by exactly that pile's contents, element count by
/// element count.
proof fn lemma_piles_cards_update(s1: Seq<Seq<Card>>, s2: Seq<Seq<Card>>, i: int)
    requires
        s1.len() == s2.len(),
        0 <= i < s1.len(),
        forall|j: int| #![trigger s1[j], s2[j]] 0 <= j < s1.len() && j != i ==> s1[j] == s2[j],
    ensures
        forall|x: Card|
            #![trigger piles_cards(s2).count(x)]
            piles_cards(s2).count(x) + s1[i].to_multiset().count(x) == piles_cards(s1).count(x)
                + s2[i].to_multiset().count(x),
    decreases s1.len(),
{
    assert(piles_cards(s1) == piles_cards(s1.drop_last()).add(s1.last().to_multiset()));
    assert(piles_cards(s2) == piles_cards(s2.drop_last()).add(s2.last().to_multiset()));
    if i == s1.len() - 1 {
        assert(s1.drop_last() =~= s2.drop_last());
        assert(piles_cards(s1.drop_last()) == piles_cards(s2.drop_last()));
        assert(s1[i] == s1.last());
        assert(s2[i] == s2.last());
        assert forall|x: Card| piles_cards(s2).count(x) + s1[i].to_multiset().count(x)
            == piles_cards(s1).count(x) + s2[i].to_multiset().count(x) by {
            assert(piles_cards(s1).count(x) == piles_cards(s1.drop_last()).count(x)
                + s1.last().to_multiset().count(x));
            assert(piles_cards(s2).count(x) == piles_cards(s2.drop_last()).count(x)
                + s2.last().to_multiset().count(x));
        }
    } else {
        lemma_piles_cards_update(s1.drop_last(), s2.drop_last(), i);
        assert(s1.drop_last()[i] == s1[i] && s2.drop_last()[i] == s2[i]);
        assert(s1[s1.len() - 1] == s2[s1.len() - 1]);
        assert(s1.last() == s2.last());
        assert forall|x: Card| piles_cards(s2).count(x) + s1[i].to_multiset().count(x)
            == piles_cards(s1).count(x) + s2[i].to_multiset().count(x) by {
            assert(piles_cards(s2.drop_last()).count(x) + s1.drop_last()[i].to_multiset().count(x)
                == piles_cards(s1.drop_last()).count(x) + s2.drop_last()[i].to_multiset().count(
                x,
            ));
            assert(piles_cards(s1).count(x) == piles_cards(s1.drop_last()).count(x)
                + s1.last().to_multiset().count(x));
            assert(piles_cards(s2).count(x) == piles_cards(s2.drop_last()).count(x)
                + s2.last().to_multiset().count(x));
        }
    }
}

/// A non-empty sequence's multiset is its front part plus its last
/// element.
proof fn lemma_to_multiset_drop_last(s: Seq<Card>)
    requires
        s.len() > 0,
    ensures
        s.to_multiset() == s.drop_last().to_multiset().insert(s.last()),
{
    assert(s =~= s.drop_last().push(s.last()));
}

/// Whatever happened to the stock and the waste, untouched tableau and
/// foundation vectors carry every column property across.
proof fn lemma_columns_untouched(b1: Board, b2: Board)
    requires
        b2.tableaus@ == b1.tableaus@,
        b2.foundations@ == b1.foundations@,
    ensures
        same_tableaus(b1, b2),
        same_foundations(b1, b2),
        b1.wf() ==> b2.wf(),
        b1.ordered() ==> b2.ordered(),
        piles_cards(b2.tab_seqs()) == piles_cards(b1.tab_seqs()),
        piles_cards(b2.found_seqs()) == piles_cards(b1.found_seqs()),
{
    assert forall|i: int| 0 <= i < b1.tableau_count() implies #[trigger] b2.tableau_cards(i)
        == b1.tableau_cards(i) && b2.tableau_boundary(i) == b1.tableau_boundary(i) by {}
    assert forall|k: int| 0 <= k < b1.foundation_count() implies #[trigger] b2.foundation_cards(k)
        == b1.foundation_cards(k) by {}
    if b1.wf() {
        assert forall|i: int| 0 <= i < 7 implies #[trigger] b2.tableau_ok_at(i) by {
            assert(b1.tableau_ok_at(i));
        }
    }
    if b1.ordered() {
        assert forall|i: int| 0 <= i < 7 implies #[trigger] tableau_run(
            b2.tableau_cards(i),
            b2.tableau_boundary(i),
        ) by {
            assert(tableau_run(b1.tableau_cards(i), b1.tableau_boundary(i)));
        }
        assert forall|k: int| 0 <= k < 4 implies #[trigger] foundation_run(
            b2.foundation_cards(k),
        ) by {
            assert(foundation_run(b1.foundation_cards(k)));
        }
    }
    assert(b2.tab_seqs() =~= b1.tab_seqs());
    assert(b2.found_seqs() =~= b1.found_seqs());
}

/// A change confined to one tableau column leaves the other columns,
/// the foundations, and their multisets related as expected.
proof fn lemma_one_tableau_changed(b1: Board, b2: Board, i: int)
    requires
        0 <= i < 7,
        b1.tableaus@.len() == 7,
        b2.tableaus@.len() == 7,
        b2.foundations@ == b1.foundations@,
        forall|j: int| 0 <= j < 7 && j != i ==> b2.tableaus@[j] == b1.tableaus@[j],
    ensures
        same_foundations(b1, b2),
        piles_cards(b2.found_seqs()) == piles_cards(b1.found_seqs()),
        forall|j: int|
            0 <= j < 7 && j != i ==> #[trigger] b2.tableau_cards(j) == b1.tableau_cards(j)
                && b2.tableau_boundary(j) == b1.tableau_boundary(j),
        forall|x: Card|
            #![trigger piles_cards(b2.tab_seqs()).count(x)]
            piles_cards(b2.tab_seqs()).count(x) + b1.tableau_cards(i).to_multiset().count(x)
                == piles_cards(b1.tab_seqs()).count(x) + b2.tableau_cards(i).to_multiset().count(
                x,
            ),
{
    assert forall|k: int| 0 <= k < b1.foundation_count() implies #[trigger] b2.foundation_cards(k)
        == b1.foundation_cards(k) by {}
    assert(b2.found_seqs() =~= b1.found_seqs());
    assert forall|j: int| 0 <= j < 7 && j != i implies #[trigger] b2.tableau_cards(j)
        == b1.tableau_cards(j) && b2.tableau_boundary(j) == b1.tableau_boundary(j) by {}
    assert forall|j: int|
        #![trigger b1.tab_seqs()[j], b2.tab_seqs()[j]]
        0 <= j < 7 && j != i implies b1.tab_seqs()[j] == b2.tab_seqs()[j] by {}
    lemma_piles_cards_update(b1.tab_seqs(), b2.tab_seqs(), i);
    assert(b1.tab_seqs()[i] == b1.tableau_cards(i));
    assert(b2.tab_seqs()[i] == b2.tableau_cards(i));
}

/// A change confined to one foundation leaves the other foundations,
/// the tableaus, and their multisets related as expected.
proof fn lemma_one_foundation_changed(b1: Board, b2: Board, k: int)
    requires
        0 <= k < 4,
        b1.foundations@.len() == 4,
        b2.foundations@.len() == 4,
        b2.tableaus@ == b1.tableaus@,
        forall|j: int| 0 <= j < 4 && j != k ==> b2.foundations@[j] == b1.foundations@[j],
    ensures
        same_tableaus(b1, b2),
        b1.wf() ==> b2.tableau_count() == 7 && (forall|i: int|
            0 <= i < 7 ==> #[trigger] b2.tableau_ok_at(i)),
        piles_cards(b2.tab_seqs()) == piles_cards(b1.tab_seqs()),
        forall|j: int|
            0 <= j < 4 && j != k ==> #[trigger] b2.foundation_cards(j) == b1.foundation_cards(j),
        forall|x: Card|
            #![trigger piles_cards(b2.found_seqs()).count(x)]
            piles_cards(b2.found_seqs()).count(x) + b1.foundation_cards(k).to_multiset().count(x)
                == piles_cards(b1.found_seqs()).count(x)
                + b2.foundation_cards(k).to_multiset().count(x),
{
    assert forall|i: int| 0 <= i < b1.tableau_count() implies #[trigger] b2.tableau_cards(i)
        == b1.tableau_cards(i) && b2.tableau_boundary(i) == b1.tableau_boundary(i) by {}
    if b1.wf() {
        assert forall|i: int| 0 <= i < 7 implies #[trigger] b2.tableau_ok_at(i) by {
            assert(b1.tableau_ok_at(i));
        }
    }
    assert(b2.tab_seqs() =~= b1.tab_seqs());
    assert forall|j: int| 0 <= j < 4 && j != k implies #[trigger] b2.foundation_cards(j)
        == b1.foundation_cards(j) by {}
    assert forall|j: int|
        #![trigger b1.found_seqs()[j], b2.found_seqs()[j]]
        0 <= j < 4 && j != k implies b1.found_seqs()[j] == b2.found_seqs()[j] by {}
    lemma_piles_cards_update(b1.found_seqs(), b2.found_seqs(), k);
    assert(b1.found_seqs()[k] == b1.foundation_cards(k));
    assert(b2.found_seqs()[k] == b2.foundation_cards(k));
}

impl Board {
    /// The top card of the pile `p` names, without removing it.
    pub fn top(&self, p: PileId) -> (r: Option<Card>)
        requires
            self.wf(),
            p.valid(),
        ensures
            r == seq_top(self.pile_seq(p)),
    {
        match p {
            PileId::Stock => {
                let n = self.stock.len();
                if n == 0 {
                    None
                } else {
                    Some(self.stock.get(n - 1))
                }
            }
            PileId::Waste => self.waste.top(),
            PileId::Tableau(i) => self.tableaus[i].top(),
            PileId::Foundation(k) => self.foundations[k].top(),
        }
    }

    /// The card at position `idx` of the pile `p` names, counting
    /// from the bottom.
    pub fn pile_card(&self, p: PileId, idx: usize) -> (c: Card)
        requires
            self.wf(),
            p.valid(),
            idx < self.pile_seq(p).len(),
        ensures
            c == self.pile_seq(p)[idx as int],
    {
        match p {
            PileId::Stock => self.stock.get(idx),
            PileId::Waste => self.waste.get(idx),
            PileId::Tableau(i) => self.tableaus[i].get(idx),
            PileId::Foundation(k) => self.foundations[k].get(idx),
        }
    }

    /// The reveal boundary of tableau column `i` as an index.
    pub fn tableau_reveal(&self, i: usize) -> (b: usize)
        requires
            self.wf(),
            i < 7,
        ensures
            b == self.tableau_boundary(i as int),
    {
        self.tableaus[i].boundary_index()
    }

    /// How many cards the pile `p` names holds.
    pub fn pile_len(&self, p: PileId) -> (n: usize)
        requires
            self.wf(),
            p.valid(),
        ensures
            n == self.pile_seq(p).len(),
    {
        match p {
            PileId::Stock => self.stock.len(),
            PileId::Waste => self.waste.len(),
            PileId::Tableau(i) => self.tableaus[i].len(),
            PileId::Foundation(k) => self.foundations[k].len(),
        }
    }

    /// Removes the top card of pile `p`. On a tableau the reveal
    /// boundary follows the pop rule; no other pile changes.
    fn pop_pile(&mut self, p: PileId) -> (r: Option<Card>)
        requires
            old(self).wf(),
            p.valid(),
        ensures
            final(self).wf(),
            old(self).pile_seq(p).len() == 0 ==> r is None && same_board(*old(self), *final(self)),
            old(self).pile_seq(p).len() > 0 ==> {
                &&& r == Option::Some(old(self).pile_seq(p).last())
                &&& final(self).pile_seq(p) == old(self).pile_seq(p).drop_last()
                &&& forall|q: PileId|
                    q.valid() && q != p ==> #[trigger] final(self).pile_seq(q) == old(
                        self,
                    ).pile_seq(q)
                &&& forall|i: int|
                    0 <= i < 7 ==> #[trigger] final(self).tableau_boundary(i) == (
                        if p == PileId::Tableau(i as usize) {
                            boundary_after_pop(
                                old(self).tableau_cards(i),
                                old(self).tableau_boundary(i),
                            )
                        } else {
                            old(self).tableau_boundary(i)
                        })
                &&& old(self).all_cards() == final(self).all_cards().insert(
                    old(self).pile_seq(p).last(),
                )
            },
    {
        let ghost pre = *self;
        match p {
            PileId::Stock => {
                let r = self.stock.draw();
                proof {
                    lemma_columns_untouched(pre, *self);
                    if pre.stock_cards().len() > 0 {
                        lemma_to_multiset_drop_last(pre.stock_cards());
                        assert(pre.all_cards() =~= self.all_cards().insert(
                            pre.stock_cards().last(),
                        ));
                    }
                }
                r
            }
            PileId::Waste => {
                let r = self.waste.pop();
                proof {
                    lemma_columns_untouched(pre, *self);
                    if pre.waste_cards().len() > 0 {
                        lemma_to_multiset_drop_last(pre.waste_cards());
                        assert(pre.all_cards() =~= self.all_cards().insert(
                            pre.waste_cards().last(),
                        ));
                    }
                }
                r
            }
            PileId::Tableau(i) => {
                proof {
                    assert(pre.tableau_ok_at(i as int));
                }
                let mut col = self.tableaus.remove(i);
                let r = col.pop_top();
                self.tableaus.insert(i, col);
                proof {
                    assert forall|j: int| 0 <= j < 7 && j != i implies self.tableaus@[j]
                        == pre.tableaus@[j] by {
                        if j < i {
                            assert(pre.tableaus@.remove(i as int)[j] == pre.tableaus@[j]);
                        } else {
                            assert(pre.tableaus@.remove(i as int)[j - 1] == pre.tableaus@[j]);
                        }
                    }
                    assert(self.tableaus@[i as int] == col);
                    lemma_one_tableau_changed(pre, *self, i as int);
                    assert forall|j: int| 0 <= j < 7 implies #[trigger] self.tableau_ok_at(j) by {
                        if j != i {
                            assert(pre.tableau_ok_at(j));
                        }
                    }
                    if pre.tableau_cards(i as int).len() > 0 {
                        let c = pre.tableau_cards(i as int).last();
                        lemma_to_multiset_drop_last(pre.tableau_cards(i as int));
                        assert(pre.all_cards() =~= self.all_cards().insert(c));
                        assert forall|q: PileId| q.valid() && q != p implies #[trigger] self
                            .pile_seq(q) == pre.pile_seq(q) by {}
                    } else {
                        assert(same_board(pre, *self));
                    }
                }
                r
            }
            PileId::Foundation(k) => {
                let mut f = self.foundations.remove(k);
                let r = f.pop();
                self.foundations.insert(k, f);
                proof {
                    assert forall|j: int| 0 <= j < 4 && j != k implies self.foundations@[j]
                        == pre.foundations@[j] by {
                        if j < k {
                            assert(pre.foundations@.remove(k as int)[j] == pre.foundations@[j]);
                        } else {
                            assert(pre.foundations@.remove(k as int)[j - 1] == pre.foundations@[j]);
                        }
                    }
                    assert(self.foundations@[k as int] == f);
                    lemma_one_foundation_changed(pre, *self, k as int);
                    if pre.foundation_cards(k as int).len() > 0 {
                        let c = pre.foundation_cards(k as int).last();
                        lemma_to_multiset_drop_last(pre.foundation_cards(k as int));
                        assert(pre.all_cards() =~= self.all_cards().insert(c));
                        assert forall|q: PileId| q.valid() && q != p implies #[trigger] self
                            .pile_seq(q) == pre.pile_seq(q) by {}
                    } else {
                        assert(same_board(pre, *self));
                    }
                }
                r
            }
        }
    }

    /// Places a card on top of pile `p`; no other pile changes and no
    /// reveal boundary moves.
    fn push_pile(&mut self, p: PileId, card: Card)
        requires
            old(self).wf(),
            p.valid(),
        ensures
            final(self).wf(),
            final(self).pile_seq(p) == old(self).pile_seq(p).push(card),
            forall|q: PileId|
                q.valid() && q != p ==> #[trigger] final(self).pile_seq(q) == old(self).pile_seq(q),
            forall|i: int|
                0 <= i < 7 ==> #[trigger] final(self).tableau_boundary(i) == old(
                    self,
                ).tableau_boundary(i),
            final(self).all_cards() == old(self).all_cards().insert(card),
    {
        let ghost pre = *self;
        match p {
            PileId::Stock => {
                self.stock.insert(card);
                proof {
                    lemma_columns_untouched(pre, *self);
                    assert(self.all_cards() =~= pre.all_cards().insert(card));
                }
            }
            PileId::Waste => {
                self.waste.insert(card);
                proof {
                    lemma_columns_untouched(pre, *self);
                    assert(self.all_cards() =~= pre.all_cards().insert(card));
                }
            }
            PileId::Tableau(i) => {
                proof {
                    assert(pre.tableau_ok_at(i as int));
                }
                let mut col = self.tableaus.remove(i);
                col.push(card);
                self.tableaus.insert(i, col);
                proof {
                    assert forall|j: int| 0 <= j < 7 && j != i implies self.tableaus@[j]
                        == pre.tableaus@[j] by {
                        if j < i {
                            assert(pre.tableaus@.remove(i as int)[j] == pre.tableaus@[j]);
                        } else {
                            assert(pre.tableaus@.remove(i as int)[j - 1] == pre.tableaus@[j]);
                        }
                    }
                    assert(self.tableaus@[i as int] == col);
                    lemma_one_tableau_changed(pre, *self, i as int);
                    assert forall|j: int| 0 <= j < 7 implies #[trigger] self.tableau_ok_at(j) by {
                        if j != i {
                            assert(pre.tableau_ok_at(j));
                        }
                    }
                    assert(self.all_cards() =~= pre.all_cards().insert(card));
                    assert forall|q: PileId| q.valid() && q != p implies #[trigger] self.pile_seq(q)
                        == pre.pile_seq(q) by {}
                }
            }
            PileId::Foundation(k) => {
                let mut f = self.foundations.remove(k);
                f.push(card);
                self.foundations.insert(k, f);
                proof {
                    assert forall|j: int| 0 <= j < 4 && j != k implies self.foundations@[j]
                        == pre.foundations@[j] by {
                        if j < k {
                            assert(pre.foundations@.remove(k as int)[j] == pre.foundations@[j]);
                        } else {
                            assert(pre.foundations@.remove(k as int)[j - 1] == pre.foundations@[j]);
                        }
                    }
                    assert(self.foundations@[k as int] == f);
                    lemma_one_foundation_changed(pre, *self, k as int);
                    assert(self.all_cards() =~= pre.all_cards().insert(card));
                    assert forall|q: PileId| q.valid() && q != p implies #[trigger] self.pile_seq(q)
                        == pre.pile_seq(q) by {}
                }
            }
        }
    }

    /// Draws one card: the stock's top moves onto the waste, face up.
    /// Fails with `EmptySource`, changing nothing, exactly when the
    /// stock is empty.
    pub fn draw_stock(&mut self) -> (r: Result<Card, SolitaireError>)
        requires
            old(self).wf(),
        ensures
            final(self).wf(),
            final(self).all_cards() == old(self).all_cards(),
            old(self).conserved() ==> final(self).conserved(),
            old(self).ordered() ==> final(self).ordered(),
            old(self).stock_cards().len() == 0 ==> r == Result::<Card, SolitaireError>::Err(
                SolitaireError::EmptySource,
            ) && same_board(*old(self), *final(self)),
            old(self).stock_cards().len() > 0 ==> {
                &&& r == Result::<Card, SolitaireError>::Ok(old(self).stock_cards().last())
                &&& final(self).stock_cards() == old(self).stock_cards().drop_last()
                &&& final(self).waste_cards() == old(self).waste_cards().push(
                    old(self).stock_cards().last(),
                )
                &&& same_tableaus(*old(self), *final(self))
                &&& same_foundations(*old(self), *final(self))
            },
    {
        let ghost pre = *self;
        match self.stock.draw() {
            Some(card) => {
                self.waste.insert(card);
                proof {
                    lemma_columns_untouched(pre, *self);
                    lemma_to_multiset_drop_last(pre.stock_cards());
                    assert(self.all_cards() =~= pre.all_cards());
                }
                Ok(card)
            }
            None => {
                proof {
                    lemma_columns_untouched(pre, *self);
                }
                Err(SolitaireError::EmptySource)
            }
        }
    }

    /// When the stock is empty, moves the whole waste back into the
    /// stock, reversed, so that repeated draw-all-then-recycle keeps
    /// the draw order; the waste is left empty. When the stock still
    /// holds cards, changes nothing.
    pub fn recycle(&mut self)
        requires
            old(self).wf(),
        ensures
            final(self).wf(),
            final(self).all_cards() == old(self).all_cards(),
            old(self).conserved() ==> final(self).conserved(),
            old(self).ordered() ==> final(self).ordered(),
            same_tableaus(*old(self), *final(self)),
            same_foundations(*old(self), *final(self)),
            old(self).stock_cards().len() == 0 ==> {
                &&& final(self).stock_cards() == old(self).waste_cards().reverse()
                &&& final(self).waste_cards().len() == 0
            },
            old(self).stock_cards().len() > 0 ==> same_board(*old(self), *final(self)),
    {
        let ghost pre = *self;
        if self.stock.len() != 0 {
            proof {
                lemma_columns_untouched(pre, *self);
            }
            return ;
        }
        let total = self.waste.len();
        let mut moved: usize = 0;
        while moved < total
            invariant
                self.wf(),
                moved <= total,
                total == pre.waste_cards().len(),
                self.waste_cards() == pre.waste_cards().take(total - moved),
                self.stock_cards() =~= pre.waste_cards().skip(total - moved).reverse(),
                self.tableaus@ == pre.tableaus@,
                self.foundations@ == pre.foundations@,
            decreases total - moved,
        {
            let ghost step = *self;
            let card = match self.waste.pop() {
                Some(card) => card,
                None => {
                    proof {
                        assert(false);
                    }
                    return ;
                }
            };
            self.stock.insert(card);
            proof {
                let w = pre.waste_cards();
                let k = (total - moved) as int;
                assert(w.take(k).last() == w[k - 1]);
                assert(w.take(k).drop_last() =~= w.take(k - 1));
                assert forall|m: int|
                    #![trigger w.skip(k - 1).reverse()[m]]
                    0 <= m < w.len() - (k - 1) implies w.skip(k - 1).reverse()[m] == (w.skip(
                    k,
                ).reverse().push(w[k - 1]))[m] by {
                    assert(w.skip(k - 1).reverse()[m] == w.skip(k - 1)[w.len() - (k - 1) - 1 - m]);
                    if m < w.len() - k {
                        assert(w.skip(k).reverse()[m] == w.skip(k)[w.len() - k - 1 - m]);
                    }
                }
                assert(w.skip(k - 1).reverse() =~= w.skip(k).reverse().push(w[k - 1]));
                lemma_columns_untouched(step, *self);
                assert forall|i: int| 0 <= i < 7 implies #[trigger] self.tableau_ok_at(i) by {
                    assert(step.tableau_ok_at(i));
                }
            }
            moved = moved + 1;
        }
        proof {
            let w = pre.waste_cards();
            assert(self.waste_cards() =~= Seq::<Card>::empty());
            assert(w.skip(0) =~= w);
            lemma_columns_untouched(pre, *self);
            w.lemma_reverse_to_multiset();
            assert(self.all_cards() =~= pre.all_cards());
        }
    }

    /// Moves `card` from the top of `from` onto the top of `to`,
    /// advancing the source column's reveal boundary when needed.
    /// Fails with `InvariantViolation`, changing nothing, exactly when
    /// `card` is not the top of `from` — a caller defect, not a game
    /// outcome. A legal placement (by the rule engine) keeps the
    /// board's ordering invariants.
    pub fn move_card(&mut self, card: Card, from: PileId, to: PileId) -> (r: Result<
        (),
        SolitaireError,
    >)
        requires
            old(self).wf(),
            from.valid(),
            to.valid(),
        ensures
            final(self).wf(),
            final(self).all_cards() == old(self).all_cards(),
            old(self).conserved() ==> final(self).conserved(),
            r is Ok <==> seq_top(old(self).pile_seq(from)) == Option::Some(card),
            r is Err ==> r == Result::<(), SolitaireError>::Err(SolitaireError::InvariantViolation)
                && same_board(*old(self), *final(self)),
            r is Ok ==> move_effect(*old(self), *final(self), card, from, to),
            (r is Ok && old(self).ordered() && (to matches PileId::Foundation(k) ==> foundation_ok(
                card,
                seq_top(old(self).pile_seq(to)),
            )) && (to matches PileId::Tableau(i) ==> tableau_ok(
                card,
                seq_top(old(self).pile_seq(to)),
            ))) ==> final(self).ordered(),
    {
        let matches_top = match self.top(from) {
            Some(c) => c == card,
            None => false,
        };
        if !matches_top {
            proof {
                lemma_columns_untouched(*self, *self);
            }
            return Err(SolitaireError::InvariantViolation);
        }
        let ghost pre = *self;
        let popped = self.pop_pile(from);
        if let Some(c) = popped {
            let ghost mid = *self;
            self.push_pile(to, c);
            proof {
                assert(self.all_cards() =~= pre.all_cards());
                if from == to {
                    assert(self.pile_seq(from) =~= pre.pile_seq(from));
                }
                assert forall|q: PileId| q.valid() && q != from && q != to implies #[trigger] self
                    .pile_seq(q) == pre.pile_seq(q) by {
                    assert(mid.pile_seq(q) == pre.pile_seq(q));
                }
                if pre.ordered() && (to matches PileId::Foundation(k) ==> foundation_ok(
                    card,
                    seq_top(pre.pile_seq(to)),
                )) && (to matches PileId::Tableau(i) ==> tableau_ok(
                    card,
                    seq_top(pre.pile_seq(to)),
                )) {
                    self.lemma_move_ordered(pre, mid, card, from, to);
                }
            }
            Ok(())
        } else {
            proof {
                assert(false);
            }
            Err(SolitaireError::InvariantViolation)
        }
    }

    /// A legal placement preserves the ordering invariants, column by
    /// column and foundation by foundation.
    proof fn lemma_move_ordered(self, pre: Board, mid: Board, card: Card, from: PileId, to: PileId)
        requires
            pre.wf(),
            mid.wf(),
            self.wf(),
            from.valid(),
            to.valid(),
            pre.ordered(),
            seq_top(pre.pile_seq(from)) == Option::Some(card),
            to matches PileId::Foundation(k) ==> foundation_ok(card, seq_top(pre.pile_seq(to))),
            to matches PileId::Tableau(i) ==> tableau_ok(card, seq_top(pre.pile_seq(to))),
            // how `mid` came from `pre`: the pop of `from`
            mid.pile_seq(from) == pre.pile_seq(from).drop_last(),
            forall|q: PileId|
                q.valid() && q != from ==> #[trigger] mid.pile_seq(q) == pre.pile_seq(q),
            forall|i: int|
                0 <= i < 7 ==> #[trigger] mid.tableau_boundary(i) == (
                    if from == PileId::Tableau(i as usize) {
                        boundary_after_pop(pre.tableau_cards(i), pre.tableau_boundary(i))
                    } else {
                        pre.tableau_boundary(i)
                    }),
            // how `self` came from `mid`: the push onto `to`
            self.pile_seq(to) == mid.pile_seq(to).push(card),
            forall|q: PileId|
                q.valid() && q != to ==> #[trigger] self.pile_seq(q) == mid.pile_seq(q),
            forall|i: int|
                0 <= i < 7 ==> #[trigger] self.tableau_boundary(i) == mid.tableau_boundary(i),
        ensures
            self.ordered(),
    {
        if from == to {
            match to {
                PileId::Foundation(_) => {
                    lemma_no_self_placement(card);
                    assert(seq_top(pre.pile_seq(to)) == Option::Some(card));
                    assert(false);
                }
                PileId::Tableau(_) => {
                    lemma_no_self_placement(card);
                    assert(seq_top(pre.pile_seq(to)) == Option::Some(card));
                    assert(false);
                }
                _ => {}
            }
        }
        assert forall|i: int| 0 <= i < 7 implies #[trigger] tableau_run(
            self.tableau_cards(i),
            self.tableau_boundary(i),
        ) by {
            let pid = PileId::Tableau(i as usize);
            assert(pre.tableau_ok_at(i));
            assert(tableau_run(pre.tableau_cards(i), pre.tableau_boundary(i)));
            if from == pid {
                let s = pre.tableau_cards(i);
                let b = pre.tableau_boundary(i);
                let nb = boundary_after_pop(s, b);
                lemma_tableau_pop(s, b, nb);
                assert(mid.pile_seq(pid) == s.drop_last());
                assert(self.pile_seq(pid) == mid.pile_seq(pid));
                assert(tableau_run(self.tableau_cards(i), self.tableau_boundary(i)));
            } else if to == pid {
                let s = pre.tableau_cards(i);
                let b = pre.tableau_boundary(i);
                assert(mid.pile_seq(pid) == pre.pile_seq(pid));
                lemma_tableau_push(s, b, card);
                assert(self.pile_seq(pid) == s.push(card));
            } else {
                assert(mid.pile_seq(pid) == pre.pile_seq(pid));
                assert(self.pile_seq(pid) == mid.pile_seq(pid));
            }
        }
        assert forall|k: int| 0 <= k < 4 implies #[trigger] foundation_run(
            self.foundation_cards(k),
        ) by {
            let pid = PileId::Foundation(k as usize);
            assert(foundation_run(pre.foundation_cards(k)));
            if from == pid {
                lemma_foundation_pop(pre.foundation_cards(k));
                assert(mid.pile_seq(pid) == pre.pile_seq(pid).drop_last());
                assert(self.pile_seq(pid) == mid.pile_seq(pid));
            } else if to == pid {
                assert(mid.pile_seq(pid) == pre.pile_seq(pid));
                lemma_foundation_push(pre.foundation_cards(k), card);
                assert(self.pile_seq(pid) == pre.pile_seq(pid).push(card));
            } else {
                assert(mid.pile_seq(pid) == pre.pile_seq(pid));
                assert(self.pile_seq(pid) == mid.pile_seq(pid));
            }
        }
    }

    /// Checks whether dropping `card` on the pile `target` names is
    /// legal. The stock and the waste never accept a drop; foundations
    /// and tableaus accept by the rule engine on their current top.
    /// Fails with `IllegalMove` exactly on the illegal combinations.
    pub fn validate_drop(&self, card: Card, target: PileId) -> (r: Result<(), SolitaireError>)
        requires
            self.wf(),
            target.valid(),
        ensures
            r is Ok <==> drop_ok(*self, card, target),
            r is Err ==> r == Result::<(), SolitaireError>::Err(SolitaireError::IllegalMove),
    {
        match target {
            PileId::Foundation(_) => {
                if can_place_on_foundation(card, self.top(target)) {
                    Ok(())
                } else {
                    Err(SolitaireError::IllegalMove)
                }
            }
            PileId::Tableau(_) => {
                if can_place_on_tableau(card, self.top(target)) {
                    Ok(())
                } else {
                    Err(SolitaireError::IllegalMove)
                }
            }
            _ => Err(SolitaireError::IllegalMove),
        }
    }
}

/// The j-th triangular number: how many cards the columns before
/// column `j` take while dealing.
pub open spec fn tri(j: int) -> int
    decreases j,
{
    if j <= 0 {
        0
    } else {
        tri(j - 1) + j
    }
}

/// Triangular numbers grow with their index.
proof fn lemma_tri_monotone(a: int, b: int)
    requires
        0 <= a <= b,
    ensures
        tri(a) <= tri(b),
    decreases b,
{
    if a < b {
        lemma_tri_monotone(a, b - 1);
    }
}

/// The cards column `j` receives while dealing: drawn one at a time
/// from the top of the deck, after the earlier columns took theirs.
pub open spec fn dealt_column(s: Seq<Card>, j: int) -> Seq<Card> {
    Seq::new((j + 1) as nat, |k: int| s[51 - tri(j) - k])
}

/// The card sequences of a vector of tableau columns.
spec fn cols_of(ts: Seq<TableauComponent>) -> Seq<Seq<Card>> {
    Seq::new(ts.len(), |m: int| ts[m]@)
}

/// A sequence of empty piles holds no card.
proof fn lemma_empty_piles(ss: Seq<Seq<Card>>)
    requires
        forall|m: int| 0 <= m < ss.len() ==> (#[trigger] ss[m]).len() == 0,
    ensures
        forall|x: Card| #![trigger piles_cards(ss).count(x)] piles_cards(ss).count(x) == 0,
    decreases ss.len(),
{
    if ss.len() > 0 {
        lemma_empty_piles(ss.drop_last());
        assert(ss.last().len() == 0);
        assert(ss.last().to_multiset().len() == 0);
        assert forall|x: Card| #[trigger] piles_cards(ss).count(x) == 0 by {
            assert(piles_cards(ss).count(x) == piles_cards(ss.drop_last()).count(x)
                + ss.last().to_multiset().count(x));
            assert(ss.last().to_multiset().count(x) <= ss.last().to_multiset().len());
        }
    }
}

/// One full drain of a stock into a waste, drawing one card at a
/// time, exactly as `Board::draw_stock` moves cards: the pair the two
/// piles reach when the stock runs out.
pub open spec fn drain(stock: Seq<Card>, waste: Seq<Card>) -> (Seq<Card>, Seq<Card>)
    decreases stock.len(),
{
    if stock.len() == 0 {
        (stock, waste)
    } else {
        drain(stock.drop_last(), waste.push(stock.last()))
    }
}

/// Draining empties the stock and stacks the drawn cards on the waste
/// in draw order, which is the stock reversed.
proof fn lemma_drain(stock: Seq<Card>, waste: Seq<Card>)
    ensures
        drain(stock, waste).0.len() == 0,
        drain(stock, waste).1 == waste + stock.reverse(),
    decreases stock.len(),
{
    if stock.len() == 0 {
        assert(waste + stock.reverse() =~= waste);
    } else {
        lemma_drain(stock.drop_last(), waste.push(stock.last()));
        assert forall|m: int|
            #![trigger (waste + stock.reverse())[m]]
            0 <= m < waste.len() + stock.len() implies (waste.push(stock.last())
            + stock.drop_last().reverse())[m] == (waste + stock.reverse())[m] by {
            if m >= waste.len() {
                assert(stock.reverse()[m - waste.len()] == stock[stock.len() - 1 - (m
                    - waste.len())]);
                if m > waste.len() {
                    assert(stock.drop_last().reverse()[m - waste.len() - 1] == stock.drop_last()[
                        stock.len() - 1 - (m - waste.len())]);
                }
            }
        }
        assert(waste.push(stock.last()) + stock.drop_last().reverse() =~= waste + stock.reverse());
    }
}

/// Recycle round-trip: a full drain of the stock into an empty waste
/// leaves the waste holding the stock reversed; recycling — which, as
/// `Board::recycle` ensures, reverses the waste back into the stock —
/// restores the original stock, so a second full drain repeats the
/// first one's draw order exactly.
pub proof fn lemma_recycle_round_trip(stock: Seq<Card>)
    ensures
        drain(stock, Seq::<Card>::empty()).0.len() == 0,
        drain(stock, Seq::<Card>::empty()).1.reverse() == stock,
        drain(drain(stock, Seq::<Card>::empty()).1.reverse(), Seq::<Card>::empty()) == drain(
            stock,
            Seq::<Card>::empty(),
        ),
{
    lemma_drain(stock, Seq::<Card>::empty());
    assert(drain(stock, Seq::<Card>::empty()).1 =~= stock.reverse());
    assert(stock.reverse().reverse() =~= stock);
}

impl Board {
    /// Deals a new game from a full deck: seven tableau columns take
    /// one to seven cards, drawn one at a time from the top of the
    /// deck, with only each column's last card face-up; the remaining
    /// 24 cards stay in the stock; the waste and the foundations start
    /// empty. Every dealt card is conserved, and a full deck yields a
    /// conserved board.
    pub fn deal(deck: Deck) -> (b: Board)
        requires
            deck@.len() == 52,
        ensures
            b.wf(),
            b.ordered(),
            b.stock_cards() == deck@.take(24),
            b.waste_cards() == Seq::<Card>::empty(),
            forall|j: int|
                0 <= j < 7 ==> #[trigger] b.tableau_cards(j) == dealt_column(deck@, j)
                    && b.tableau_boundary(j) == j,
            forall|k: int| 0 <= k < 4 ==> #[trigger] b.foundation_cards(k) == Seq::<Card>::empty(),
            b.all_cards() == deck@.to_multiset(),
            deck@ == full_deck_seq() ==> b.conserved(),
    {
        let ghost s = deck@;
        proof {
            lemma_tri_monotone(0, 6);
            assert(tri(6) == 21 && tri(7) == 28) by {
                reveal_with_fuel(tri, 9);
            }
        }
        let mut stock = deck;
        let mut tableaus: Vec<TableauComponent> = Vec::new();
        let mut j: usize = 0;
        while j < 7
            invariant
                s.len() == 52,
                j <= 7,
                tableaus@.len() == j,
                0 <= tri(j as int) <= 28,
                stock@ == s.take(52 - tri(j as int)),
                forall|m: int|
                    0 <= m < j ==> #[trigger] tableaus@[m]@ == dealt_column(s, m)
                        && tableaus@[m].boundary() == m && tableaus@[m].wf(),
                forall|x: Card|
                    #![trigger s.to_multiset().count(x)]
                    stock@.to_multiset().count(x) + piles_cards(cols_of(tableaus@)).count(x)
                        == s.to_multiset().count(x),
            decreases 7 - j,
        {
            proof {
                assert(tri(6) == 21 && tri(7) == 28) by {
                    reveal_with_fuel(tri, 9);
                }
                lemma_tri_monotone(j as int, 6);
                assert(tri(j as int + 1) == tri(j as int) + j + 1);
            }
            let ghost tabs0 = tableaus@;
            let mut col: Vec<Card> = Vec::new();
            let mut k: usize = 0;
            while k < j + 1
                invariant
                    s.len() == 52,
                    j < 7,
                    k <= j + 1,
                    0 <= tri(j as int) <= 21,
                    tableaus@ == tabs0,
                    stock@ == s.take(52 - tri(j as int) - k),
                    col@ == Seq::new(k as nat, |m: int| s[51 - tri(j as int) - m]),
                    forall|x: Card|
                        #![trigger s.to_multiset().count(x)]
                        stock@.to_multiset().count(x) + piles_cards(cols_of(tableaus@)).count(x)
                            + col@.to_multiset().count(x) == s.to_multiset().count(x),
                decreases j + 1 - k,
            {
                let ghost st0 = stock@;
                let ghost col0 = col@;
                let card = match stock.draw() {
                    Some(card) => card,
                    None => {
                        proof {
                            assert(st0.len() == 52 - tri(j as int) - k > 0);
                            assert(false);
                        }
                        return Board {
                            stock,
                            waste: Waste::default(),
                            tableaus,
                            foundations: Vec::new(),
                        };
                    }
                };
                col.push(card);
                proof {
                    assert(st0.last() == s[51 - tri(j as int) - k]);
                    assert(st0.drop_last() =~= s.take(52 - tri(j as int) - (k + 1)));
                    lemma_to_multiset_drop_last(st0);
                    assert(col@ =~= Seq::new((k + 1) as nat, |m: int| s[51 - tri(j as int) - m]));
                }
                k = k + 1;
            }
            let column = TableauComponent::deal(col);
            tableaus.push(column);
            proof {
                assert forall|m: int|
                    #![trigger cols_of(tableaus@)[m]]
                    0 <= m < tableaus@.len() implies cols_of(tableaus@)[m] == cols_of(tabs0).push(
                    column@,
                )[m] by {
                    if m < tabs0.len() {
                        assert(tableaus@[m] == tabs0[m]);
                    }
                }
                assert(cols_of(tableaus@) =~= cols_of(tabs0).push(column@));
                assert(cols_of(tableaus@).drop_last() =~= cols_of(tabs0));
                assert(cols_of(tableaus@).last() == column@);
                assert(piles_cards(cols_of(tableaus@)) == piles_cards(cols_of(tabs0)).add(
                    column@.to_multiset(),
                ));
                assert(column@ == dealt_column(s, j as int));
                assert forall|x: Card| #[trigger]
                    stock@.to_multiset().count(x) + piles_cards(cols_of(tableaus@)).count(x)
                        == s.to_multiset().count(x) by {
                    assert(stock@.to_multiset().count(x) + piles_cards(cols_of(tabs0)).count(x)
                        + column@.to_multiset().count(x) == s.to_multiset().count(x));
                }
            }
            j = j + 1;
        }
        let waste = Waste::default();
        let mut foundations: Vec<Foundation> = Vec::new();
        let mut k: usize = 0;
        while k < 4
            invariant
                k <= 4,
                foundations@.len() == k,
                forall|m: int| 0 <= m < k ==> (#[trigger] foundations@[m]@).len() == 0,
            decreases 4 - k,
        {
            foundations.push(Foundation::default());
            k = k + 1;
        }
        let b = Board { stock, waste, tableaus, foundations };
        proof {
            assert(b.tableau_count() == 7 && b.foundation_count() == 4);
            assert forall|i: int| 0 <= i < 7 implies #[trigger] b.tableau_ok_at(i) by {
                assert(b.tableaus@[i].wf());
                assert(dealt_column(s, i).len() == i + 1);
            }
            assert forall|i: int| 0 <= i < 7 implies #[trigger] tableau_run(
                b.tableau_cards(i),
                b.tableau_boundary(i),
            ) by {
                assert(b.tableau_boundary(i) == b.tableau_cards(i).len() - 1);
            }
            assert forall|k2: int| 0 <= k2 < 4 implies #[trigger] foundation_run(
                b.foundation_cards(k2),
            ) by {
                assert(b.foundation_cards(k2).len() == 0);
            }
            assert(b.tab_seqs() =~= cols_of(b.tableaus@));
            assert forall|m: int| 0 <= m < b.found_seqs().len() implies (#[trigger] b.found_seqs()[m]).len() == 0 by {}
            lemma_empty_piles(b.found_seqs());
            assert(b.waste_cards().to_multiset().len() == 0);
            assert(b.all_cards() =~= s.to_multiset());
        }
        b
    }
}

} // verus!
