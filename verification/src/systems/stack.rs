use vstd::prelude::*;
use crate::board::{drop_ok, move_effect, same_board, Board, PileId};
use crate::card::Card;
use crate::components::{CardState, StackComponent};
use crate::errors::SolitaireError;
use crate::hittest::{
    get_max, get_under_cursor, lemma_max_cand_props, lemma_under_cursor_subset, max_cand,
    under_cursor, Candidate, Target,
};
use crate::math::WorldPoint;
use crate::rules::seq_top;
use crate::systems::flip::{top_card_state, top_state};

verus! {

/// What one tick of the drag gesture asks of the render layer.
#[derive(Debug, PartialEq, Eq, Structural, Copy, Clone)]
pub enum TickEvent {
    /// Nothing to do.
    Idle,
    /// A card was picked up: raise the top card of `target`, which
    /// sat at `pos`.
    Lifted { target: PileId, pos: WorldPoint },
    /// The held card follows the pointer by this delta.
    Dragged { dx: i64, dy: i64 },
    /// A legal drop: the board moved `card` from `from` to `to`.
    Committed { card: Card, from: PileId, to: PileId },
    /// The drop was rejected or hit nothing: put the held card back
    /// at `pos`.
    Reverted { pos: WorldPoint },
}

/// The transient state of one press-drag-release cycle: where the
/// held card came from, which card it is, the pointer position at
/// pickup, and the card's on-screen position for a revert.
#[derive(Debug, PartialEq, Eq, Structural, Copy, Clone)]
pub struct GestureState {
    pub origin: PileId,
    pub card: Card,
    pub pickup: WorldPoint,
    pub stack: StackComponent,
}

/// The drag gesture: picks up a face-up top card on press, follows
/// the pointer while the button stays down, and on release either
/// commits a legal move to the board or reverts the card.
pub struct StackSystem {
    pub point: Option<WorldPoint>,
    pub active: Option<GestureState>,
}

impl Default for StackSystem {
    /// Idle: no pointer held, nothing picked up.
    fn default() -> (s: Self)
        ensures
            s.point is None && s.active is None,
    {
        StackSystem { point: None, active: None }
    }
}

/// The candidates the render layer hands in are sound: every target
/// names a pile the board has, and a card target's pile holds a
/// card.
pub open spec fn cands_wf(cs: Seq<Candidate>, b: Board) -> bool {
    forall|n: int|
        0 <= n < cs.len() ==> (#[trigger] cs[n]).target.spec_pile().valid() && (cs[n].target
            matches Target::Card(p) ==> b.pile_seq(p).len() > 0)
}

/// A candidate the gesture may pick up: a card sprite whose card is
/// face-up. Pile zones and face-down cards stay where they are.
pub open spec fn pickable(c: Candidate, b: Board) -> bool {
    match c.target {
        Target::Card(p) => !(top_state(b, p) is TableauCovered),
        Target::Pile(_) => false,
    }
}

/// The candidates a gesture may pick up, in their original order.
pub open spec fn pickable_of(cs: Seq<Candidate>, b: Board) -> Seq<Candidate>
    decreases cs.len(),
{
    if cs.len() == 0 {
        Seq::empty()
    } else {
        let rest = pickable_of(cs.drop_last(), b);
        if pickable(cs.last(), b) {
            rest.push(cs.last())
        } else {
            rest
        }
    }
}

/// The candidates other than the card sprite of the named pile, in
/// their original order.
pub open spec fn excluding(cs: Seq<Candidate>, origin: PileId) -> Seq<Candidate>
    decreases cs.len(),
{
    if cs.len() == 0 {
        Seq::empty()
    } else {
        let rest = excluding(cs.drop_last(), origin);
        if cs.last().target != Target::Card(origin) {
            rest.push(cs.last())
        } else {
            rest
        }
    }
}

/// What survives the pickable filter came from the list and is
/// pickable.
proof fn lemma_pickable_of_props(cs: Seq<Candidate>, b: Board)
    ensures
        forall|x: Candidate| #[trigger]
            pickable_of(cs, b).contains(x) ==> cs.contains(x) && pickable(x, b),
    decreases cs.len(),
{
    if cs.len() > 0 {
        lemma_pickable_of_props(cs.drop_last(), b);
        assert forall|x: Candidate| #[trigger] pickable_of(cs, b).contains(x) implies cs.contains(
            x,
        ) && pickable(x, b) by {
            let f = pickable_of(cs, b);
            let fd = pickable_of(cs.drop_last(), b);
            let w = choose|w: int| 0 <= w < f.len() && f[w] == x;
            if pickable(cs.last(), b) && w == f.len() - 1 {
                assert(x == cs.last());
                assert(cs[cs.len() - 1] == x);
            } else {
                assert(fd[w] == x);
                assert(fd.contains(x));
                let m = choose|m: int| 0 <= m < cs.drop_last().len() && cs.drop_last()[m] == x;
                assert(cs[m] == x);
            }
        }
    }
}

/// What survives the exclusion filter came from the list.
proof fn lemma_excluding_subset(cs: Seq<Candidate>, origin: PileId)
    ensures
        forall|x: Candidate| #[trigger] excluding(cs, origin).contains(x) ==> cs.contains(x),
    decreases cs.len(),
{
    if cs.len() > 0 {
        lemma_excluding_subset(cs.drop_last(), origin);
        assert forall|x: Candidate| #[trigger] excluding(cs, origin).contains(x) implies cs
            .contains(x) by {
            let f = excluding(cs, origin);
            let fd = excluding(cs.drop_last(), origin);
            let w = choose|w: int| 0 <= w < f.len() && f[w] == x;
            if cs.last().target != Target::Card(origin) && w == f.len() - 1 {
                assert(x == cs.last());
                assert(cs[cs.len() - 1] == x);
            } else {
                assert(fd[w] == x);
                assert(fd.contains(x));
                let m = choose|m: int| 0 <= m < cs.drop_last().len() && cs.drop_last()[m] == x;
                assert(cs[m] == x);
            }
        }
    }
}

/// What a press with nothing yet held does: the deepest face-up card
/// under the cursor — if any — is picked up, and the gesture records
/// its pile, its card and its on-screen position.
pub open spec fn pickup_step(
    b: Board,
    cur: WorldPoint,
    cs: Seq<Candidate>,
    active: Option<GestureState>,
    r: Result<TickEvent, SolitaireError>,
) -> bool {
    match max_cand(pickable_of(under_cursor(cs, cur), b)) {
        Option::None => active is None && r == Result::<TickEvent, SolitaireError>::Ok(
            TickEvent::Idle,
        ),
        Option::Some(c) => {
            let p = c.target.spec_pile();
            &&& active == Option::Some(
                GestureState {
                    origin: p,
                    card: b.pile_seq(p).last(),
                    pickup: cur,
                    stack: StackComponent { original: c.pos },
                },
            )
            &&& r == Result::<TickEvent, SolitaireError>::Ok(
                TickEvent::Lifted { target: p, pos: c.pos },
            )
        }
    }
}

/// What a release with a held card does: the deepest candidate under
/// the cursor other than the held card itself names the drop pile; a
/// legal drop commits the move, anything else reverts the card. The
/// held card missing from its origin is a caller defect.
pub open spec fn drop_step(
    g: GestureState,
    b1: Board,
    b2: Board,
    cur: WorldPoint,
    cs: Seq<Candidate>,
    r: Result<TickEvent, SolitaireError>,
) -> bool {
    match max_cand(excluding(under_cursor(cs, cur), g.origin)) {
        Option::None => same_board(b1, b2) && r == Result::<TickEvent, SolitaireError>::Ok(
            TickEvent::Reverted { pos: g.stack.original },
        ),
        Option::Some(c) => {
            let p = c.target.spec_pile();
            if drop_ok(b1, g.card, p) {
                if seq_top(b1.pile_seq(g.origin)) == Option::Some(g.card) {
                    &&& move_effect(b1, b2, g.card, g.origin, p)
                    &&& r == Result::<TickEvent, SolitaireError>::Ok(
                        TickEvent::Committed { card: g.card, from: g.origin, to: p },
                    )
                } else {
                    &&& same_board(b1, b2)
                    &&& r == Result::<TickEvent, SolitaireError>::Err(
                        SolitaireError::InvariantViolation,
                    )
                }
            } else {
                same_board(b1, b2) && r == Result::<TickEvent, SolitaireError>::Ok(
                    TickEvent::Reverted { pos: g.stack.original },
                )
            }
        }
    }
}

/// One tick of the drag gesture, exactly: no pointer sample freezes
/// the gesture; while the button stays down the held card follows
/// the pointer; the press edge picks up, the release edge drops.
pub open spec fn stack_step(
    s1: StackSystem,
    s2: StackSystem,
    b1: Board,
    b2: Board,
    pointer: Option<WorldPoint>,
    button_down: bool,
    cs: Seq<Candidate>,
    r: Result<TickEvent, SolitaireError>,
) -> bool {
    match pointer {
        Option::None => s2.point == s1.point && s2.active == s1.active && same_board(b1, b2) && r
            == Result::<TickEvent, SolitaireError>::Ok(TickEvent::Idle),
        Option::Some(cur) => match s1.point {
            Option::Some(prev) => if button_down {
                &&& s2.point == Option::Some(cur)
                &&& s2.active == s1.active
                &&& same_board(b1, b2)
                &&& r == Result::<TickEvent, SolitaireError>::Ok(
                    if s1.active is Some {
                        TickEvent::Dragged {
                            dx: (cur.x - prev.x) as i64,
                            dy: (cur.y - prev.y) as i64,
                        }
                    } else {
                        TickEvent::Idle
                    },
                )
            } else {
                &&& s2.point is None
                &&& s2.active is None
                &&& match s1.active {
                    Option::None => same_board(b1, b2) && r == Result::<
                        TickEvent,
                        SolitaireError,
                    >::Ok(TickEvent::Idle),
                    Option::Some(g) => drop_step(g, b1, b2, cur, cs, r),
                }
            },
            Option::None => {
                &&& if button_down {
                    &&& s2.point == Option::Some(cur)
                    &&& pickup_step(b1, cur, cs, s2.active, r)
                } else {
                    &&& s2.point == s1.point
                    &&& s2.active == s1.active
                    &&& r == Result::<TickEvent, SolitaireError>::Ok(TickEvent::Idle)
                }
                &&& same_board(b1, b2)
            },
        },
    }
}

impl StackSystem {
    /// A held card always has a held pointer, and came from a real
    /// pile.
    pub open spec fn wf(self) -> bool {
        self.active matches Option::Some(g) ==> self.point is Some && g.origin.valid()
    }

    /// One tick of the gesture. The board's cards are conserved and
    /// its ordering invariants carry over; the board changes only
    /// when a legal drop commits, and then exactly by the move's
    /// effect. An `InvariantViolation` — the held card missing from
    /// its origin — leaves the board untouched and is a caller
    /// defect, never a play outcome.
    pub fn run(
        &mut self,
        board: &mut Board,
        pointer: Option<WorldPoint>,
        button_down: bool,
        candidates: &Vec<Candidate>,
    ) -> (r: Result<TickEvent, SolitaireError>)
        requires
            old(self).wf(),
            old(board).wf(),
            cands_wf(candidates@, *old(board)),
        ensures
            final(self).wf(),
            final(board).wf(),
            final(board).all_cards() == old(board).all_cards(),
            old(board).conserved() ==> final(board).conserved(),
            old(board).ordered() ==> final(board).ordered(),
            stack_step(
                *old(self),
                *final(self),
                *old(board),
                *final(board),
                pointer,
                button_down,
                candidates@,
                r,
            ),
    {
        let ghost b1 = *board;
        let cur = match pointer {
            Some(cur) => cur,
            None => {
                return Ok(TickEvent::Idle);
            }
        };
        match self.point {
            Some(prev) => {
                if button_down {
                    self.point = Some(cur);
                    match self.active {
                        Some(_) => Ok(
                            TickEvent::Dragged {
                                dx: cur.x as i64 - prev.x as i64,
                                dy: cur.y as i64 - prev.y as i64,
                            },
                        ),
                        None => Ok(TickEvent::Idle),
                    }
                } else {
                    self.point = None;
                    let held = self.active;
                    self.active = None;
                    let g = match held {
                        Some(g) => g,
                        None => {
                            return Ok(TickEvent::Idle);
                        }
                    };
                    let under = get_under_cursor(cur, candidates);
                    let others = exclude_card(under, g.origin);
                    let hit = get_max(others);
                    let c = match hit {
                        Some(c) => c,
                        None => {
                            return Ok(TickEvent::Reverted { pos: g.stack.original });
                        }
                    };
                    proof {
                        lemma_max_cand_props(excluding(under_cursor(candidates@, cur), g.origin));
                        lemma_excluding_subset(under_cursor(candidates@, cur), g.origin);
                        lemma_under_cursor_subset(candidates@, cur);
                        assert(candidates@.contains(c));
                        let n = choose|n: int|
                            0 <= n < candidates@.len() && candidates@[n] == c;
                        assert(candidates@[n].target.spec_pile().valid());
                    }
                    let p = c.target.pile();
                    match board.validate_drop(g.card, p) {
                        Ok(()) => match board.move_card(g.card, g.origin, p) {
                            Ok(()) => Ok(
                                TickEvent::Committed { card: g.card, from: g.origin, to: p },
                            ),
                            Err(e) => Err(e),
                        },
                        Err(_) => Ok(TickEvent::Reverted { pos: g.stack.original }),
                    }
                }
            }
            None => {
                if button_down {
                    self.point = Some(cur);
                    let under = get_under_cursor(cur, candidates);
                    proof {
                        lemma_under_cursor_subset(candidates@, cur);
                        assert forall|n: int| 0 <= n < under@.len() implies (#[trigger] under@[n])
                            .target.spec_pile().valid() by {
                            assert(under@.contains(under@[n]));
                            let m = choose|m: int|
                                0 <= m < candidates@.len() && candidates@[m] == under@[n];
                            assert(candidates@[m].target.spec_pile().valid());
                        }
                    }
                    let pickables = filter_by_card_state(under, board);
                    let sel = get_max(pickables);
                    let c = match sel {
                        Some(c) => c,
                        None => {
                            return Ok(TickEvent::Idle);
                        }
                    };
                    proof {
                        lemma_max_cand_props(pickable_of(under_cursor(candidates@, cur), b1));
                        lemma_pickable_of_props(under_cursor(candidates@, cur), b1);
                        lemma_under_cursor_subset(candidates@, cur);
                        assert(candidates@.contains(c));
                        let n = choose|n: int|
                            0 <= n < candidates@.len() && candidates@[n] == c;
                        assert(candidates@[n].target.spec_pile().valid());
                        assert(pickable(c, b1));
                    }
                    let p = c.target.pile();
                    let card = match board.top(p) {
                        Some(card) => card,
                        None => {
                            proof {
                                assert(false);
                            }
                            return Ok(TickEvent::Idle);
                        }
                    };
                    self.active = Some(
                        GestureState {
                            origin: p,
                            card,
                            pickup: cur,
                            stack: StackComponent::new(c.pos),
                        },
                    );
                    Ok(TickEvent::Lifted { target: p, pos: c.pos })
                } else {
                    Ok(TickEvent::Idle)
                }
            }
        }
    }
}

/// Keeps the candidates other than the named pile's card sprite: the
/// dragged card must not catch its own drop.
fn exclude_card(cands: Vec<Candidate>, origin: PileId) -> (r: Vec<Candidate>)
    ensures
        r@ == excluding(cands@, origin),
{
    let mut r: Vec<Candidate> = Vec::new();
    let mut i: usize = 0;
    while i < cands.len()
        invariant
            i <= cands.len(),
            r@ == excluding(cands@.take(i as int), origin),
        decreases cands.len() - i,
    {
        let c = cands[i];
        proof {
            assert(cands@.take(i + 1).drop_last() =~= cands@.take(i as int));
            assert(cands@.take(i + 1).last() == c);
        }
        if !(c.target == Target::Card(origin)) {
            r.push(c);
        }
        i = i + 1;
    }
    proof {
        assert(cands@.take(cands@.len() as int) =~= cands@);
    }
    r
}

/// Keeps the candidates a gesture may pick up: card sprites whose
/// card shows its face. Pile zones and covered cards drop out.
pub fn filter_by_card_state(entities: Vec<Candidate>, board: &Board) -> (r: Vec<Candidate>)
    requires
        board.wf(),
        forall|n: int|
            0 <= n < entities@.len() ==> (#[trigger] entities@[n]).target.spec_pile().valid(),
    ensures
        r@ == pickable_of(entities@, *board),
{
    let mut r: Vec<Candidate> = Vec::new();
    let mut i: usize = 0;
    while i < entities.len()
        invariant
            board.wf(),
            forall|n: int|
                0 <= n < entities@.len() ==> (#[trigger] entities@[n]).target.spec_pile().valid(),
            i <= entities.len(),
            r@ == pickable_of(entities@.take(i as int), *board),
        decreases entities.len() - i,
    {
        let c = entities[i];
        proof {
            assert(entities@.take(i + 1).drop_last() =~= entities@.take(i as int));
            assert(entities@.take(i + 1).last() == c);
        }
        let keep = match c.target {
            Target::Card(p) => match top_card_state(board, p) {
                CardState::TableauCovered => false,
                _ => true,
            },
            Target::Pile(_) => false,
        };
        if keep {
            r.push(c);
        }
        i = i + 1;
    }
    proof {
        assert(entities@.take(entities@.len() as int) =~= entities@);
    }
    r
}

} // verus!
