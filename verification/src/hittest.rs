use vstd::prelude::*;
use crate::board::PileId;
use crate::math::{rect_contains, Rectangle2, WorldPoint};

verus! {

/// What an on-screen pick candidate stands for: the top card of a
/// pile, or a pile's own sprite serving as a drop zone.
#[derive(Debug, PartialEq, Eq, Structural, Copy, Clone)]
pub enum Target {
    Card(PileId),
    Pile(PileId),
}

impl Target {
    /// The pile the target resolves to.
    pub open spec fn spec_pile(self) -> PileId {
        match self {
            Target::Card(p) => p,
            Target::Pile(p) => p,
        }
    }

    /// The pile the target resolves to.
    pub fn pile(&self) -> (p: PileId)
        ensures
            p == self.spec_pile(),
    {
        match self {
            Target::Card(p) => *p,
            Target::Pile(p) => *p,
        }
    }
}

/// One pick candidate: what it stands for, its world-space bounding
/// rectangle, its sprite's world position, and its draw depth —
/// greater depth is closer to the viewer.
#[derive(Debug, PartialEq, Eq, Structural, Copy, Clone)]
pub struct Candidate {
    pub target: Target,
    pub rect: Rectangle2,
    pub pos: WorldPoint,
    pub depth: i32,
}

/// Whether the candidate's rectangle contains the world point.
pub open spec fn hits(c: Candidate, p: WorldPoint) -> bool {
    rect_contains(c.rect, p.x as int, p.y as int)
}

/// The candidates whose rectangle contains the point, in their
/// original order.
pub open spec fn under_cursor(cs: Seq<Candidate>, cur: WorldPoint) -> Seq<Candidate>
    decreases cs.len(),
{
    if cs.len() == 0 {
        Seq::empty()
    } else {
        let rest = under_cursor(cs.drop_last(), cur);
        if hits(cs.last(), cur) {
            rest.push(cs.last())
        } else {
            rest
        }
    }
}

/// The pick winner of a candidate sequence: the candidate with the
/// greatest depth; among equal depths, the one latest in the
/// sequence.
pub open spec fn max_cand(s: Seq<Candidate>) -> Option<Candidate>
    decreases s.len(),
{
    if s.len() == 0 {
        Option::None
    } else {
        match max_cand(s.drop_last()) {
            Option::None => Option::Some(s.last()),
            Option::Some(c) => if s.last().depth >= c.depth {
                Option::Some(s.last())
            } else {
                Option::Some(c)
            },
        }
    }
}

/// Keeps the candidates whose rectangle contains the cursor, in
/// order.
pub fn get_under_cursor(cursor: WorldPoint, candidates: &Vec<Candidate>) -> (r: Vec<Candidate>)
    ensures
        r@ == under_cursor(candidates@, cursor),
{
    let mut r: Vec<Candidate> = Vec::new();
    let mut i: usize = 0;
    while i < candidates.len()
        invariant
            i <= candidates.len(),
            r@ == under_cursor(candidates@.take(i as int), cursor),
        decreases candidates.len() - i,
    {
        let c = candidates[i];
        proof {
            assert(candidates@.take(i + 1).drop_last() =~= candidates@.take(i as int));
            assert(candidates@.take(i + 1).last() == c);
        }
        if c.rect.contains(cursor.x, cursor.y) {
            r.push(c);
        }
        i = i + 1;
    }
    proof {
        assert(candidates@.take(candidates@.len() as int) =~= candidates@);
    }
    r
}

/// The deepest candidate of the list, or `None` when it is empty;
/// equal depths resolve to the latest entry.
pub fn get_max(cards: Vec<Candidate>) -> (r: Option<Candidate>)
    ensures
        r == max_cand(cards@),
{
    let mut best: Option<Candidate> = None;
    let mut i: usize = 0;
    while i < cards.len()
        invariant
            i <= cards.len(),
            best == max_cand(cards@.take(i as int)),
        decreases cards.len() - i,
    {
        let c = cards[i];
        proof {
            assert(cards@.take(i + 1).drop_last() =~= cards@.take(i as int));
            assert(cards@.take(i + 1).last() == c);
        }
        best = match best {
            None => Some(c),
            Some(b) => if c.depth >= b.depth {
                Some(c)
            } else {
                Some(b)
            },
        };
        i = i + 1;
    }
    proof {
        assert(cards@.take(cards@.len() as int) =~= cards@);
    }
    best
}

/// Resolves which candidate lies under the world point: among those
/// whose rectangle contains it, the deepest one wins; ties go to the
/// latest in the list, so the answer is the same for the same input,
/// run after run.
pub fn pick(cursor: WorldPoint, candidates: &Vec<Candidate>) -> (r: Option<Candidate>)
    ensures
        r == max_cand(under_cursor(candidates@, cursor)),
{
    get_max(get_under_cursor(cursor, candidates))
}

/// The pick winner comes from the list, and no listed candidate is
/// deeper.
pub proof fn lemma_max_cand_props(s: Seq<Candidate>)
    ensures
        max_cand(s) is Some <==> s.len() > 0,
        max_cand(s) matches Some(c) ==> s.contains(c) && forall|i: int|
            0 <= i < s.len() ==> (#[trigger] s[i]).depth <= c.depth,
    decreases s.len(),
{
    if s.len() > 0 {
        lemma_max_cand_props(s.drop_last());
        match max_cand(s) {
            Option::None => {}
            Option::Some(c) => {
                if s.len() == 1 {
                    assert(c == s.last());
                    assert(s[0] == s.last());
                } else {
                    match max_cand(s.drop_last()) {
                        Option::None => {}
                        Option::Some(c0) => {
                            if c == s.last() {
                                assert(s.contains(c)) by {
                                    assert(s[s.len() - 1] == c);
                                }
                            } else {
                                assert(c == c0);
                                let w = choose|w: int|
                                    0 <= w < s.drop_last().len() && s.drop_last()[w] == c;
                                assert(s[w] == c);
                            }
                            assert forall|i: int| 0 <= i < s.len() implies (#[trigger] s[i]).depth
                                <= c.depth by {
                                if i < s.len() - 1 {
                                    assert(s.drop_last()[i] == s[i]);
                                }
                            }
                        }
                    }
                }
            }
        }
    }
}

/// Whatever lies under the cursor is one of the candidates.
pub proof fn lemma_under_cursor_subset(cs: Seq<Candidate>, cur: WorldPoint)
    ensures
        forall|x: Candidate| #[trigger] under_cursor(cs, cur).contains(x) ==> cs.contains(x),
    decreases cs.len(),
{
    if cs.len() > 0 {
        lemma_under_cursor_subset(cs.drop_last(), cur);
        assert forall|x: Candidate| #[trigger] under_cursor(cs, cur).contains(x) implies cs
            .contains(x) by {
            let f = under_cursor(cs, cur);
            let fd = under_cursor(cs.drop_last(), cur);
            let w = choose|w: int| 0 <= w < f.len() && f[w] == x;
            if hits(cs.last(), cur) && w == f.len() - 1 {
                assert(x == cs.last());
                assert(cs[cs.len() - 1] == x);
            } else {
                assert(fd[w] == x);
                assert(fd.contains(x));
                let m = choose|m: int|
                    0 <= m < cs.drop_last().len() && cs.drop_last()[m] == x;
                assert(cs[m] == x);
            }
        }
    }
}

/// A candidate that contains the cursor is found under it.
pub proof fn lemma_under_cursor_contains(cs: Seq<Candidate>, cur: WorldPoint, i: int)
    requires
        0 <= i < cs.len(),
        hits(cs[i], cur),
    ensures
        under_cursor(cs, cur).contains(cs[i]),
    decreases cs.len(),
{
    let f = under_cursor(cs, cur);
    let fd = under_cursor(cs.drop_last(), cur);
    if i == cs.len() - 1 {
        assert(cs.last() == cs[i]);
        assert(f[f.len() - 1] == cs[i]);
    } else {
        assert(cs.drop_last()[i] == cs[i]);
        lemma_under_cursor_contains(cs.drop_last(), cur, i);
        let w = choose|w: int| 0 <= w < fd.len() && fd[w] == cs[i];
        assert(f[w] == cs[i]);
    }
}

/// Hit-test determinism: when two candidates both contain the point
/// and one is deeper, the pick never resolves to the shallower one,
/// whatever the order of the candidate list.
pub proof fn lemma_pick_prefers_depth(cursor: WorldPoint, s: Seq<Candidate>, i: int, j: int)
    requires
        0 <= i < s.len(),
        0 <= j < s.len(),
        hits(s[i], cursor),
        hits(s[j], cursor),
        s[i].depth > s[j].depth,
    ensures
        max_cand(under_cursor(s, cursor)) matches Some(w) && w.depth > s[j].depth,
{
    let f = under_cursor(s, cursor);
    lemma_under_cursor_contains(s, cursor, i);
    lemma_max_cand_props(f);
    let w = choose|w: int| 0 <= w < f.len() && f[w] == s[i];
    match max_cand(f) {
        Option::None => {
            assert(false);
        }
        Option::Some(c) => {
            assert(f[w].depth <= c.depth);
        }
    }
}

} // verus!
