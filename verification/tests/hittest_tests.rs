use solitaire::board::PileId;
use solitaire::hittest::{get_max, get_under_cursor, pick, Candidate, Target};
use solitaire::math::{Rectangle2, WorldPoint};

fn candidate(target: Target, rect: Rectangle2, depth: i32) -> Candidate {
    Candidate {
        target,
        rect,
        pos: WorldPoint::new(rect.left, rect.top),
        depth,
    }
}

#[test]
fn test_pick_prefers_greater_depth() {
    let rect = Rectangle2::new(0, 0, 100, 100);
    let shallow = candidate(Target::Card(PileId::Waste), rect, 1);
    let deep = candidate(Target::Card(PileId::Tableau(0)), rect, 2);
    let point = WorldPoint::new(50, 50);
    // the deeper candidate wins in either order
    let first = pick(point, &vec![shallow, deep]);
    let second = pick(point, &vec![deep, shallow]);
    assert_eq!(Some(deep), first);
    assert_eq!(Some(deep), second);
}

#[test]
fn test_pick_ignores_misses() {
    let near = candidate(
        Target::Card(PileId::Waste),
        Rectangle2::new(0, 0, 10, 10),
        1,
    );
    let far = candidate(
        Target::Card(PileId::Tableau(0)),
        Rectangle2::new(500, 500, 600, 600),
        9,
    );
    let point = WorldPoint::new(5, 5);
    assert_eq!(Some(near), pick(point, &vec![near, far]));
    assert_eq!(None, pick(WorldPoint::new(200, 200), &vec![near, far]));
}

#[test]
fn test_pick_resolves_ties_to_the_latest() {
    let rect = Rectangle2::new(0, 0, 100, 100);
    let a = candidate(Target::Card(PileId::Waste), rect, 3);
    let b = candidate(Target::Card(PileId::Tableau(2)), rect, 3);
    let point = WorldPoint::new(1, 1);
    assert_eq!(Some(b), pick(point, &vec![a, b]));
    assert_eq!(Some(a), pick(point, &vec![b, a]));
}

#[test]
fn test_get_under_cursor_keeps_order() {
    let a = candidate(
        Target::Pile(PileId::Stock),
        Rectangle2::new(0, 0, 20, 20),
        0,
    );
    let b = candidate(
        Target::Card(PileId::Waste),
        Rectangle2::new(10, 10, 30, 30),
        1,
    );
    let c = candidate(
        Target::Card(PileId::Tableau(0)),
        Rectangle2::new(100, 100, 130, 130),
        2,
    );
    let hits = get_under_cursor(WorldPoint::new(15, 15), &vec![a, b, c]);
    assert_eq!(vec![a, b], hits);
}

#[test]
fn test_get_max_of_empty_is_none() {
    assert_eq!(None, get_max(Vec::new()));
}

#[test]
fn test_rectangle_contains_borders() {
    let rect = Rectangle2::new(-16, -16, 16, 16);
    assert!(rect.contains(0, 0));
    assert!(rect.contains(-16, 16));
    assert!(!rect.contains(17, 0));
    assert!(!rect.contains(0, -17));
}
