use connect_four::matches::{Match, Matches};
use connect_four::position::Position;
use connect_four::position_set::PositionSet;

fn straight(cells: &[(u32, u32)]) -> Match {
    let positions: Vec<Position> = cells.iter().map(|c| Position::new(c.0, c.1)).collect();
    Match::Straight(PositionSet::from_positions(&positions))
}

fn sorted(set: &PositionSet) -> Vec<(u32, u32)> {
    let mut cells: Vec<(u32, u32)> = set.to_vec().iter().map(|p| (p.x, p.y)).collect();
    cells.sort();
    cells
}

#[test]
fn default_matches_are_empty() {
    let matches = Matches::default();
    assert!(matches.is_empty());
    assert_eq!(matches.len(), 0);
    assert!(matches.get(0).is_none());
    assert!(matches.without_duplicates().is_empty());
}

#[test]
fn add_puts_a_match_at_the_end() {
    let mut matches = Matches::default();
    matches.add(straight(&[(0, 0), (1, 0), (2, 0), (3, 0)]));
    assert!(!matches.is_empty());
    assert_eq!(matches.len(), 1);
    matches.add(straight(&[(5, 0), (5, 1), (5, 2), (5, 3)]));
    assert_eq!(matches.len(), 2);
    assert_eq!(sorted(matches.get(0).unwrap().positions()), vec![(0, 0), (1, 0), (2, 0), (3, 0)]);
    assert_eq!(sorted(matches.get(1).unwrap().positions()), vec![(5, 0), (5, 1), (5, 2), (5, 3)]);
    assert!(matches.get(2).is_none());
}

#[test]
fn append_keeps_the_order_and_empties_the_other() {
    let mut first = Matches::default();
    first.add(straight(&[(0, 0), (1, 0), (2, 0), (3, 0)]));
    let mut second = Matches::default();
    second.add(straight(&[(0, 1), (1, 1), (2, 1), (3, 1)]));
    second.add(straight(&[(0, 2), (1, 2), (2, 2), (3, 2)]));
    first.append(&mut second);
    assert_eq!(first.len(), 3);
    assert!(second.is_empty());
    assert_eq!(sorted(first.get(0).unwrap().positions()), vec![(0, 0), (1, 0), (2, 0), (3, 0)]);
    assert_eq!(sorted(first.get(1).unwrap().positions()), vec![(0, 1), (1, 1), (2, 1), (3, 1)]);
    assert_eq!(sorted(first.get(2).unwrap().positions()), vec![(0, 2), (1, 2), (2, 2), (3, 2)]);
}

#[test]
fn append_of_nothing_changes_nothing() {
    let mut first = Matches::default();
    first.add(straight(&[(0, 0), (1, 0), (2, 0), (3, 0)]));
    let mut second = Matches::default();
    first.append(&mut second);
    assert_eq!(first.len(), 1);
    second.append(&mut first);
    assert_eq!(second.len(), 1);
    assert!(first.is_empty());
}

#[test]
fn without_duplicates_counts_a_shared_cell_once() {
    let mut matches = Matches::default();
    matches.add(straight(&[(0, 0), (1, 0), (2, 0), (3, 0)]));
    matches.add(straight(&[(3, 0), (3, 1), (3, 2), (3, 3)]));
    let cells = matches.without_duplicates();
    assert_eq!(cells.len(), 7);
    assert_eq!(
        sorted(&cells),
        vec![(0, 0), (1, 0), (2, 0), (3, 0), (3, 1), (3, 2), (3, 3)]
    );
    assert_eq!(matches.len(), 2);
}

#[test]
fn without_duplicates_of_disjoint_matches_holds_all_cells() {
    let mut matches = Matches::default();
    matches.add(straight(&[(0, 0), (1, 0), (2, 0), (3, 0)]));
    matches.add(straight(&[(0, 1), (1, 1), (2, 1), (3, 1), (4, 1)]));
    assert_eq!(matches.without_duplicates().len(), 9);
}

#[test]
fn without_duplicates_of_equal_matches_holds_each_cell_once() {
    let mut matches = Matches::default();
    matches.add(straight(&[(0, 0), (1, 0), (2, 0), (3, 0)]));
    matches.add(straight(&[(3, 0), (2, 0), (1, 0), (0, 0)]));
    assert_eq!(sorted(&matches.without_duplicates()), vec![(0, 0), (1, 0), (2, 0), (3, 0)]);
}

#[test]
fn clone_of_a_match_holds_the_same_cells() {
    let source = straight(&[(2, 2), (2, 3), (2, 4), (2, 5)]);
    let copy = source.clone();
    assert_eq!(sorted(copy.positions()), vec![(2, 2), (2, 3), (2, 4), (2, 5)]);
    assert_eq!(sorted(source.positions()), vec![(2, 2), (2, 3), (2, 4), (2, 5)]);
}

#[test]
fn clone_of_matches_is_independent() {
    let mut source = Matches::default();
    source.add(straight(&[(0, 0), (1, 0), (2, 0), (3, 0)]));
    let copy = source.clone();
    source.add(straight(&[(0, 1), (1, 1), (2, 1), (3, 1)]));
    assert_eq!(copy.len(), 1);
    assert_eq!(sorted(copy.get(0).unwrap().positions()), vec![(0, 0), (1, 0), (2, 0), (3, 0)]);
    assert_eq!(source.len(), 2);
}
