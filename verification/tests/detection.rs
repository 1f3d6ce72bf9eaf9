use connect_four::detect::{MatchDirection, MATCH_THRESHOLD};
use connect_four::grid::Grid;
use connect_four::matches::{Match, Matches};
use connect_four::position::Position;

fn cells_of(mat: &Match) -> Vec<(u32, u32)> {
    let mut cells: Vec<(u32, u32)> = mat.positions().to_vec().iter().map(|p| (p.x, p.y)).collect();
    cells.sort();
    cells
}

fn all_cells(matches: &Matches) -> Vec<Vec<(u32, u32)>> {
    let mut found = Vec::new();
    for i in 0..matches.len() {
        found.push(cells_of(matches.get(i).unwrap()));
    }
    found
}

fn bottom_row(types: &[u32]) -> Grid {
    let mut grid = Grid::new(types.len() as u32, 6);
    for (x, typ) in types.iter().enumerate() {
        assert_eq!(grid.add_at_column(x as u32, *typ), Ok(()));
    }
    grid
}

#[test]
fn threshold_is_four() {
    assert_eq!(MATCH_THRESHOLD, 4);
}

#[test]
fn cell_of_a_sweep_has_the_fixed_index_on_the_other_axis() {
    assert_eq!(MatchDirection::Horizontal.cell(2, 5), Position::new(5, 2));
    assert_eq!(MatchDirection::Vertical.cell(2, 5), Position::new(2, 5));
}

#[test]
fn empty_grid_has_no_match() {
    let grid = Grid::new(7, 6);
    assert!(grid.get_matches().is_empty());
    assert!(grid.straight_matches(MatchDirection::Horizontal).is_empty());
    assert!(grid.straight_matches(MatchDirection::Vertical).is_empty());
}

#[test]
fn grid_without_cells_has_no_match() {
    assert!(Grid::new(0, 0).get_matches().is_empty());
    assert!(Grid::new(5, 0).get_matches().is_empty());
    assert!(Grid::new(0, 5).get_matches().is_empty());
}

#[test]
fn row_of_three_is_no_match() {
    let mut grid = Grid::new(7, 6);
    for x in 2..5 {
        assert_eq!(grid.add_at_column(x, 1), Ok(()));
    }
    assert!(grid.get_matches().is_empty());
    assert_eq!(grid.get_matches().len(), 0);
}

#[test]
fn row_of_four_is_one_match_of_four() {
    let mut grid = Grid::new(7, 6);
    for x in 2..6 {
        assert_eq!(grid.add_at_column(x, 1), Ok(()));
    }
    let matches = grid.get_matches();
    assert_eq!(all_cells(&matches), vec![vec![(2, 0), (3, 0), (4, 0), (5, 0)]]);
    assert_eq!(matches.get(0).unwrap().positions().len(), 4);
}

#[test]
fn row_of_five_is_one_match_of_five() {
    let mut grid = Grid::new(7, 6);
    for x in 1..6 {
        assert_eq!(grid.add_at_column(x, 0), Ok(()));
    }
    let matches = grid.get_matches();
    assert_eq!(matches.len(), 1);
    assert_eq!(all_cells(&matches), vec![vec![(1, 0), (2, 0), (3, 0), (4, 0), (5, 0)]]);
    assert_eq!(matches.get(0).unwrap().positions().len(), 5);
}

#[test]
fn full_row_of_one_type_is_one_match() {
    let grid = bottom_row(&[1, 1, 1, 1, 1, 1, 1]);
    let matches = grid.get_matches();
    assert_eq!(
        all_cells(&matches),
        vec![vec![(0, 0), (1, 0), (2, 0), (3, 0), (4, 0), (5, 0), (6, 0)]]
    );
}

#[test]
fn four_in_one_column_is_one_vertical_match() {
    let mut grid = Grid::new(7, 6);
    for _ in 0..4 {
        assert_eq!(grid.add_at_column(0, 0), Ok(()));
    }
    let matches = grid.get_matches();
    assert_eq!(all_cells(&matches), vec![vec![(0, 0), (0, 1), (0, 2), (0, 3)]]);
    assert!(grid.straight_matches(MatchDirection::Horizontal).is_empty());
    let vertical = grid.straight_matches(MatchDirection::Vertical);
    assert_eq!(all_cells(&vertical), vec![vec![(0, 0), (0, 1), (0, 2), (0, 3)]]);
}

#[test]
fn three_in_one_column_is_no_match() {
    let mut grid = Grid::new(7, 6);
    for _ in 0..3 {
        assert_eq!(grid.add_at_column(6, 1), Ok(()));
    }
    assert!(grid.get_matches().is_empty());
}

#[test]
fn full_column_of_one_type_is_one_match() {
    let mut grid = Grid::new(7, 6);
    for _ in 0..6 {
        assert_eq!(grid.add_at_column(3, 1), Ok(()));
    }
    let matches = grid.get_matches();
    assert_eq!(
        all_cells(&matches),
        vec![vec![(3, 0), (3, 1), (3, 2), (3, 3), (3, 4), (3, 5)]]
    );
}

#[test]
fn mixed_row_without_a_run_of_four_is_no_match() {
    let grid = bottom_row(&[0, 0, 0, 1, 0, 0, 0]);
    assert!(grid.get_matches().is_empty());
}

#[test]
fn alternating_column_is_no_match() {
    let mut grid = Grid::new(7, 6);
    for y in 0..6 {
        assert_eq!(grid.add_at_column(2, y % 2), Ok(()));
    }
    assert!(grid.get_matches().is_empty());
}

#[test]
fn run_of_four_followed_by_run_of_three() {
    let grid = bottom_row(&[0, 0, 0, 0, 1, 1, 1]);
    let matches = grid.get_matches();
    assert_eq!(matches.len(), 1);
    assert_eq!(all_cells(&matches), vec![vec![(0, 0), (1, 0), (2, 0), (3, 0)]]);
}

#[test]
fn run_of_three_followed_by_run_of_four() {
    let grid = bottom_row(&[1, 1, 1, 0, 0, 0, 0]);
    let matches = grid.get_matches();
    assert_eq!(all_cells(&matches), vec![vec![(3, 0), (4, 0), (5, 0), (6, 0)]]);
}

#[test]
fn two_runs_in_one_row_come_in_sweep_order() {
    let grid = bottom_row(&[1, 1, 1, 1, 0, 0, 0, 0, 0]);
    let matches = grid.get_matches();
    assert_eq!(
        all_cells(&matches),
        vec![
            vec![(0, 0), (1, 0), (2, 0), (3, 0)],
            vec![(4, 0), (5, 0), (6, 0), (7, 0), (8, 0)],
        ]
    );
}

#[test]
fn run_in_the_middle_is_closed_by_another_type() {
    let grid = bottom_row(&[1, 0, 0, 0, 0, 1, 1]);
    let matches = grid.get_matches();
    assert_eq!(all_cells(&matches), vec![vec![(1, 0), (2, 0), (3, 0), (4, 0)]]);
}

#[test]
fn empty_cell_does_not_end_a_horizontal_run() {
    let mut grid = Grid::new(7, 6);
    grid.insert(Position::new(0, 1), 0);
    grid.insert(Position::new(1, 1), 0);
    grid.insert(Position::new(3, 1), 0);
    grid.insert(Position::new(4, 1), 0);
    let matches = grid.get_matches();
    assert_eq!(all_cells(&matches), vec![vec![(0, 1), (1, 1), (3, 1), (4, 1)]]);
}

#[test]
fn empty_cell_does_not_end_a_vertical_run() {
    let mut grid = Grid::new(7, 6);
    grid.insert(Position::new(2, 0), 1);
    grid.insert(Position::new(2, 2), 1);
    grid.insert(Position::new(2, 4), 1);
    grid.insert(Position::new(2, 5), 1);
    let matches = grid.get_matches();
    assert_eq!(all_cells(&matches), vec![vec![(2, 0), (2, 2), (2, 4), (2, 5)]]);
}

#[test]
fn empty_cell_does_not_hide_a_change_of_type() {
    let mut grid = Grid::new(7, 6);
    grid.insert(Position::new(0, 0), 0);
    grid.insert(Position::new(1, 0), 0);
    grid.insert(Position::new(3, 0), 1);
    grid.insert(Position::new(4, 0), 0);
    grid.insert(Position::new(5, 0), 0);
    assert!(grid.get_matches().is_empty());
}

#[test]
fn run_does_not_continue_on_the_next_line() {
    let mut grid = Grid::new(4, 4);
    grid.insert(Position::new(2, 0), 0);
    grid.insert(Position::new(3, 0), 0);
    grid.insert(Position::new(0, 1), 0);
    grid.insert(Position::new(1, 1), 0);
    assert!(grid.get_matches().is_empty());
}

#[test]
fn shared_cell_belongs_to_both_matches() {
    let mut grid = Grid::new(7, 6);
    for x in 1..4 {
        assert_eq!(grid.add_at_column(x, 0), Ok(()));
    }
    for _ in 0..4 {
        assert_eq!(grid.add_at_column(0, 0), Ok(()));
    }
    let matches = grid.get_matches();
    assert_eq!(
        all_cells(&matches),
        vec![
            vec![(0, 0), (1, 0), (2, 0), (3, 0)],
            vec![(0, 0), (0, 1), (0, 2), (0, 3)],
        ]
    );
    let covered = matches.without_duplicates();
    assert_eq!(covered.len(), 7);
    for cell in [(0, 0), (1, 0), (2, 0), (3, 0), (0, 1), (0, 2), (0, 3)] {
        assert!(covered.contains(&Position::new(cell.0, cell.1)));
    }
}

#[test]
fn rows_come_before_columns_and_lower_lines_first() {
    let mut grid = Grid::new(7, 6);
    for x in 0..4 {
        grid.insert(Position::new(x, 0), 0);
        grid.insert(Position::new(x, 2), 1);
    }
    for y in 0..4 {
        grid.insert(Position::new(6, y), 1);
    }
    for y in 2..6 {
        grid.insert(Position::new(5, y), 0);
    }
    let matches = grid.get_matches();
    assert_eq!(
        all_cells(&matches),
        vec![
            vec![(0, 0), (1, 0), (2, 0), (3, 0)],
            vec![(0, 2), (1, 2), (2, 2), (3, 2)],
            vec![(5, 2), (5, 3), (5, 4), (5, 5)],
            vec![(6, 0), (6, 1), (6, 2), (6, 3)],
        ]
    );
    let horizontal = grid.straight_matches(MatchDirection::Horizontal);
    assert_eq!(
        all_cells(&horizontal),
        vec![
            vec![(0, 0), (1, 0), (2, 0), (3, 0)],
            vec![(0, 2), (1, 2), (2, 2), (3, 2)],
        ]
    );
    let vertical = grid.straight_matches(MatchDirection::Vertical);
    assert_eq!(
        all_cells(&vertical),
        vec![
            vec![(5, 2), (5, 3), (5, 4), (5, 5)],
            vec![(6, 0), (6, 1), (6, 2), (6, 3)],
        ]
    );
}

#[test]
fn pieces_outside_the_grid_are_not_swept() {
    let mut grid = Grid::new(3, 3);
    for x in 0..4 {
        grid.insert(Position::new(x, 0), 1);
    }
    for y in 0..4 {
        grid.insert(Position::new(1, y), 1);
    }
    grid.insert(Position::new(1, 1), 0);
    assert!(grid.get_matches().is_empty());
}

#[test]
fn four_fit_exactly_into_a_grid_of_four() {
    let mut grid = Grid::new(4, 1);
    for x in 0..4 {
        assert_eq!(grid.add_at_column(x, 1), Ok(()));
    }
    let matches = grid.get_matches();
    assert_eq!(all_cells(&matches), vec![vec![(0, 0), (1, 0), (2, 0), (3, 0)]]);
}

#[test]
fn detection_does_not_change_the_grid_and_repeats_its_result() {
    let grid = bottom_row(&[0, 0, 0, 0, 1, 1, 1]);
    let first = grid.get_matches();
    let second = grid.get_matches();
    assert_eq!(all_cells(&first), all_cells(&second));
    assert_eq!(grid.get(&Position::new(4, 0)), Ok(&1));
    assert_eq!(grid.get(&Position::new(0, 0)), Ok(&0));
}
