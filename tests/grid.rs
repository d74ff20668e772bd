use gravsim::grid::{grid_cells, GRID_SIDE};

#[test]
fn ten_by_ten_grid_row_by_row() {
    let cells = grid_cells(GRID_SIDE);
    assert_eq!(cells.len(), 100);
    assert_eq!(cells[0], (1, 1));
    assert_eq!(cells[9], (10, 1));
    assert_eq!(cells[10], (1, 2));
    assert_eq!(cells[99], (10, 10));
}

#[test]
fn empty_and_single_grids() {
    assert!(grid_cells(0).is_empty());
    assert_eq!(grid_cells(1), vec![(1, 1)]);
}
