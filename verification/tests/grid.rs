use lib::grid::occupancy_grid;

#[test]
fn marks_cells_by_row_then_column() {
    let g = occupancy_grid(3, &[(0, 1), (2, 2), (5, 0), (1, 1), (0, 7)]);
    assert_eq!(
        g,
        vec![
            vec![false, false, false],
            vec![true, true, false],
            vec![false, false, true],
        ]
    );
}

#[test]
fn empty_grid_has_no_rows() {
    let g = occupancy_grid(0, &[(0, 0)]);
    assert!(g.is_empty());
}

#[test]
fn no_points_leave_grid_clear() {
    let g = occupancy_grid(4, &[]);
    assert_eq!(g.len(), 4);
    assert!(g.iter().all(|row| row.len() == 4 && row.iter().all(|c| !c)));
}

#[test]
fn center_cell_of_twenty() {
    let g = occupancy_grid(20, &[(10, 10), (20, 10), (10, 20)]);
    assert!(g[10][10]);
    assert_eq!(g.iter().flatten().filter(|c| **c).count(), 1);
}
