use gymnasium_rl::grid::Cell;

fn cell(i: isize, j: isize) -> Cell {
    Cell { i, j }
}

#[test]
fn cluster_is_the_block_of_nine_rows_first() {
    let block = Cell::cluster(cell(0, 0));
    assert_eq!(
        block,
        vec![
            cell(-1, -1),
            cell(-1, 0),
            cell(-1, 1),
            cell(0, -1),
            cell(0, 0),
            cell(0, 1),
            cell(1, -1),
            cell(1, 0),
            cell(1, 1),
        ]
    );
}

#[test]
fn neighbors_are_the_eight_cells_around() {
    let around = Cell::neighbors(cell(5, -3));
    assert_eq!(
        around,
        vec![
            cell(4, -4),
            cell(4, -3),
            cell(4, -2),
            cell(5, -4),
            cell(5, -2),
            cell(6, -4),
            cell(6, -3),
            cell(6, -2),
        ]
    );
}

#[test]
fn neighbors_at_the_corner_of_the_range_are_three() {
    let around = Cell::neighbors(cell(isize::MAX, isize::MIN));
    assert_eq!(
        around,
        vec![
            cell(isize::MAX - 1, isize::MIN),
            cell(isize::MAX - 1, isize::MIN + 1),
            cell(isize::MAX, isize::MIN + 1),
        ]
    );
}

#[test]
fn neighbors_at_the_edge_of_the_range_are_five() {
    let around = Cell::neighbors(cell(isize::MIN, 7));
    assert_eq!(
        around,
        vec![
            cell(isize::MIN, 6),
            cell(isize::MIN, 8),
            cell(isize::MIN + 1, 6),
            cell(isize::MIN + 1, 7),
            cell(isize::MIN + 1, 8),
        ]
    );
}
