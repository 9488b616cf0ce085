use tic_tac_toe::cell::Cell;
use tic_tac_toe::grid::Grid;
use tic_tac_toe::mark::Mark;

#[test]
fn new_grid_is_empty() {
    for size in 3..=5 {
        let grid = Grid::new(size);
        assert_eq!(grid.size(), size);
        assert_eq!(grid.grid().len(), size * size);
        assert!(grid.grid().iter().all(|c| *c == Cell::Empty));
        assert_eq!(grid.get_empty_indices(), (0..size * size).collect::<Vec<usize>>());
    }
}

#[test]
fn empty_and_occupied_add_up() {
    for size in 3..=5 {
        let mut grid = Grid::new(size);
        for c in [0, 4, size * size - 1] {
            assert!(grid.set_cell(c, Mark::X).is_ok());
        }
        let occupied = grid.grid().iter().filter(|c| **c != Cell::Empty).count();
        assert_eq!(occupied, 3);
        assert_eq!(grid.get_empty_indices().len() + occupied, size * size);
    }
}

#[test]
fn empty_indices_ascend() {
    let mut grid = Grid::new(3);
    assert!(grid.set_cell(1, Mark::O).is_ok());
    assert!(grid.set_cell(5, Mark::X).is_ok());
    assert_eq!(grid.get_empty_indices(), vec![0, 2, 3, 4, 6, 7, 8]);
}

#[test]
fn set_on_occupied_cell_fails() {
    let mut grid = Grid::new(3);
    assert_eq!(grid.set_cell(4, Mark::X), Ok(()));
    assert_eq!(grid.set_cell(4, Mark::O), Err("It's not an empty cell"));
    assert_eq!(grid.grid()[4], Cell::Mark(Mark::X));
}

#[test]
fn set_then_clear_restores_cell() {
    let mut grid = Grid::new(4);
    assert!(grid.set_cell(3, Mark::O).is_ok());
    let before: Vec<Cell> = grid.grid().to_vec();
    assert!(grid.set_cell(9, Mark::X).is_ok());
    assert_eq!(grid.grid()[9], Cell::Mark(Mark::X));
    grid.set_empty(9);
    assert_eq!(grid.grid().to_vec(), before);
}
