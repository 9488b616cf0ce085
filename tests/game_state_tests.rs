use tic_tac_toe::game_state::{GameState, GameStatus};
use tic_tac_toe::grid::Grid;
use tic_tac_toe::mark::Mark;

#[allow(unused_must_use)]
fn board_with(size: usize, cells: &[usize], mark: Mark) -> Grid {
    let mut grid = Grid::new(size);
    for &c in cells {
        grid.set_cell(c, mark);
    }
    grid
}

#[test]
fn check_row_1_test() {
    let mark = Mark::X;
    let game_state = GameState::new(board_with(3, &[0, 1, 2], mark));
    assert!(game_state.check_row(0, mark));
}

#[test]
fn check_row_2_test() {
    let mark = Mark::X;
    let game_state = GameState::new(board_with(3, &[3, 4, 5], mark));
    assert!(game_state.check_row(1, mark));
}

#[test]
fn check_row_3_test() {
    let mark = Mark::X;
    let game_state = GameState::new(board_with(3, &[6, 7, 8], mark));
    assert!(game_state.check_row(2, mark));
}

#[test]
fn check_column_1_test() {
    let mark = Mark::X;
    let game_state = GameState::new(board_with(3, &[0, 3, 6], mark));
    assert!(game_state.check_column(0, mark));
}

#[test]
fn check_column_2_test() {
    let mark = Mark::X;
    let game_state = GameState::new(board_with(3, &[1, 4, 7], mark));
    assert!(game_state.check_column(1, mark));
}

#[test]
fn check_column_3_test() {
    let mark = Mark::X;
    let game_state = GameState::new(board_with(3, &[2, 5, 8], mark));
    assert!(game_state.check_column(2, mark));
}

#[test]
fn check_primary_diagonal_test() {
    let mark = Mark::X;
    let game_state = GameState::new(board_with(3, &[0, 4, 8], mark));
    assert!(game_state.check_primary_diagonal(mark));
}

#[test]
fn check_secondary_diagonal_test() {
    let mark = Mark::X;
    let game_state = GameState::new(board_with(3, &[2, 4, 6], mark));
    assert!(game_state.check_secondary_diagonal(mark));
}

#[test]
fn empty_boards_have_no_winner() {
    for size in 3..=5 {
        let game_state = GameState::new(Grid::new(size));
        assert!(!game_state.is_winning(Mark::X));
        assert!(!game_state.is_winning(Mark::O));
        assert_eq!(game_state.is_finished(), GameStatus::Continuous);
    }
}

#[test]
fn lines_on_larger_boards() {
    let game_state = GameState::new(board_with(4, &[3, 6, 9, 12], Mark::O));
    assert!(game_state.check_secondary_diagonal(Mark::O));
    assert!(game_state.is_winning(Mark::O));
    assert!(!game_state.is_winning(Mark::X));
    assert_eq!(game_state.is_finished(), GameStatus::Win(Mark::O));

    let game_state = GameState::new(board_with(5, &[2, 7, 12, 17, 22], Mark::X));
    assert!(game_state.check_column(2, Mark::X));
    assert!(game_state.is_winning(Mark::X));

    let game_state = GameState::new(board_with(5, &[0, 6, 12, 18], Mark::X));
    assert!(!game_state.is_winning(Mark::X));
}

#[test]
fn wrapped_cells_make_no_row() {
    // 2, 3, 4 on a 3x3 board run across the end of the first row.
    let game_state = GameState::new(board_with(3, &[2, 3, 4], Mark::X));
    assert!(!game_state.is_winning(Mark::X));
}

#[test]
fn full_board_without_line_is_a_tie() {
    let mut grid = board_with(3, &[0, 2, 3, 7, 8], Mark::X);
    for c in [1, 4, 5, 6] {
        assert!(grid.set_cell(c, Mark::O).is_ok());
    }
    let game_state = GameState::new(grid);
    assert_eq!(game_state.is_finished(), GameStatus::Tie);
}

#[test]
fn x_win_is_reported_before_o_win() {
    let mut grid = board_with(3, &[0, 1, 2], Mark::X);
    for c in [6, 7, 8] {
        assert!(grid.set_cell(c, Mark::O).is_ok());
    }
    let game_state = GameState::new(grid);
    assert_eq!(game_state.is_finished(), GameStatus::Win(Mark::X));
}

#[test]
fn turns_alternate() {
    let mut game_state = GameState::new(Grid::new(3));
    assert_eq!(game_state.current_mark(), Mark::X);
    game_state.next_turn();
    assert_eq!(game_state.current_mark(), Mark::O);
    game_state.next_turn();
    assert_eq!(game_state.current_mark(), Mark::X);
    assert_eq!(Mark::X.oppiste(), Mark::O);
    assert_eq!(Mark::O.oppiste(), Mark::X);
}
