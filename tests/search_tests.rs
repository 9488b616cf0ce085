use tic_tac_toe::ai_player::AiPlayer;
use tic_tac_toe::console_player::ConsolePlayer;
use tic_tac_toe::game::{PlayerType, TicTacToe};
use tic_tac_toe::game_state::{GameState, GameStatus};
use tic_tac_toe::grid::Grid;
use tic_tac_toe::mark::Mark;

fn board(size: usize, xs: &[usize], os: &[usize]) -> GameState {
    let mut grid = Grid::new(size);
    for &c in xs {
        assert!(grid.set_cell(c, Mark::X).is_ok());
    }
    for &c in os {
        assert!(grid.set_cell(c, Mark::O).is_ok());
    }
    GameState::new(grid)
}

#[test]
fn engine_fills_last_cell_to_win() {
    // X X O / O _ X / X X O: the centre completes the middle column.
    let state = board(3, &[0, 1, 5, 6, 7], &[2, 3, 8]);
    let ai = AiPlayer::new(Mark::X);
    assert_eq!(ai.best_move(&state), Some(4));
}

#[test]
fn engine_takes_immediate_win() {
    let state = board(3, &[0, 1], &[3, 4]);
    let ai = AiPlayer::new(Mark::X);
    assert_eq!(ai.best_move(&state), Some(2));
}

#[test]
fn engine_blocks_a_threat() {
    let mut state = board(3, &[0, 8], &[4]);
    state.next_turn();
    let mut s = state.clone();
    // O to move against two opposite corners: the search answers the same
    // way every time, and the move it makes is accepted.
    let ai = AiPlayer::new(Mark::O);
    let first = ai.best_move(&state);
    assert!(first.is_some());
    assert_eq!(ai.best_move(&state), first);
    assert!(ai.make_move(&mut s).is_ok());
}

#[test]
fn engine_on_full_board_has_no_move() {
    let state = board(3, &[0, 2, 3, 7, 8], &[1, 4, 5, 6]);
    let ai = AiPlayer::new(Mark::X);
    assert_eq!(ai.best_move(&state), None);
    let mut s = state.clone();
    assert_eq!(ai.make_move(&mut s), Err("No valid move!"));
}

#[test]
fn engine_first_move_is_some_cell() {
    let state = GameState::new(Grid::new(3));
    let ai = AiPlayer::new(Mark::X);
    let m = ai.best_move(&state).unwrap();
    assert!(m < 9);
}

#[test]
fn minimax_scores_terminal_positions() {
    let mut won = board(3, &[0, 1, 2], &[3, 4]);
    assert_eq!(AiPlayer::minimax(&mut won, Mark::X, Mark::O, 5, i32::MIN, i32::MAX), 15);
    assert_eq!(AiPlayer::minimax(&mut won, Mark::O, Mark::O, 5, i32::MIN, i32::MAX), -15);
    assert_eq!(AiPlayer::minimax(&mut won, Mark::X, Mark::X, 0, i32::MIN, i32::MAX), 10);
    assert_eq!(AiPlayer::minimax(&mut won, Mark::X, Mark::O, 0, i32::MIN, i32::MAX), -10);
    let mut tie = board(3, &[0, 2, 3, 7, 8], &[1, 4, 5, 6]);
    assert_eq!(AiPlayer::minimax(&mut tie, Mark::X, Mark::O, 3, i32::MIN, i32::MAX), 0);
}

#[test]
fn minimax_restores_the_board() {
    let mut state = board(3, &[4], &[0]);
    let before = state.grid().grid().to_vec();
    let a = AiPlayer::minimax(&mut state, Mark::X, Mark::X, 8, i32::MIN, i32::MAX);
    assert_eq!(state.grid().grid().to_vec(), before);
    let b = AiPlayer::minimax(&mut state, Mark::X, Mark::X, 8, i32::MIN, i32::MAX);
    assert_eq!(a, b);
}

#[test]
fn ai_versus_ai_ends_in_a_tie() {
    let mut game = TicTacToe::new_console_mod(PlayerType::Ai(Mark::X), PlayerType::Ai(Mark::O), 3);
    while game.status() == GameStatus::Continuous {
        assert!(game.play_ai().is_ok());
    }
    assert_eq!(game.status(), GameStatus::Tie);
}

#[test]
fn human_input_is_checked() {
    let mut game =
        TicTacToe::new_console_mod(PlayerType::Human(Mark::X), PlayerType::Human(Mark::O), 3);
    assert_eq!(game.play_human(99), Err("Invalid input!"));
    assert_eq!(game.play_human(40), Err("Invalid input!"));
    assert_eq!(game.play_human(10), Err("Invalid input!"));
    assert_eq!(game.game_state().current_mark(), Mark::X);
    assert_eq!(game.play_human(11), Ok(()));
    assert_eq!(game.game_state().current_mark(), Mark::O);
    let before = game.game_state().grid().grid().to_vec();
    assert_eq!(game.play_human(11), Err("It's not an empty cell"));
    assert_eq!(game.game_state().grid().grid().to_vec(), before);
    assert_eq!(game.game_state().current_mark(), Mark::O);
    assert_eq!(game.play_human(23), Ok(()));
    assert_eq!(game.game_state().grid().get_empty_indices(), vec![1, 2, 3, 4, 6, 7, 8]);
}

#[test]
fn console_cells_are_row_major() {
    let p = ConsolePlayer::new(Mark::X);
    assert_eq!(p.get_cell(11, 3), Ok(0));
    assert_eq!(p.get_cell(23, 3), Ok(5));
    assert_eq!(p.get_cell(55, 5), Ok(24));
    assert_eq!(p.get_cell(45, 4), Err("Invalid input!"));
    assert_eq!(p.get_cell(123, 5), Err("Invalid input!"));
}

#[test]
fn active_player_follows_the_turn() {
    let mut game = TicTacToe::new_console_mod(PlayerType::Ai(Mark::O), PlayerType::Human(Mark::X), 4);
    assert_eq!(game.active_player().get_mark(), Mark::X);
    assert!(matches!(game.active_player(), PlayerType::Human(_)));
    assert_eq!(game.play_human(44), Ok(()));
    assert!(matches!(game.active_player(), PlayerType::Ai(_)));
}

#[test]
fn minimax_terminal_scores_ignore_the_window() {
    let mut won = board(3, &[0, 1, 2], &[3, 4]);
    assert_eq!(AiPlayer::minimax(&mut won, Mark::X, Mark::X, 0, 20, 30), 10);
    assert_eq!(AiPlayer::minimax(&mut won, Mark::X, Mark::O, 4, 20, 30), 14);
    assert_eq!(AiPlayer::minimax(&mut won, Mark::O, Mark::X, 4, -5, 5), -14);
    let mut tie = board(3, &[0, 2, 3, 7, 8], &[1, 4, 5, 6]);
    assert_eq!(AiPlayer::minimax(&mut tie, Mark::X, Mark::O, 3, 5, 9), 0);
}

#[test]
fn errors_name_their_kind() {
    let mut state = board(3, &[0, 2, 3, 7, 8], &[1, 4, 5, 6]);
    assert_eq!(AiPlayer::new(Mark::X).make_move(&mut state), Err("No valid move!"));
    let mut state = board(3, &[0], &[]);
    let p = ConsolePlayer::new(Mark::O);
    assert_eq!(p.make_move(&mut state, 99), Err("Invalid input!"));
    assert_eq!(p.make_move(&mut state, 11), Err("It's not an empty cell"));
    assert_eq!(state.current_mark(), Mark::X);
    assert_eq!(p.make_move(&mut state, 12), Ok(()));
}
