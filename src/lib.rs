//! Generalised tic-tac-toe on square boards of side three to five, with a
//! minimax opponent that prunes with alpha-beta windows.

pub mod ai_player;
pub mod cell;
pub mod console_player;
pub mod game;
pub mod game_state;
pub mod grid;
pub mod mark;
pub mod player;
