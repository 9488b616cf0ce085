use vstd::prelude::*;

use crate::ai_player::{chosen_move, AiPlayer};
use crate::cell::Cell;
use crate::console_player::{cell_of, input_valid, ConsolePlayer};
use crate::game_state::{status_of, GameState, GameStatus};
use crate::grid::{empties, Grid};
use crate::mark::Mark;

verus! {

/// Who plays a mark: someone at the keyboard, or the computer.
pub enum PlayerType {
    Human(Mark),
    Ai(Mark),
}

impl PlayerType {
    pub open spec fn mark(&self) -> Mark {
        match self {
            PlayerType::Human(mark) => *mark,
            PlayerType::Ai(mark) => *mark,
        }
    }

    pub fn get_mark(&self) -> (r: Mark)
        ensures
            r == self.mark(),
    {
        match self {
            PlayerType::Human(mark) => *mark,
            PlayerType::Ai(mark) => *mark,
        }
    }
}

/// A game between two players: the decisions of each turn. Reading the
/// keyboard, drawing the board and pacing the computer's moves are left to
/// the caller, which hands in what a human typed.
pub struct TicTacToe {
    player1: PlayerType,
    player2: PlayerType,
    game_state: GameState,
}

impl TicTacToe {
    pub closed spec fn first(&self) -> PlayerType {
        self.player1
    }

    pub closed spec fn second(&self) -> PlayerType {
        self.player2
    }

    pub closed spec fn state(&self) -> GameState {
        self.game_state
    }

    pub open spec fn wf(&self) -> bool {
        &&& self.first().mark() != self.second().mark()
        &&& self.state().wf()
    }

    /// A new game on an empty board of side `map_size`, `X` to move.
    pub fn new_console_mod(player1: PlayerType, player2: PlayerType, map_size: usize) -> (r:
        TicTacToe)
        requires
            player1.mark() != player2.mark(),
            3 <= map_size <= 5,
        ensures
            r.wf(),
            r.first() == player1,
            r.second() == player2,
            r.state().side() == map_size,
            r.state().turn() == Mark::X,
            r.state().cells() =~= Seq::new(
                (map_size * map_size) as nat,
                |i: int| Cell::Empty,
            ),
    {
        TicTacToe { player1, player2, game_state: GameState::new(Grid::new(map_size)) }
    }

    pub fn game_state(&self) -> (r: &GameState)
        ensures
            *r == self.state(),
    {
        &self.game_state
    }

    /// Whether the game goes on, and if not, how it ended.
    pub fn status(&self) -> (r: GameStatus)
        requires
            self.wf(),
        ensures
            r == status_of(self.state().cells(), self.state().side()),
    {
        self.game_state.is_finished()
    }

    /// The player whose mark is to move.
    pub fn active_player(&self) -> (r: &PlayerType)
        ensures
            *r == (if self.first().mark() == self.state().turn() {
                self.first()
            } else {
                self.second()
            }),
    {
        if self.player1.get_mark() == self.game_state.current_mark() {
            &self.player1
        } else {
            &self.player2
        }
    }

    /// A human turn: the mark to move goes on the cell named by `number`,
    /// and the turn passes. A rejected entry changes nothing, so the same
    /// player tries again.
    pub fn play_human(&mut self, number: usize) -> (r: Result<(), &'static str>)
        requires
            old(self).wf(),
        ensures
            final(self).wf(),
            final(self).first() == old(self).first(),
            final(self).second() == old(self).second(),
            final(self).state().side() == old(self).state().side(),
            r is Ok <==> input_valid(number as int, old(self).state().side()) && old(self).state().cells()[cell_of(number as int, old(self).state().side())] == Cell::Empty,
            r is Ok ==> final(self).state().cells() == old(self).state().cells().update(
                cell_of(number as int, old(self).state().side()),
                Cell::Mark(old(self).state().turn()),
            ) && final(self).state().turn() == old(self).state().turn().opposite(),
            r is Err ==> final(self).state().cells() == old(self).state().cells() && final(self).state().turn() == old(self).state().turn(),
            !input_valid(number as int, old(self).state().side()) ==> r == Err::<(), &'static str>(
                "Invalid input!",
            ),
            input_valid(number as int, old(self).state().side()) && old(self).state().cells()[cell_of(
                number as int,
                old(self).state().side(),
            )] != Cell::Empty ==> r == Err::<(), &'static str>("It's not an empty cell"),
    {
        let player = ConsolePlayer::new(self.game_state.current_mark());
        let res = player.make_move(&mut self.game_state, number);
        if res.is_ok() {
            self.game_state.next_turn();
        }
        res
    }

    /// A computer turn: the mark to move goes on the cell the search picks,
    /// and the turn passes. Fails, changing nothing, on a full board.
    pub fn play_ai(&mut self) -> (r: Result<(), &'static str>)
        requires
            old(self).wf(),
        ensures
            final(self).wf(),
            final(self).first() == old(self).first(),
            final(self).second() == old(self).second(),
            final(self).state().side() == old(self).state().side(),
            r is Err <==> empties(old(self).state().cells()).len() == 0,
            r is Ok ==> final(self).state().turn() == old(self).state().turn().opposite()
                && exists|c: int|
                0 <= c < old(self).state().cells().len() && #[trigger] old(self).state().cells()[c]
                    == Cell::Empty && final(self).state().cells() == old(self).state().cells().update(c, Cell::Mark(old(self).state().turn())) && (empties(
                    old(self).state().cells(),
                ).len() < old(self).state().cells().len() ==> c == chosen_move(
                    old(self).state().cells(),
                    old(self).state().side(),
                    old(self).state().turn(),
                )),
            r is Err ==> final(self).state().cells() == old(self).state().cells() && final(self).state().turn() == old(self).state().turn(),
            r is Err ==> r == Err::<(), &'static str>("No valid move!"),
    {
        let player = AiPlayer::new(self.game_state.current_mark());
        let res = player.make_move(&mut self.game_state);
        if res.is_ok() {
            self.game_state.next_turn();
        }
        res
    }
}

} // verus!
