use vstd::prelude::*;

use crate::cell::Cell;
use crate::game_state::GameState;
use crate::mark::Mark;
use crate::player::Player;

verus! {

/// A two-digit entry names a cell when its tens digit (the row) and its units
/// digit (the column) both lie in `1..=size`.
pub open spec fn input_valid(number: int, size: int) -> bool {
    &&& 1 <= number / 10 <= size
    &&& 1 <= number % 10 <= size
}

/// The index of the cell that a valid two-digit entry names.
pub open spec fn cell_of(number: int, size: int) -> int {
    (number / 10 - 1) * size + number % 10 - 1
}

/// A player at the keyboard.
pub struct ConsolePlayer {
    mark: Mark,
}

impl ConsolePlayer {
    pub closed spec fn mark(&self) -> Mark {
        self.mark
    }

    pub fn new(mark: Mark) -> (r: ConsolePlayer)
        ensures
            r.mark() == mark,
    {
        ConsolePlayer { mark }
    }

    /// The cell named by the entry `number` on a board of side `size`.
    pub fn get_cell(&self, number: usize, size: usize) -> (r: Result<usize, &'static str>)
        requires
            3 <= size <= 5,
        ensures
            r is Ok <==> input_valid(number as int, size as int),
            r matches Ok(c) ==> c == cell_of(number as int, size as int) && c < size * size,
            !input_valid(number as int, size as int) ==> r == Err::<usize, &'static str>(
                "Invalid input!",
            ),
    {
        let left = number / 10;
        let right = number % 10;
        if 1 <= left && left <= size && 1 <= right && right <= size {
            assert((left - 1) * size + right - 1 < size * size) by (nonlinear_arith)
                requires
                    1 <= left <= size,
                    1 <= right <= size,
            ;
            assert((left - 1) * size <= 20) by (nonlinear_arith)
                requires
                    1 <= left <= size,
                    size <= 5,
            ;
            Ok((left - 1) * size + right - 1)
        } else {
            Err("Invalid input!")
        }
    }

    /// Plays the cell named by `number`. An entry that names no cell, or names
    /// an occupied one, fails and leaves the state as it was.
    pub fn make_move(&self, game_state: &mut GameState, number: usize) -> (r: Result<
        (),
        &'static str,
    >)
        requires
            old(game_state).wf(),
        ensures
            final(game_state).wf(),
            final(game_state).side() == old(game_state).side(),
            final(game_state).turn() == old(game_state).turn(),
            r is Ok <==> input_valid(number as int, old(game_state).side()) && old(
                game_state,
            ).cells()[cell_of(number as int, old(game_state).side())] == Cell::Empty,
            r is Ok ==> final(game_state).cells() == old(game_state).cells().update(
                cell_of(number as int, old(game_state).side()),
                Cell::Mark(self.mark()),
            ),
            r is Err ==> final(game_state).cells() == old(game_state).cells(),
            !input_valid(number as int, old(game_state).side()) ==> r == Err::<(), &'static str>(
                "Invalid input!",
            ),
            input_valid(number as int, old(game_state).side()) && old(game_state).cells()[cell_of(
                number as int,
                old(game_state).side(),
            )] != Cell::Empty ==> r == Err::<(), &'static str>("It's not an empty cell"),
    {
        let size = game_state.grid().size();
        let cell = self.get_cell(number, size);
        match cell {
            Ok(c) => game_state.set_cell(c, self.mark),
            Err(e) => Err(e),
        }
    }
}

impl Player for ConsolePlayer {
    fn get_mark(&self) -> Mark {
        self.mark
    }
}

} // verus!
