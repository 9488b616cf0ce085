use vstd::prelude::*;

use crate::cell::Cell;
use crate::grid::{empties, Grid};
use crate::mark::Mark;

verus! {

/// Those of the `n` cells of `b` at `offset`, `offset + step`, ... that lie
/// within `b` all hold `m`.
pub open spec fn line_full(b: Seq<Cell>, offset: int, step: int, n: int, m: Mark) -> bool {
    forall|k: int|
        0 <= k < n && offset + k * step < b.len() ==> #[trigger] b[offset + k * step] == Cell::Mark(
            m,
        )
}

/// Row `r` of the board `b` of side `n` holds `m` in every cell.
pub open spec fn row_full(b: Seq<Cell>, n: int, r: int, m: Mark) -> bool {
    forall|c: int| 0 <= c < n ==> #[trigger] b[r * n + c] == Cell::Mark(m)
}

/// Column `c` of the board `b` of side `n` holds `m` in every cell.
pub open spec fn column_full(b: Seq<Cell>, n: int, c: int, m: Mark) -> bool {
    forall|r: int| 0 <= r < n ==> #[trigger] b[r * n + c] == Cell::Mark(m)
}

/// The diagonal from the top left corner holds `m` in every cell.
pub open spec fn primary_diagonal_full(b: Seq<Cell>, n: int, m: Mark) -> bool {
    forall|i: int| 0 <= i < n ==> #[trigger] b[i * (n + 1)] == Cell::Mark(m)
}

/// The diagonal from the top right corner holds `m` in every cell.
pub open spec fn secondary_diagonal_full(b: Seq<Cell>, n: int, m: Mark) -> bool {
    forall|i: int| 0 <= i < n ==> #[trigger] b[(n - 1) + i * (n - 1)] == Cell::Mark(m)
}

/// Some row, column or diagonal of `b` is filled with `m`.
pub open spec fn has_line(b: Seq<Cell>, n: int, m: Mark) -> bool {
    ||| exists|r: int| 0 <= r < n && row_full(b, n, r, m)
    ||| exists|c: int| 0 <= c < n && column_full(b, n, c, m)
    ||| primary_diagonal_full(b, n, m)
    ||| secondary_diagonal_full(b, n, m)
}

/// The outcome of the board `b` of side `n` as it stands.
pub open spec fn status_of(b: Seq<Cell>, n: int) -> GameStatus {
    if has_line(b, n, Mark::X) {
        GameStatus::Win(Mark::X)
    } else if has_line(b, n, Mark::O) {
        GameStatus::Win(Mark::O)
    } else if empties(b).len() == 0 {
        GameStatus::Tie
    } else {
        GameStatus::Continuous
    }
}

/// A board with no mark on it has no line for anyone.
pub proof fn lemma_empty_board_has_no_line(b: Seq<Cell>, n: int, m: Mark)
    requires
        3 <= n <= 5,
        b.len() == n * n,
        forall|i: int| 0 <= i < b.len() ==> b[i] == Cell::Empty,
    ensures
        !has_line(b, n, m),
{
    assert(0 * n + 0 == 0);
    assert forall|r: int| 0 <= r < n implies !row_full(b, n, r, m) by {
        assert(0 <= r * n + 0 < n * n) by (nonlinear_arith)
            requires
                0 <= r < n,
        ;
        assert(b[r * n + 0] == Cell::Empty);
    }
    assert forall|c: int| 0 <= c < n implies !column_full(b, n, c, m) by {
        assert(0 * n + c == c);
        assert(c < n * n) by (nonlinear_arith)
            requires
                0 <= c < n,
                3 <= n,
        ;
        assert(b[0 * n + c] == Cell::Empty);
    }
    assert(n < n * n) by (nonlinear_arith)
        requires
            3 <= n,
    ;
    assert(0 * (n + 1) == 0);
    assert(b[0 * (n + 1)] == Cell::Empty);
    assert(0 * (n - 1) == 0);
    assert(b[(n - 1) + 0 * (n - 1)] == Cell::Empty);
}

#[derive(Clone, Copy, Debug, PartialEq, Eq, Structural)]
pub enum GameStatus {
    Continuous,
    Tie,
    Win(Mark),
}

/// A board together with the mark whose turn it is.
#[derive(Clone, Debug)]
pub struct GameState {
    grid: Grid,
    current_mark: Mark,
}

impl GameState {
    pub closed spec fn board(&self) -> Grid {
        self.grid
    }

    pub open spec fn cells(&self) -> Seq<Cell> {
        self.board().cells()
    }

    pub open spec fn side(&self) -> int {
        self.board().side() as int
    }

    pub closed spec fn turn(&self) -> Mark {
        self.current_mark
    }

    pub open spec fn wf(&self) -> bool {
        self.board().wf()
    }

    /// A new game on `grid`, with `X` to move.
    pub fn new(grid: Grid) -> (r: GameState)
        requires
            grid.wf(),
        ensures
            r.wf(),
            r.board() == grid,
            r.turn() == Mark::X,
    {
        let current_mark = Mark::X;
        GameState { grid, current_mark }
    }

    /// A copy of this state, cell for cell.
    pub fn duplicate(&self) -> (r: GameState)
        ensures
            r.cells() == self.cells(),
            r.side() == self.side(),
            r.turn() == self.turn(),
    {
        GameState { grid: self.grid.duplicate(), current_mark: self.current_mark }
    }

    pub fn next_turn(&mut self)
        ensures
            final(self).turn() == old(self).turn().opposite(),
            final(self).board() == old(self).board(),
    {
        self.current_mark = self.current_mark.oppiste();
    }

    pub fn current_mark(&self) -> (r: Mark)
        ensures
            r == self.turn(),
    {
        self.current_mark
    }

    pub fn grid(&self) -> (r: &Grid)
        ensures
            *r == self.board(),
    {
        &self.grid
    }

    pub fn set_cell(&mut self, cell: usize, mark: Mark) -> (r: Result<(), &'static str>)
        requires
            old(self).wf(),
            cell < old(self).cells().len(),
        ensures
            final(self).wf(),
            final(self).side() == old(self).side(),
            final(self).turn() == old(self).turn(),
            r is Ok <==> old(self).cells()[cell as int] == Cell::Empty,
            r is Ok ==> final(self).cells() == old(self).cells().update(
                cell as int,
                Cell::Mark(mark),
            ),
            r is Err ==> final(self).cells() == old(self).cells(),
            r is Err ==> r == Err::<(), &'static str>("It's not an empty cell"),
    {
        self.grid.set_cell(cell, mark)
    }

    pub fn set_empty(&mut self, cell: usize)
        requires
            old(self).wf(),
            cell < old(self).cells().len(),
        ensures
            final(self).wf(),
            final(self).side() == old(self).side(),
            final(self).turn() == old(self).turn(),
            final(self).cells() == old(self).cells().update(cell as int, Cell::Empty),
    {
        self.grid.set_empty(cell)
    }

    /// The outcome so far: a win for `X` is looked for before one for `O`.
    pub fn is_finished(&self) -> (r: GameStatus)
        requires
            self.wf(),
        ensures
            r == status_of(self.cells(), self.side()),
    {
        if self.is_winning(Mark::X) {
            return GameStatus::Win(Mark::X);
        } else if self.is_winning(Mark::O) {
            return GameStatus::Win(Mark::O);
        }
        let spots = self.grid.get_empty_indices();
        if spots.len() == 0 {
            GameStatus::Tie
        } else {
            GameStatus::Continuous
        }
    }

    /// Whether some row, column or diagonal is filled with `player`.
    pub fn is_winning(&self, player: Mark) -> (r: bool)
        requires
            self.wf(),
        ensures
            r == has_line(self.cells(), self.side(), player),
    {
        let n = self.grid.size();
        let mut i: usize = 0;
        while i < n
            invariant
                self.wf(),
                n == self.side(),
                i <= n,
                forall|j: int| 0 <= j < i ==> !row_full(self.cells(), n as int, j, player),
                forall|j: int| 0 <= j < i ==> !column_full(self.cells(), n as int, j, player),
            decreases n - i,
        {
            if self.check_row(i, player) {
                return true;
            }
            if self.check_column(i, player) {
                return true;
            }
            i += 1;
        }
        if self.check_primary_diagonal(player) {
            return true;
        }
        if self.check_secondary_diagonal(player) {
            return true;
        }
        false
    }

    /// Whether those of the `size` cells at `offset`, `offset + step`, ... that
    /// lie on the board all hold `player`.
    fn check_sequence(&self, offset: usize, step: usize, player: Mark) -> (r: bool)
        requires
            self.wf(),
        ensures
            r == line_full(self.cells(), offset as int, step as int, self.side(), player),
    {
        let n = self.grid.size();
        let cells = self.grid.grid();
        let len = cells.len();
        let ghost b = self.cells();
        let mut k: usize = 0;
        let mut idx: usize = offset;
        while k < n
            invariant
                n == self.side(),
                cells@ == b,
                b == self.cells(),
                len == b.len(),
                k <= n,
                idx == offset + k * step,
                forall|j: int|
                    0 <= j < k && offset + j * step < len ==> #[trigger] b[offset + j * step]
                        == Cell::Mark(player),
            decreases n - k,
        {
            if idx >= len {
                proof {
                    assert forall|j: int|
                        0 <= j < n && offset + j * step < len implies #[trigger] b[offset + j
                        * step] == Cell::Mark(player) by {
                        if j >= k {
                            assert(j * step >= k * step) by (nonlinear_arith)
                                requires
                                    k <= j,
                                    step >= 0,
                            ;
                        }
                    }
                }
                return true;
            }
            match cells[idx] {
                Cell::Mark(m) => {
                    if m != player {
                        assert(b[offset + k * step] != Cell::Mark(player));
                        return false;
                    }
                },
                Cell::Empty => {
                    assert(b[offset + k * step] != Cell::Mark(player));
                    return false;
                },
            }
            if len - idx <= step {
                proof {
                    assert forall|j: int|
                        0 <= j < n && offset + j * step < len implies #[trigger] b[offset + j
                        * step] == Cell::Mark(player) by {
                        if j > k {
                            assert(j * step >= k * step + step) by (nonlinear_arith)
                                requires
                                    k + 1 <= j,
                                    step >= 0,
                            ;
                        }
                    }
                }
                return true;
            }
            assert(offset + (k + 1) * step == offset + k * step + step) by (nonlinear_arith);
            idx = idx + step;
            k += 1;
        }
        true
    }

    pub fn check_row(&self, row: usize, player: Mark) -> (r: bool)
        requires
            self.wf(),
            row < self.side(),
        ensures
            r == row_full(self.cells(), self.side(), row as int, player),
    {
        let n = self.grid.size();
        assert(row * n + (n - 1) * 1 < n * n) by (nonlinear_arith)
            requires
                row < n,
        ;
        assert(n * n <= 25) by (nonlinear_arith)
            requires
                n <= 5,
        ;
        let r = self.check_sequence(row * n, 1, player);
        let ghost b = self.cells();
        proof {
            assert forall|c: int|
                #![trigger b[row * n + c]]
                #![trigger b[row * n + c * 1]]
                0 <= c < n implies b[row * n + c] == b[row * n + c * 1] && row * n + c * 1
                    < b.len() by {
                assert(row * n + c < n * n) by (nonlinear_arith)
                    requires
                        0 <= c < n,
                        row < n,
                ;
            }
        }
        r
    }

    pub fn check_column(&self, column: usize, player: Mark) -> (r: bool)
        requires
            self.wf(),
            column < self.side(),
        ensures
            r == column_full(self.cells(), self.side(), column as int, player),
    {
        let n = self.grid.size();
        let r = self.check_sequence(column, n, player);
        let ghost b = self.cells();
        proof {
            assert forall|k: int|
                #![trigger b[k * n + column]]
                #![trigger b[column + k * n]]
                0 <= k < n implies b[k * n + column] == b[column + k * n] && column + k * n
                    < b.len() by {
                assert(column + k * n < n * n) by (nonlinear_arith)
                    requires
                        0 <= k < n,
                        column < n,
                ;
            }
        }
        r
    }

    pub fn check_primary_diagonal(&self, player: Mark) -> (r: bool)
        requires
            self.wf(),
        ensures
            r == primary_diagonal_full(self.cells(), self.side(), player),
    {
        let n = self.grid.size();
        let r = self.check_sequence(0, n + 1, player);
        let ghost b = self.cells();
        proof {
            assert forall|k: int|
                #![trigger b[k * (n + 1)]]
                #![trigger b[0 + k * (n + 1)]]
                0 <= k < n implies b[k * (n + 1)] == b[0 + k * (n + 1)] && 0 + k * (n + 1)
                    < b.len() by {
                assert(k * (n + 1) < n * n) by (nonlinear_arith)
                    requires
                        0 <= k < n,
                ;
            }
        }
        r
    }

    pub fn check_secondary_diagonal(&self, player: Mark) -> (r: bool)
        requires
            self.wf(),
        ensures
            r == secondary_diagonal_full(self.cells(), self.side(), player),
    {
        let n = self.grid.size();
        let r = self.check_sequence(n - 1, n - 1, player);
        let ghost b = self.cells();
        proof {
            assert forall|k: int| 0 <= k < n implies #[trigger] b[(n - 1) + k * (n - 1)] == b[(n - 1)
                + k * (n - 1)] && (n - 1) + k * (n - 1) < b.len() by {
                assert((n - 1) + k * (n - 1) < n * n) by (nonlinear_arith)
                    requires
                        0 <= k < n,
                ;
            }
        }
        r
    }
}

} // verus!
