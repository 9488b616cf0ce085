use vstd::prelude::*;

use rand::Rng;
use rayon::iter::{IndexedParallelIterator, IntoParallelRefIterator, ParallelIterator};

use crate::cell::Cell;
use crate::game_state::{has_line, GameState};
use crate::grid::{
    empties, lemma_all_empty, lemma_empties_and_occupied, lemma_empties_exact, lemma_mark_empty_cell,
};
use crate::mark::Mark;
use crate::player::Player;

verus! {

/// How many plies the search looks ahead from an empty board; every cell
/// already filled takes one ply off.
pub const DEPTH_LIMIT: i32 = 10;

/// A bound on the size of any score found with `e` empty cells and `depth`
/// plies left: each ply down changes the depth by one and fills one cell.
pub open spec fn score_bound(e: int, depth: int) -> int {
    10 + e + if depth >= 0 {
        depth
    } else {
        -depth
    }
}

/// The value of the board `b` (side `n`) for `to_win`, with `next` to move and
/// `depth` plies left, by plain minimax without pruning.
pub open spec fn search_value(b: Seq<Cell>, n: int, to_win: Mark, next: Mark, depth: int) -> int
    decreases empties(b).len(), 1int, 0int,
{
    if depth == 0 {
        if to_win == next {
            DEPTH_LIMIT as int
        } else {
            -DEPTH_LIMIT
        }
    } else if has_line(b, n, to_win) {
        10 + depth
    } else if has_line(b, n, to_win.opposite()) {
        -depth - 10
    } else if empties(b).len() == 0 {
        0
    } else {
        best_of(b, n, to_win, next, depth, empties(b).len() as int)
    }
}

/// The best value for the side to move over the replies on the first `k`
/// empty cells of `b`: the largest when `next` is `to_win`, else the smallest.
pub open spec fn best_of(b: Seq<Cell>, n: int, to_win: Mark, next: Mark, depth: int, k: int) -> int
    decreases empties(b).len(), 0int, k,
    via best_of_decreases
{
    if k <= 0 || k > empties(b).len() {
        if to_win == next {
            i32::MIN as int
        } else {
            i32::MAX as int
        }
    } else {
        let prev = best_of(b, n, to_win, next, depth, k - 1);
        let v = search_value(
            b.update(empties(b)[k - 1], Cell::Mark(next)),
            n,
            to_win,
            next.opposite(),
            depth - 1,
        );
        if to_win == next {
            if v > prev {
                v
            } else {
                prev
            }
        } else {
            if v < prev {
                v
            } else {
                prev
            }
        }
    }
}

#[via_fn]
proof fn best_of_decreases(b: Seq<Cell>, n: int, to_win: Mark, next: Mark, depth: int, k: int) {
    if 0 < k <= empties(b).len() {
        lemma_empties_exact(b);
        lemma_mark_empty_cell(b, empties(b)[k - 1], next);
    }
}

/// Taking in more replies never makes the best value worse for the side to move.
pub proof fn lemma_best_of_monotone(
    b: Seq<Cell>,
    n: int,
    to_win: Mark,
    next: Mark,
    depth: int,
    i: int,
    j: int,
)
    requires
        0 <= i <= j <= empties(b).len(),
    ensures
        to_win == next ==> best_of(b, n, to_win, next, depth, i) <= best_of(
            b,
            n,
            to_win,
            next,
            depth,
            j,
        ),
        to_win != next ==> best_of(b, n, to_win, next, depth, i) >= best_of(
            b,
            n,
            to_win,
            next,
            depth,
            j,
        ),
    decreases j - i,
{
    if i < j {
        lemma_best_of_monotone(b, n, to_win, next, depth, i, j - 1);
    }
}

/// The value for the mover `m` of putting its mark on `spot`, with `depth`
/// plies left for the replies.
pub open spec fn root_score(b: Seq<Cell>, n: int, m: Mark, spot: int, depth: int) -> int {
    search_value(b.update(spot, Cell::Mark(m)), n, m, m.opposite(), depth)
}

/// The depth left for the replies once `b` has been moved on.
pub open spec fn root_depth(b: Seq<Cell>) -> int {
    DEPTH_LIMIT - (b.len() - empties(b).len())
}

/// The position, among the first `k` empty cells of `b`, of the first one
/// with the highest root score.
pub open spec fn first_best(b: Seq<Cell>, n: int, m: Mark, k: int) -> int
    decreases k,
{
    if k <= 1 {
        0
    } else {
        let j = first_best(b, n, m, k - 1);
        if root_score(b, n, m, empties(b)[k - 1], root_depth(b)) > root_score(
            b,
            n,
            m,
            empties(b)[j],
            root_depth(b),
        ) {
            k - 1
        } else {
            j
        }
    }
}

/// The score of the `i`-th empty cell of `b` for the mover `m`.
pub open spec fn spot_score(b: Seq<Cell>, n: int, m: Mark, i: int) -> int {
    root_score(b, n, m, empties(b)[i], root_depth(b))
}

/// The position picked among the first `k` is a leftmost maximum: no score
/// among the first `k` is higher, and every one before it is strictly lower.
pub proof fn lemma_first_best_is_leftmost_max(b: Seq<Cell>, n: int, m: Mark, k: int)
    requires
        k >= 1,
    ensures
        0 <= first_best(b, n, m, k) < k,
        forall|i: int|
            0 <= i < k ==> #[trigger] spot_score(b, n, m, i) <= spot_score(
                b,
                n,
                m,
                first_best(b, n, m, k),
            ),
        forall|i: int|
            0 <= i < first_best(b, n, m, k) ==> #[trigger] spot_score(b, n, m, i) < spot_score(
                b,
                n,
                m,
                first_best(b, n, m, k),
            ),
    decreases k,
{
    if k > 1 {
        lemma_first_best_is_leftmost_max(b, n, m, k - 1);
    }
}

/// The cell the search picks for `m` on a board that is neither empty nor full.
pub open spec fn chosen_move(b: Seq<Cell>, n: int, m: Mark) -> int {
    empties(b)[first_best(b, n, m, empties(b).len() as int)]
}

/// Relies on rand's `thread_rng().gen_range(0..n)`: some value below `n`.
/// The range must not be empty, or the call panics.
#[verifier::external_body]
fn random_below(n: usize) -> (r: usize)
    requires
        n > 0,
    ensures
        r < n,
{
    rand::thread_rng().gen_range(0..n)
}

/// Relies on rayon's indexed `par_iter().map(..).collect_into_vec(..)` over a
/// `Vec`: one result per spot, each written at its spot's position.
#[verifier::external_body]
fn score_spots(game_state: &GameState, spots: &Vec<usize>, depth: i32) -> (r: Vec<i32>)
    requires
        game_state.wf(),
        forall|k: int|
            0 <= k < spots@.len() ==> #[trigger] spots@[k] < game_state.cells().len()
                && game_state.cells()[spots@[k] as int] == Cell::Empty,
        score_bound(empties(game_state.cells()).len() - 1, depth as int) < i32::MAX,
    ensures
        r@.len() == spots@.len(),
        forall|k: int|
            0 <= k < spots@.len() ==> #[trigger] r@[k] as int == root_score(
                game_state.cells(),
                game_state.side(),
                game_state.turn(),
                spots@[k] as int,
                depth as int,
            ),
{
    let mut scores: Vec<i32> = Vec::new();
    spots.par_iter().map(|spot| AiPlayer::score_spot(game_state, *spot, depth)).collect_into_vec(
        &mut scores,
    );
    scores
}

/// The computer player.
pub struct AiPlayer {
    mark: Mark,
}

impl AiPlayer {
    pub closed spec fn mark(&self) -> Mark {
        self.mark
    }

    pub fn new(mark: Mark) -> (r: AiPlayer)
        ensures
            r.mark() == mark,
    {
        AiPlayer { mark }
    }

    /// The score of the mover putting its mark on the empty cell `spot`, searched
    /// on a copy of the state with `depth` plies left for the replies.
    pub fn score_spot(game_state: &GameState, spot: usize, depth: i32) -> (r: i32)
        requires
            game_state.wf(),
            spot < game_state.cells().len(),
            game_state.cells()[spot as int] == Cell::Empty,
            score_bound(empties(game_state.cells()).len() - 1, depth as int) < i32::MAX,
        ensures
            r == root_score(
                game_state.cells(),
                game_state.side(),
                game_state.turn(),
                spot as int,
                depth as int,
            ),
    {
        let mut state = game_state.duplicate();
        let current = state.current_mark();
        let _ = state.set_cell(spot, current);
        proof {
            lemma_mark_empty_cell(game_state.cells(), spot as int, current);
        }
        Self::minimax(&mut state, current, current.oppiste(), depth, i32::MIN, i32::MAX)
    }

    /// The cell to play for the mark whose turn it is: any cell at random on an
    /// empty board, none on a full one, and otherwise the first empty cell, in
    /// ascending order, with the highest score.
    pub fn best_move(&self, game_state: &GameState) -> (r: Option<usize>)
        requires
            game_state.wf(),
        ensures
            r is None <==> empties(game_state.cells()).len() == 0,
            r matches Some(c) ==> c < game_state.cells().len() && game_state.cells()[c as int]
                == Cell::Empty,
            0 < empties(game_state.cells()).len() < game_state.cells().len() ==> r == Some(
                chosen_move(game_state.cells(), game_state.side(), game_state.turn()) as usize,
            ),
    {
        let ghost b = game_state.cells();
        proof {
            lemma_empties_exact(b);
            lemma_empties_and_occupied(b);
            let n = game_state.side();
            assert(9 <= n * n <= 25) by (nonlinear_arith)
                requires
                    3 <= n <= 5,
            ;
        }
        let spots = game_state.grid().get_empty_indices();
        let total = game_state.grid().grid().len();
        if spots.len() == total {
            let c = random_below(total);
            proof {
                lemma_all_empty(b);
            }
            return Some(c);
        }
        if spots.len() == 0 {
            return None;
        }
        let filled = total - spots.len();
        let depth: i32 = DEPTH_LIMIT - filled as i32;
        assert forall|k: int| 0 <= k < spots@.len() implies #[trigger] spots@[k] < b.len()
            && b[spots@[k] as int] == Cell::Empty by {
            assert(spots@[k] as int == empties(b)[k]);
        }
        let scores = score_spots(game_state, &spots, depth);
        let ghost m = game_state.turn();
        let ghost n = game_state.side();
        let mut best_i: usize = 0;
        let mut i: usize = 1;
        while i < scores.len()
            invariant
                1 <= i <= scores@.len(),
                scores@.len() == spots@.len(),
                spots@.len() == empties(b).len(),
                forall|k: int| 0 <= k < spots@.len() ==> spots@[k] as int == #[trigger] empties(b)[k],
                depth == root_depth(b),
                forall|k: int|
                    0 <= k < spots@.len() ==> #[trigger] scores@[k] as int == root_score(
                        b,
                        n,
                        m,
                        spots@[k] as int,
                        depth as int,
                    ),
                best_i < i,
                best_i == first_best(b, n, m, i as int),
            decreases scores@.len() - i,
        {
            if scores[i] > scores[best_i] {
                best_i = i;
            }
            i += 1;
        }
        Some(spots[best_i])
    }

    /// Minimax with alpha-beta pruning: the value of the state for `to_win`,
    /// with `next` to move and `depth` plies left. A result strictly inside the
    /// window (`alpha`, `beta`) is the exact value; one at or below `alpha` is an
    /// upper bound of it, and one at or above `beta` a lower bound. Every mark
    /// placed during the search is taken back before it returns.
    pub fn minimax(
        game_state: &mut GameState,
        to_win: Mark,
        next: Mark,
        depth: i32,
        alpha: i32,
        beta: i32,
    ) -> (r: i32)
        requires
            old(game_state).wf(),
            alpha < beta,
            score_bound(empties(old(game_state).cells()).len() as int, depth as int) < i32::MAX,
        ensures
            final(game_state).wf(),
            final(game_state).cells() == old(game_state).cells(),
            final(game_state).side() == old(game_state).side(),
            final(game_state).turn() == old(game_state).turn(),
            -score_bound(empties(old(game_state).cells()).len() as int, depth as int) <= r
                <= score_bound(empties(old(game_state).cells()).len() as int, depth as int),
            depth >= 0 ==> -(10 + depth) <= r <= 10 + depth,
            depth == 0 ==> r == (if to_win == next {
                DEPTH_LIMIT as int
            } else {
                -DEPTH_LIMIT
            }),
            depth != 0 && has_line(old(game_state).cells(), old(game_state).side(), to_win) ==> r == 10 + depth,
            depth != 0 && !has_line(old(game_state).cells(), old(game_state).side(), to_win) && has_line(
                old(game_state).cells(),
                old(game_state).side(),
                to_win.opposite(),
            ) ==> r == -depth - 10,
            depth != 0 && !has_line(old(game_state).cells(), old(game_state).side(), to_win) && !has_line(
                old(game_state).cells(),
                old(game_state).side(),
                to_win.opposite(),
            ) && empties(old(game_state).cells()).len() == 0 ==> r == 0,
            alpha < r < beta ==> r == search_value(
                old(game_state).cells(),
                old(game_state).side(),
                to_win,
                next,
                depth as int,
            ),
            r <= alpha ==> search_value(
                old(game_state).cells(),
                old(game_state).side(),
                to_win,
                next,
                depth as int,
            ) <= r,
            r >= beta ==> search_value(
                old(game_state).cells(),
                old(game_state).side(),
                to_win,
                next,
                depth as int,
            ) >= r,
            alpha == i32::MIN && beta == i32::MAX ==> r == search_value(
                old(game_state).cells(),
                old(game_state).side(),
                to_win,
                next,
                depth as int,
            ),
        decreases empties(old(game_state).cells()).len(),
    {
        let ghost b0 = game_state.cells();
        let ghost n0 = game_state.side();
        let ghost t0 = game_state.turn();
        let spots = game_state.grid().get_empty_indices();
        if depth == 0 {
            return if to_win == next {
                DEPTH_LIMIT
            } else {
                -DEPTH_LIMIT
            };
        }
        if game_state.is_winning(to_win) {
            return 10 + depth;
        } else if game_state.is_winning(to_win.oppiste()) {
            return -depth - 10;
        } else if spots.len() == 0 {
            return 0;
        }
        let maximizing = to_win == next;
        let mut best_score: i32 = if maximizing {
            i32::MIN
        } else {
            i32::MAX
        };
        let mut alpha_now = alpha;
        let mut beta_now = beta;
        let mut i: usize = 0;
        proof {
            lemma_empties_exact(b0);
        }
        while i < spots.len()
            invariant
                game_state.wf(),
                game_state.cells() == b0,
                game_state.side() == n0,
                game_state.turn() == t0,
                b0 == old(game_state).cells(),
                n0 == old(game_state).side(),
                t0 == old(game_state).turn(),
                spots@.len() == empties(b0).len(),
                spots@.len() > 0,
                forall|k: int| 0 <= k < spots@.len() ==> spots@[k] as int == #[trigger] empties(b0)[k],
                forall|k: int|
                    0 <= k < empties(b0).len() ==> 0 <= #[trigger] empties(b0)[k] < b0.len() && b0[empties(
                        b0,
                    )[k]] == Cell::Empty,
                score_bound(empties(b0).len() as int, depth as int) < i32::MAX,
                depth != 0,
                search_value(b0, n0, to_win, next, depth as int) == best_of(
                    b0,
                    n0,
                    to_win,
                    next,
                    depth as int,
                    empties(b0).len() as int,
                ),
                alpha < beta,
                0 <= i <= spots@.len(),
                i > 0 ==> -score_bound(empties(b0).len() as int, depth as int) <= best_score
                    <= score_bound(empties(b0).len() as int, depth as int),
                i > 0 && depth >= 0 ==> -(10 + depth) <= best_score <= 10 + depth,
                !has_line(b0, n0, to_win),
                !has_line(b0, n0, to_win.opposite()),
                i == 0 ==> best_score == (if maximizing {
                    i32::MIN
                } else {
                    i32::MAX
                }),
                maximizing == (to_win == next),
                maximizing ==> beta_now == beta && alpha_now == (if alpha > best_score {
                    alpha
                } else {
                    best_score
                }) && alpha_now < beta_now && best_of(b0, n0, to_win, next, depth as int, i as int)
                    <= best_score && (best_score > alpha ==> best_of(
                    b0,
                    n0,
                    to_win,
                    next,
                    depth as int,
                    i as int,
                ) >= best_score),
                !maximizing ==> alpha_now == alpha && beta_now == (if beta < best_score {
                    beta
                } else {
                    best_score
                }) && alpha_now < beta_now && best_of(b0, n0, to_win, next, depth as int, i as int)
                    >= best_score && (best_score < beta ==> best_of(
                    b0,
                    n0,
                    to_win,
                    next,
                    depth as int,
                    i as int,
                ) <= best_score),
            decreases spots@.len() - i,
        {
            let spot = spots[i];
            assert(spot as int == empties(b0)[i as int]);
            assert(b0[spot as int] == Cell::Empty);
            let _ = game_state.set_cell(spot, next);
            proof {
                lemma_mark_empty_cell(b0, spot as int, next);
            }
            assert(game_state.cells() == b0.update(spot as int, Cell::Mark(next)));
            let score = Self::minimax(
                game_state,
                to_win,
                next.oppiste(),
                depth - 1,
                alpha_now,
                beta_now,
            );
            game_state.set_empty(spot);
            proof {
                assert(b0.update(spot as int, Cell::Mark(next)).update(spot as int, Cell::Empty)
                    =~= b0);
            }
            assert(game_state.cells() == b0);
            if maximizing {
                if score > best_score {
                    best_score = score;
                }
                if score > alpha_now {
                    alpha_now = score;
                }
            } else {
                if score < best_score {
                    best_score = score;
                }
                if score < beta_now {
                    beta_now = score;
                }
            }
            if beta_now <= alpha_now {
                proof {
                    lemma_best_of_monotone(
                        b0,
                        n0,
                        to_win,
                        next,
                        depth as int,
                        i + 1,
                        empties(b0).len() as int,
                    );
                }
                return best_score;
            }
            i += 1;
        }
        best_score
    }

    /// Plays the chosen cell with this player's own mark. Fails, changing
    /// nothing, when the board is full.
    pub fn make_move(&self, game_state: &mut GameState) -> (r: Result<(), &'static str>)
        requires
            old(game_state).wf(),
        ensures
            final(game_state).wf(),
            final(game_state).side() == old(game_state).side(),
            final(game_state).turn() == old(game_state).turn(),
            r is Err <==> empties(old(game_state).cells()).len() == 0,
            r is Err ==> final(game_state).cells() == old(game_state).cells(),
            r is Err ==> r == Err::<(), &'static str>("No valid move!"),
            r is Ok ==> exists|c: int|
                0 <= c < old(game_state).cells().len() && #[trigger] old(game_state).cells()[c]
                    == Cell::Empty
                    && final(game_state).cells() == old(game_state).cells().update(
                    c,
                    Cell::Mark(self.mark()),
                ) && (empties(old(game_state).cells()).len() < old(game_state).cells().len()
                    ==> c == chosen_move(
                    old(game_state).cells(),
                    old(game_state).side(),
                    old(game_state).turn(),
                )),
    {
        let cell = self.best_move(game_state);
        proof {
            let b = old(game_state).cells();
            lemma_empties_exact(b);
            lemma_empties_and_occupied(b);
            if 0 < empties(b).len() < b.len() {
                let j = first_best(b, old(game_state).side(), old(game_state).turn(), empties(b).len() as int);
                lemma_first_best_is_leftmost_max(
                    b,
                    old(game_state).side(),
                    old(game_state).turn(),
                    empties(b).len() as int,
                );
                assert(0 <= empties(b)[j] < b.len());
            }
        }
        if let Some(cell) = cell {
            let _ = game_state.set_cell(cell, self.mark);
            let ghost b = old(game_state).cells();
            assert(0 <= cell < b.len() && b[cell as int] == Cell::Empty);
            assert(game_state.cells() == b.update(cell as int, Cell::Mark(self.mark())));
            let ghost ch = chosen_move(b, old(game_state).side(), old(game_state).turn());
            proof {
                if empties(b).len() < b.len() {
                    assert(0 < empties(b).len());
                    assert(0 <= ch < b.len());
                    let n = old(game_state).side();
                    assert(n * n <= 25) by (nonlinear_arith)
                        requires
                            3 <= n <= 5,
                    ;
                    assert(cell as int == ch);
                }
            }
            Ok(())
        } else {
            Err("No valid move!")
        }
    }
}

impl Player for AiPlayer {
    fn get_mark(&self) -> Mark {
        self.mark
    }
}

} // verus!
