use vstd::prelude::*;

use crate::cell::Cell;
use crate::mark::Mark;

verus! {

/// The indices of the empty cells of `b`, in ascending order.
pub open spec fn empties(b: Seq<Cell>) -> Seq<int>
    decreases b.len(),
{
    if b.len() == 0 {
        seq![]
    } else if b.last() == Cell::Empty {
        empties(b.drop_last()).push(b.len() - 1)
    } else {
        empties(b.drop_last())
    }
}

/// How many cells of `b` hold a mark.
pub open spec fn occupied_count(b: Seq<Cell>) -> nat
    decreases b.len(),
{
    if b.len() == 0 {
        0
    } else if b.last() == Cell::Empty {
        occupied_count(b.drop_last())
    } else {
        occupied_count(b.drop_last()) + 1
    }
}

/// Every listed index is in range and names an empty cell, the list ascends,
/// and every empty cell is listed.
pub proof fn lemma_empties_exact(b: Seq<Cell>)
    ensures
        forall|k: int|
            0 <= k < empties(b).len() ==> 0 <= #[trigger] empties(b)[k] < b.len() && b[empties(
                b,
            )[k]] == Cell::Empty,
        forall|j: int, k: int|
            0 <= j < k < empties(b).len() ==> #[trigger] empties(b)[j] < #[trigger] empties(b)[k],
        forall|i: int| 0 <= i < b.len() && b[i] == Cell::Empty ==> empties(b).contains(i),
    decreases b.len(),
{
    if b.len() > 0 {
        let p = b.drop_last();
        lemma_empties_exact(p);
        assert forall|i: int| 0 <= i < b.len() && b[i] == Cell::Empty implies empties(b).contains(
            i,
        ) by {
            if i < b.len() - 1 {
                assert(p[i] == b[i]);
                let k = choose|k: int| 0 <= k < empties(p).len() && empties(p)[k] == i;
                assert(empties(b)[k] == i);
            } else {
                assert(empties(b)[empties(b).len() - 1] == i);
            }
        }
    }
}

/// The empty cells and the occupied ones together make up the board.
pub proof fn lemma_empties_and_occupied(b: Seq<Cell>)
    ensures
        empties(b).len() + occupied_count(b) == b.len(),
    decreases b.len(),
{
    if b.len() > 0 {
        lemma_empties_and_occupied(b.drop_last());
    }
}

/// A board with as many empty cells as cells has no mark on it.
pub proof fn lemma_all_empty(b: Seq<Cell>)
    requires
        empties(b).len() == b.len(),
    ensures
        forall|i: int| 0 <= i < b.len() ==> b[i] == Cell::Empty,
    decreases b.len(),
{
    if b.len() > 0 {
        let p = b.drop_last();
        lemma_empties_and_occupied(p);
        if b.last() != Cell::Empty {
            assert(empties(b).len() <= p.len());
        }
        lemma_all_empty(p);
        assert forall|i: int| 0 <= i < b.len() implies b[i] == Cell::Empty by {
            if i < p.len() {
                assert(p[i] == b[i]);
            }
        }
    }
}

/// Marking an empty cell removes exactly one entry from the list of empty cells.
pub proof fn lemma_mark_empty_cell(b: Seq<Cell>, p: int, m: Mark)
    requires
        0 <= p < b.len(),
        b[p] == Cell::Empty,
    ensures
        empties(b.update(p, Cell::Mark(m))).len() == empties(b).len() - 1,
    decreases b.len(),
{
    let u = b.update(p, Cell::Mark(m));
    if p == b.len() - 1 {
        assert(u.drop_last() =~= b.drop_last());
    } else {
        assert(u.drop_last() =~= b.drop_last().update(p, Cell::Mark(m)));
        lemma_mark_empty_cell(b.drop_last(), p, m);
    }
}

/// Marking an empty cell and then clearing it gives back the board it started
/// from: that cell is empty again and no other cell has changed.
pub proof fn lemma_set_then_clear(b: Seq<Cell>, i: int, m: Mark)
    requires
        0 <= i < b.len(),
        b[i] == Cell::Empty,
    ensures
        b.update(i, Cell::Mark(m)).update(i, Cell::Empty) == b,
{
    assert(b.update(i, Cell::Mark(m)).update(i, Cell::Empty) =~= b);
}

/// A square board, stored row by row: the cell of row `r` and column `c` is at
/// index `r * size + c`.
#[derive(Clone, Debug)]
pub struct Grid {
    map: Vec<Cell>,
    size: usize,
}

impl Grid {
    /// The cells, row by row.
    pub closed spec fn cells(&self) -> Seq<Cell> {
        self.map@
    }

    /// The length of a side.
    pub closed spec fn side(&self) -> nat {
        self.size as nat
    }

    pub open spec fn wf(&self) -> bool {
        &&& 3 <= self.side() <= 5
        &&& self.cells().len() == self.side() * self.side()
    }

    /// On a board of any size the empty cells and the occupied ones add up to
    /// the square of its side.
    pub proof fn lemma_counts(&self)
        requires
            self.wf(),
        ensures
            empties(self.cells()).len() + occupied_count(self.cells()) == self.side()
                * self.side(),
    {
        lemma_empties_and_occupied(self.cells());
    }

    pub fn new(map_size: usize) -> (r: Grid)
        requires
            3 <= map_size <= 5,
        ensures
            r.wf(),
            r.side() == map_size,
            r.cells() =~= Seq::new((map_size * map_size) as nat, |i: int| Cell::Empty),
    {
        assert(map_size * map_size <= 25) by (nonlinear_arith)
            requires
                map_size <= 5,
        ;
        let n: usize = map_size * map_size;
        let mut map: Vec<Cell> = Vec::new();
        let mut i: usize = 0;
        while i < n
            invariant
                i <= n,
                map@ =~= Seq::new(i as nat, |k: int| Cell::Empty),
            decreases n - i,
        {
            map.push(Cell::Empty);
            i += 1;
        }
        Grid { map, size: map_size }
    }

    pub fn grid(&self) -> (r: &[Cell])
        ensures
            r@ == self.cells(),
    {
        self.map.as_slice()
    }

    pub fn size(&self) -> (r: usize)
        ensures
            r == self.side(),
    {
        self.size
    }

    /// A cell-for-cell copy.
    pub fn duplicate(&self) -> (r: Grid)
        ensures
            r.cells() == self.cells(),
            r.side() == self.side(),
    {
        let mut map: Vec<Cell> = Vec::new();
        let mut i: usize = 0;
        while i < self.map.len()
            invariant
                i <= self.map@.len(),
                map@ =~= self.map@.subrange(0, i as int),
            decreases self.map@.len() - i,
        {
            map.push(self.map[i]);
            i += 1;
        }
        assert(map@ =~= self.map@);
        Grid { map, size: self.size }
    }

    /// Puts `mark` on `cell` if that cell is empty; an occupied cell is left
    /// as it is and the call fails.
    pub fn set_cell(&mut self, cell: usize, mark: Mark) -> (r: Result<(), &'static str>)
        requires
            old(self).wf(),
            cell < old(self).cells().len(),
        ensures
            final(self).wf(),
            final(self).side() == old(self).side(),
            r is Ok <==> old(self).cells()[cell as int] == Cell::Empty,
            r is Ok ==> final(self).cells() == old(self).cells().update(
                cell as int,
                Cell::Mark(mark),
            ),
            r is Err ==> final(self).cells() == old(self).cells(),
            r is Err ==> r == Err::<(), &'static str>("It's not an empty cell"),
    {
        match self.map[cell] {
            Cell::Empty => {
                self.map.set(cell, Cell::Mark(mark));
                Ok(())
            },
            Cell::Mark(_) => Err("It's not an empty cell"),
        }
    }

    /// Makes `cell` empty again, whatever it held.
    pub fn set_empty(&mut self, cell: usize)
        requires
            old(self).wf(),
            cell < old(self).cells().len(),
        ensures
            final(self).wf(),
            final(self).side() == old(self).side(),
            final(self).cells() == old(self).cells().update(cell as int, Cell::Empty),
    {
        self.map.set(cell, Cell::Empty);
    }

    /// The indices of the empty cells, ascending.
    pub fn get_empty_indices(&self) -> (r: Vec<usize>)
        ensures
            r@.len() == empties(self.cells()).len(),
            forall|k: int| 0 <= k < r@.len() ==> r@[k] as int == #[trigger] empties(self.cells())[k],
    {
        let mut r: Vec<usize> = Vec::new();
        let mut i: usize = 0;
        while i < self.map.len()
            invariant
                i <= self.map@.len(),
                r@.len() == empties(self.map@.subrange(0, i as int)).len(),
                forall|k: int|
                    0 <= k < r@.len() ==> r@[k] as int == #[trigger] empties(
                        self.map@.subrange(0, i as int),
                    )[k],
            decreases self.map@.len() - i,
        {
            let ghost before = self.map@.subrange(0, i as int);
            assert(self.map@.subrange(0, i + 1).drop_last() =~= before);
            if let Cell::Empty = self.map[i] {
                r.push(i);
            }
            i += 1;
        }
        assert(self.map@.subrange(0, self.map@.len() as int) =~= self.map@);
        r
    }
}

} // verus!
