use vstd::prelude::*;

use crate::mark::Mark;

verus! {

/// One square of the board: empty, or holding a player's mark.
#[derive(Clone, Copy, Debug, PartialEq, Eq, Structural)]
pub enum Cell {
    Empty,
    Mark(Mark),
}

} // verus!
