use vstd::prelude::*;

verus! {

/// The symbol of one of the two players.
#[derive(Clone, Copy, Debug, PartialEq, Eq, Structural)]
pub enum Mark {
    X,
    O,
}

impl Mark {
    /// The other player's mark.
    pub open spec fn opposite(self) -> Mark {
        match self {
            Mark::X => Mark::O,
            Mark::O => Mark::X,
        }
    }

    pub fn oppiste(&self) -> (r: Mark)
        ensures
            r == self.opposite(),
            r != *self,
            r.opposite() == *self,
    {
        match self {
            Mark::O => Mark::X,
            Mark::X => Mark::O,
        }
    }
}

} // verus!
