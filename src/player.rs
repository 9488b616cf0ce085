use vstd::prelude::*;

use crate::mark::Mark;

verus! {

/// What every kind of player shares: the mark it plays with.
pub trait Player {
    fn get_mark(&self) -> Mark;
}

} // verus!
