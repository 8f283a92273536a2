//! Value types of first-Vespers concurrence.

use vstd::prelude::*;

verus! {

/// Which office takes Vespers when today and tomorrow have equal rank.
#[derive(Debug, Clone, Copy, PartialEq, Eq, Structural)]
pub enum EqualRankWinner {
    Today,
    Tomorrow,
}

} // verus!
