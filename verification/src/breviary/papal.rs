//! Value types of the papal commons.

use vstd::prelude::*;

verus! {

/// The class of a papal office.
#[derive(Debug, Clone, Copy, PartialEq, Eq, Structural)]
pub enum PapalClass {
    /// Pope.
    Pope,
    /// Confessor and Pope.
    Confessor,
    /// Martyr and Pope.
    Martyr,
    /// Doctor and Pope.
    Doctor,
}

} // verus!
