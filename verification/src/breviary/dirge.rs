//! Value types of the Office of the Dead appended to an hour.

use vstd::prelude::*;

verus! {

/// Which Office of the Dead follows the day's hour, if any.
#[derive(Debug, Clone, Copy, PartialEq, Eq, Structural)]
pub enum DirgeKind {
    /// No Office of the Dead.
    NoDirge,
    /// Vesperae Defunctorum after Vespera.
    VesperaeDefunctorum,
    /// Officium Defunctorum after Laudes.
    OfficiumDefunctorum,
}

} // verus!
