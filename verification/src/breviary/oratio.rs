//! Value types of the Oratio.

use vstd::prelude::*;

verus! {

/// Parameters of the Oratio section.
#[derive(Debug, Clone, Default)]
pub struct OratioParams {
    /// Set on the Triduum special-conclusion path: no `Per Dominum`.
    pub special: bool,
}

} // verus!
