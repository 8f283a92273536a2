//! Value types of the psalmody.

use vstd::prelude::*;

verus! {

/// One psalm of an hour, ready to render.
#[derive(Debug, Clone)]
pub struct PsalmRendered {
    /// Psalm number (`19`, `50`, `94c`, `109`); `a`/`b`/`c` mark split
    /// psalms.
    pub number: String,
    /// Antiphon body; empty when the psalm is said in directum.
    pub antiphon: String,
    /// Pre-resolved psalm body, if any.
    pub body: Option<String>,
    /// Whether the Gloria Patri follows the psalm.
    pub gloria_patri: bool,
    /// Whether the antiphon is doubled (said in full before and after).
    pub duplex: bool,
}

} // verus!
