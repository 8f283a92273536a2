//! Value types of proper-section resolution.

use vstd::prelude::*;

verus! {

/// A resolved proper section.
#[derive(Debug, Clone)]
pub struct ProperResolution {
    /// The resolved body.
    pub body: String,
    /// Which fallback level produced the body.
    pub source: ProperSource,
    /// The key of the source file.
    pub source_key: String,
}

/// The fallback level a proper section came from.
#[derive(Debug, Clone, Copy, PartialEq, Eq, Structural)]
pub enum ProperSource {
    /// Proper to the day's winner.
    Winner,
    /// From the Commune.
    Commune,
    /// Seasonal fallback from the Tempora.
    Tempora,
    /// From `Psalterium/Special`.
    PsalteriumSpecial,
    /// Absent from every fallback.
    Empty,
}

} // verus!
