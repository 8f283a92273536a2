//! Value types of the Preces.

use vstd::prelude::*;

verus! {

/// Which Preces an hour says.
#[derive(Debug, Clone, Copy, PartialEq, Eq, Structural)]
pub enum PrecesKind {
    /// No preces: the section is omitted.
    NoPreces,
    /// Preces Feriales.
    Feriales,
    /// Preces Dominicales.
    Dominicales,
}

} // verus!
