//! Breviary (Divine Office) rendering: the canonical hours, access to
//! the Breviary corpus, the text postprocessing of the renderer, and
//! the value types of the per-hour walker.

pub mod horas;
pub mod corpus;
pub mod specials;
pub mod concurrence;
pub mod dirge;
pub mod papal;
pub mod preces;
pub mod proprium;
pub mod psalter;
pub mod oratio;
pub mod postprocess;

pub use horas::Hour;
pub use corpus::{lookup, psalm};
