//! Divinum Officium rubric core: liturgical calendar arithmetic, the
//! rubric/office value types, the kalendar layers, and the text helpers
//! of the office renderer.

use vstd::prelude::*;

pub mod text;
pub mod date;
pub mod kalendaria_layers;
pub mod core_types;
pub mod data_types;
pub mod embed;
pub mod horas;
pub mod office_hour;
pub mod ranks;
pub mod office_day;
pub mod breviary;
pub mod harness;

verus! {
} // verus!
