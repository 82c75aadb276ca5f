//! Splits shared trip expenses among people by the meals they eat on each
//! day. Amounts are whole cents.
use vstd::prelude::*;

pub mod allocation;
pub mod calc;
pub mod edit;
pub mod laws;
pub mod removal;
pub mod types;

pub use calc::MoekkiCalcApp;
pub use types::{Attendance, Day, Expense, Meal, Person, Servings};

verus! {

} // verus!
