//! An Artificial Bee Colony optimizer: a population of candidate solutions
//! ("food sources") is improved by employed, onlooker and scout phases, with
//! fitness-proportional selection coupling them.
//!
//! Real quantities (positions, objective values, fitness, probabilities) are
//! carried as fixed-point integers so that every step of the engine can be
//! stated and proved exactly; see the `fixed` module for the representation.

use vstd::prelude::*;

pub mod bees;
pub mod fixed;
pub mod func;
pub mod utils;

verus! {

/// A failure of the colony engine. `Configuration` is reported at
/// construction for a colony that could not run (population too small, zero
/// dimension or abandonment limit, bad resample bounds); `Numeric` is
/// reported wherever an objective value or a candidate position leaves the
/// representable range, the fixed-point analogue of an objective returning
/// NaN or an infinity.
#[derive(Clone, Copy, Debug, PartialEq, Eq, Structural)]
pub enum AbcError {
    Configuration,
    Numeric,
}

} // verus!
