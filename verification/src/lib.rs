//! Recovery of 48-bit world seeds from a population seed and chunk coordinates.
//!
//! The crate folds repeated steps of the 48-bit linear congruential generator
//! into single affine maps, and uses those maps to search for every world seed
//! whose population seed at given coordinates is the observed one.
use vstd::prelude::*;

pub mod chunk_random;
pub mod lcg;
pub mod math;
pub mod population_reverser;

verus! {

} // verus!
