//! These are the functions used for reversing a population seed to a world seed(s).
pub mod bridging;
pub mod completeness;
pub mod congruences;
pub mod exactness;
pub mod lifting;
pub mod model;
pub mod population_seed_utils;
pub mod solving;
pub mod soundness;
