//! The forward direction: the population seed that a world seed gives at a
//! pair of chunk coordinates.
use crate::lcg::{JAVA_ADDEND, JAVA_MODULUS, JAVA_MULTIPLIER};
use vstd::prelude::*;
use vstd::wrapping::i64_specs;

verus! {

/// The generator state that a seed is turned into before the first step.
pub open spec fn scramble(seed: i64) -> i64 {
    (seed ^ JAVA_MULTIPLIER) & JAVA_MODULUS
}

/// One step of the generator on a 48-bit state.
pub open spec fn next_state(state: i64) -> i64 {
    i64_specs::wrapping_add(i64_specs::wrapping_mul(state, JAVA_MULTIPLIER), JAVA_ADDEND)
        & JAVA_MODULUS
}

/// The 32 bits that a state hands out: its bits 16 to 47, read as signed.
pub open spec fn output(state: i64) -> i32 {
    (state >> 16u64) as i32
}

/// A 64-bit draw from two successive states: the first output shifted up by
/// 32 bits, plus the second, sign and all.
pub open spec fn draw(first: i64, second: i64) -> i64 {
    i64_specs::wrapping_add((output(first) as i64) << 32u64, output(second) as i64)
}

/// The population seed of `world_seed` at the coordinates `x` and `z`: with
/// `a` and `b` the first two 64-bit draws of the generator seeded with
/// `world_seed`, each made odd, it is `(x * a + z * b) ^ world_seed` in
/// wrapping 64-bit arithmetic.
#[verifier::opaque]
pub open spec fn population_seed(world_seed: i64, x: i32, z: i32) -> i64 {
    let s1 = next_state(scramble(world_seed));
    let s2 = next_state(s1);
    let s3 = next_state(s2);
    let s4 = next_state(s3);
    let a = draw(s1, s2) | 1;
    let b = draw(s3, s4) | 1;
    i64_specs::wrapping_add(
        i64_specs::wrapping_mul(x as i64, a),
        i64_specs::wrapping_mul(z as i64, b),
    ) ^ world_seed
}

fn step(state: i64) -> (r: i64)
    ensures
        r == next_state(state),
{
    state.wrapping_mul(JAVA_MULTIPLIER).wrapping_add(JAVA_ADDEND) & JAVA_MODULUS
}

fn draw_from(first: i64, second: i64) -> (r: i64)
    ensures
        r == draw(first, second),
{
    ((((first >> 16u64) as i32) as i64) << 32u64).wrapping_add(((second >> 16u64) as i32) as i64)
}

/// Derives the population seed of a world seed at chunk coordinates.
pub fn set_population_seed(world_seed: i64, x: i32, z: i32) -> (r: i64)
    ensures
        r == population_seed(world_seed, x, z),
{
    proof {
        reveal(population_seed);
    }
    let s1 = step((world_seed ^ JAVA_MULTIPLIER) & JAVA_MODULUS);
    let s2 = step(s1);
    let s3 = step(s2);
    let s4 = step(s3);
    let a = draw_from(s1, s2) | 1;
    let b = draw_from(s3, s4) | 1;
    (x as i64).wrapping_mul(a).wrapping_add((z as i64).wrapping_mul(b)) ^ world_seed
}

/// At the origin the coordinate term is zero, and the population seed is the
/// world seed itself.
pub proof fn lemma_population_seed_at_origin(world_seed: i64)
    ensures
        population_seed(world_seed, 0, 0) == world_seed,
{
    reveal(population_seed);
    assert(0i64 ^ world_seed == world_seed) by (bit_vector);
}

} // verus!
