//! Lifting a seed bit by bit loses no world seed: the low bits of the
//! population seed depend on the low bits of the world seed alone, 16 bits
//! more of them.
use crate::chunk_random::population_seed;
use crate::lcg::JAVA_MULTIPLIER;
use crate::math::population_reverser_math::{lemma_mask_is_mod, lemma_shl_is_pow2, spec_mask_calc};
use crate::population_reverser::completeness::{is_world_seed, lemma_contains_joined};
use crate::population_reverser::congruences::lemma_term_depends;
use crate::population_reverser::model::{
    coordinate_term, lemma_population_seed_low, lemma_xor_twice, two16, two32,
};
use crate::population_reverser::population_seed_utils::spec_lift;
use vstd::arithmetic::div_mod::lemma_mod_mod;
use vstd::arithmetic::power2::{
    lemma2_to64, lemma2_to64_rest, lemma_pow2_adds, lemma_pow2_pos, lemma_pow2_unfold, pow2,
};
use vstd::prelude::*;

verus! {

/// Seeds that agree in their low bits have states that agree there, and
/// where the exclusive ors of two population seeds with their seeds agree in
/// low bits as well, so do the population seeds.
proof fn lemma_lift_bits(
    value: i64,
    seed: i64,
    first: i64,
    second: i64,
    wide: u64,
    narrow: u64,
)
    by (bit_vector)
    requires
        narrow <= 32,
        wide == narrow + 16,
        value == seed & (((1i64 << wide) - 1) as i64),
    ensures
        (value ^ 0x5DEECE66Di64) & (((1i64 << wide) - 1) as i64) == (seed ^ 0x5DEECE66Di64) & (((
        1i64 << wide) - 1) as i64),
        (first ^ value) & (((1i64 << narrow) - 1) as i64) == (second ^ seed) & (((1i64 << narrow)
            - 1) as i64) ==> first & (((1i64 << narrow) - 1) as i64) == second & (((1i64
            << narrow) - 1) as i64),
{
}

/// The low `bit` bits of the population seed of a seed are those of the
/// population seed of its low `bit + 16` bits.
pub proof fn lemma_lift_check(value: i64, seed: i64, x: i32, z: i32, bit: i32)
    requires
        0 <= seed < 0x1_0000_0000_0000,
        0 <= value < 0x1_0000_0000_0000,
        0 <= bit <= 32,
        value == seed & (((1i64 << ((bit + 16) as u64)) - 1) as i64),
    ensures
        spec_mask_calc(population_seed(value, x, z), bit) == spec_mask_calc(
            population_seed(seed, x, z),
            bit,
        ),
{
    let narrow = bit as nat;
    let wide = (bit + 16) as nat;
    let q = pow2(narrow) as int;
    let w = pow2(wide) as int;
    let rest = pow2((32 - bit) as nat) as int;
    lemma2_to64();
    lemma2_to64_rest();
    lemma_pow2_pos(narrow);
    lemma_pow2_pos((32 - bit) as nat);
    lemma_pow2_adds(16, narrow);
    lemma_pow2_adds(wide, (32 - bit) as nat);
    lemma_pow2_adds(narrow, (32 - bit) as nat);
    assert(w == two16() * q);
    assert((two16() * q) * rest == 0x1_0000_0000_0000);
    assert(q * rest == two32());
    let half = if bit == 0 {
        0
    } else {
        pow2((bit - 1) as nat) as int
    };
    if bit > 0 {
        lemma_pow2_unfold(narrow);
        lemma_pow2_pos((bit - 1) as nat);
    }
    let first = population_seed(value, x, z);
    let second = population_seed(seed, x, z);
    let state_v = value ^ JAVA_MULTIPLIER;
    let state_w = seed ^ JAVA_MULTIPLIER;
    lemma_shl_is_pow2(bit);
    lemma_shl_is_pow2((bit + 16) as i32);
    lemma_lift_bits(value, seed, first, second, (bit + 16) as u64, bit as u64);
    lemma_mask_is_mod(state_v, (bit + 16) as i32);
    lemma_mask_is_mod(state_w, (bit + 16) as i32);
    assert((state_v as int) % (two16() * q) == (state_w as int) % (two16() * q));
    lemma_term_depends(state_v as int, state_w as int, x, z, q, half, rest);
    lemma_population_seed_low(value, x, z);
    lemma_population_seed_low(seed, x, z);
    let mixed_v = first ^ value;
    let mixed_w = second ^ seed;
    lemma_mod_mod(mixed_v as int, q, rest);
    lemma_mod_mod(mixed_w as int, q, rest);
    lemma_mod_mod(coordinate_term(state_v as int, x, z), q, rest);
    lemma_mod_mod(coordinate_term(state_w as int, x, z), q, rest);
    assert((mixed_v as int) % q == (mixed_w as int) % q);
    lemma_mask_is_mod(mixed_v, bit);
    lemma_mask_is_mod(mixed_w, bit);
    lemma_xor_twice(first, value);
    lemma_xor_twice(second, seed);
    lemma_mask_is_mod(first, bit);
    lemma_mask_is_mod(second, bit);
}

/// One more bit of a seed is a zero or a one above the bits before it.
proof fn lemma_next_bit(value: i64, seed: i64, wide: u64, next: u64)
    by (bit_vector)
    requires
        0 <= seed < 0x1_0000_0000_0000i64,
        wide < 48,
        next == wide + 1,
        value == seed & (((1i64 << wide) - 1) as i64),
    ensures
        seed & (((1i64 << next) - 1) as i64) == value || seed & (((1i64 << next) - 1) as i64)
            == value | (1i64 << wide),
        0 <= value < 0x1_0000_0000_0000i64,
        0 <= (value | (1i64 << wide)) < 0x1_0000_0000_0000i64,
{
}

/// All 48 low bits of a seed below `2^48` are the seed.
proof fn lemma_all_bits(seed: i64)
    by (bit_vector)
    requires
        0 <= seed < 0x1_0000_0000_0000i64,
    ensures
        seed & (((1i64 << 48u64) - 1) as i64) == seed,
{
}

/// Lifting from the low `bit + 16` bits of a world seed comes to that seed.
pub proof fn lemma_lift_complete(
    value: i64,
    bit: i32,
    seed: i64,
    population: i64,
    x: i32,
    z: i32,
)
    requires
        is_world_seed(seed, population, x, z),
        0 <= bit <= 32,
        value == seed & (((1i64 << ((bit + 16) as u64)) - 1) as i64),
    ensures
        spec_lift(value, bit, population, 32, 16, x, z).contains(seed),
    decreases 32 - bit,
{
    if bit >= 32 {
        lemma_all_bits(seed);
        assert(seq![value][0] == seed);
    } else {
        lemma_next_bit(value, seed, (bit + 16) as u64, (bit + 17) as u64);
        lemma_lift_check(value, seed, x, z, bit);
        let raised = value | (1i64 << (bit + 16));
        let lower = spec_lift(value, (bit + 1) as i32, population, 32, 16, x, z);
        let upper = spec_lift(raised, (bit + 1) as i32, population, 32, 16, x, z);
        if seed & (((1i64 << ((bit + 17) as u64)) - 1) as i64) == value {
            lemma_lift_complete(value, (bit + 1) as i32, seed, population, x, z);
        } else {
            lemma_lift_complete(raised, (bit + 1) as i32, seed, population, x, z);
        }
        lemma_contains_joined(lower, upper, seed);
    }
}

} // verus!
