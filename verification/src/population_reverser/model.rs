//! The population seed in terms of integer arithmetic: what its low 32 bits
//! are, as a function of the generator state that the world seed is turned
//! into.
use crate::chunk_random::{draw, next_state, output, population_seed, scramble};
use crate::lcg::{
    lemma_forward_values, lemma_mask48, spec_forward, JAVA_ADDEND, JAVA_MULTIPLIER, LCG,
};
use crate::math::modular::{
    lemma_add_congruent, lemma_congruent_64_to_48, lemma_mul_congruent, lemma_wrapping_add_mod,
    lemma_wrapping_mul_mod, two48, two64,
};
use crate::math::population_reverser_math::lemma_mask_is_mod;
use vstd::arithmetic::div_mod::lemma_mod_mod;
use vstd::arithmetic::power2::lemma2_to64;
use vstd::prelude::*;
use vstd::wrapping::i64_specs;

verus! {

/// `2^32`.
pub open spec fn two32() -> int {
    0x1_0000_0000
}

/// `2^16`.
pub open spec fn two16() -> int {
    0x1_0000
}

/// The state that a forward map makes of `state`.
pub open spec fn mapped(lcg: LCG, state: int) -> int {
    (lcg.multiplier * state + lcg.addend) % two48()
}

/// The 32 bits that the mapped state hands out: its bits 16 to 47.
pub open spec fn upper(lcg: LCG, state: int) -> int {
    mapped(lcg, state) / two16()
}

/// `u` with its lowest bit set.
pub open spec fn make_odd(u: int) -> int {
    if u % 2 == 0 {
        u + 1
    } else {
        u
    }
}

/// The coordinate term of the population seed, as far as its low 32 bits go:
/// each coordinate times the low half of its draw, made odd.
pub open spec fn coordinate_term(state: int, x: i32, z: i32) -> int {
    x * make_odd(upper(spec_forward(2), state)) + z * make_odd(upper(spec_forward(4), state))
}

/// A seed below `2^48` is scrambled by the exclusive or with the multiplier alone.
pub proof fn lemma_scramble(seed: i64)
    by (bit_vector)
    requires
        0 <= seed < 0x1_0000_0000_0000i64,
    ensures
        (seed ^ 0x5DEECE66Di64) & 0xFFFF_FFFF_FFFFi64 == seed ^ 0x5DEECE66Di64,
        0 <= (seed ^ 0x5DEECE66Di64) < 0x1_0000_0000_0000i64,
{
}

/// A step of the generator is the map of one step.
pub proof fn lemma_next_state(state: i64)
    ensures
        next_state(state) == (JAVA_MULTIPLIER * state + JAVA_ADDEND) % two48(),
        0 <= next_state(state) < two48(),
{
    let product = i64_specs::wrapping_mul(state, JAVA_MULTIPLIER);
    let sum = i64_specs::wrapping_add(product, JAVA_ADDEND);
    lemma_wrapping_mul_mod(state, JAVA_MULTIPLIER);
    lemma_wrapping_add_mod(product, JAVA_ADDEND);
    lemma_add_congruent(
        product as int,
        state * JAVA_MULTIPLIER,
        JAVA_ADDEND as int,
        JAVA_ADDEND as int,
        two64(),
    );
    assert(state * JAVA_MULTIPLIER == JAVA_MULTIPLIER * state) by (nonlinear_arith);
    lemma_congruent_64_to_48(sum as int, JAVA_MULTIPLIER * state + JAVA_ADDEND);
    lemma_mask48(sum);
}

/// Two steps of the generator are the map of two steps.
pub proof fn lemma_two_steps(state: i64)
    ensures
        next_state(next_state(state)) == mapped(spec_forward(2), state as int),
{
    let m = JAVA_MULTIPLIER as int;
    let a = JAVA_ADDEND as int;
    let s = state as int;
    let s1 = next_state(state);
    lemma_next_state(state);
    lemma_next_state(s1);
    lemma_forward_values();
    lemma_mod_twice_48(m * s + a);
    lemma_mul_congruent(m, m, s1 as int, m * s + a, two48());
    lemma_add_congruent(m * s1, m * (m * s + a), a, a, two48());
    assert(m * (m * s + a) + a == (m * m) * s + (m * a + a)) by (nonlinear_arith);
    lemma_mul_congruent(spec_forward(2).multiplier as int, m * m, s, s, two48());
    lemma_add_congruent(
        spec_forward(2).multiplier * s,
        (m * m) * s,
        spec_forward(2).addend as int,
        m * a + a,
        two48(),
    );
}

/// The map of two steps, applied twice, is the map of four steps.
pub proof fn lemma_two_twice(state: int)
    ensures
        mapped(spec_forward(2), mapped(spec_forward(2), state)) == mapped(spec_forward(4), state),
{
    let m = spec_forward(2).multiplier as int;
    let a = spec_forward(2).addend as int;
    let s1 = mapped(spec_forward(2), state);
    lemma_forward_values();
    assert(m * m == 0xBB20B4600A69int * 0xBB20B4600A69int);
    assert(m * a + a == 0xBB20B4600A69int * 0x40942DE6BAint + 0x40942DE6BAint);
    assert((0xBB20B4600A69int * 0xBB20B4600A69int) % two48() == 0x32EB772C5F11);
    assert((0xBB20B4600A69int * 0x40942DE6BAint + 0x40942DE6BAint) % two48()
        == 0x2D3873C4CD04);
    lemma_mod_twice_48(m * state + a);
    lemma_mul_congruent(m, m, s1, m * state + a, two48());
    lemma_add_congruent(m * s1, m * (m * state + a), a, a, two48());
    assert(m * (m * state + a) + a == (m * m) * state + (m * a + a)) by (nonlinear_arith);
    lemma_mul_congruent(spec_forward(4).multiplier as int, m * m, state, state, two48());
    lemma_add_congruent(
        spec_forward(4).multiplier * state,
        (m * m) * state,
        spec_forward(4).addend as int,
        m * a + a,
        two48(),
    );
}

proof fn lemma_mod_twice_48(v: int)
    ensures
        (v % two48()) % two48() == v % two48(),
{
}

/// The low 32 bits of a draw made odd are the output of its second state,
/// made odd.
pub proof fn lemma_draw_low(first: i64, second: i64)
    requires
        0 <= second < two48(),
    ensures
        ((draw(first, second) | 1) as int) % two32() == make_odd((second as int) / two16()),
        0 <= (second as int) / two16() < two32(),
{
    let high = (output(first) as i64) << 32u64;
    let low = output(second) as i64;
    let sum = i64_specs::wrapping_add(high, low);
    let u = (second as int) / two16();
    lemma_wrapping_add_mod(high, low);
    lemma_mod_mod(sum as int, two32(), two32());
    lemma_mod_mod(high + low, two32(), two32());
    lemma_shifted_up(output(first) as i64);
    lemma2_to64();
    lemma_mask_is_mod(high, 32);
    lemma_output_low(second);
    assert((high as int) % two32() == 0);
    assert((low as int) % two32() == u);
    lemma_add_congruent(high as int, 0, low as int, u, two32());
    lemma_low_odd(sum, u);
}

proof fn lemma_shifted_up(value: i64)
    by (bit_vector)
    ensures
        (value << 32u64) & 0xFFFF_FFFFi64 == 0,
{
}

/// The low 32 bits of a value with its lowest bit set.
pub proof fn lemma_low_odd(value: i64, u: int)
    requires
        (value as int) % two32() == u,
    ensures
        ((value | 1) as int) % two32() == make_odd(u),
{
    lemma2_to64();
    lemma_mask_is_mod(value, 32);
    lemma_mask_is_mod(value | 1, 32);
    lemma_or_one_low(value);
    lemma_set_low_bit(value & 0xFFFF_FFFF);
}

proof fn lemma_or_one_low(value: i64)
    by (bit_vector)
    ensures
        (value | 1) & 0xFFFF_FFFFi64 == (value & 0xFFFF_FFFFi64) | 1,
{
}

/// The output of a 48-bit state, read as signed 32 bits, has the low 32 bits
/// of the state shifted down by 16.
pub proof fn lemma_output_low(state: i64)
    requires
        0 <= state < two48(),
    ensures
        ((((state >> 16u64) as i32) as i64) as int) % two32() == (state as int) / two16(),
{
    lemma2_to64();
    lemma_output_bits(state);
    lemma_shift_is_div(state);
    lemma_mask_is_mod(((state >> 16u64) as i32) as i64, 32);
}

proof fn lemma_output_bits(state: i64)
    by (bit_vector)
    requires
        0 <= state < 0x1_0000_0000_0000i64,
    ensures
        (((state >> 16u64) as i32) as i64) & 0xFFFF_FFFFi64 == state >> 16u64,
{
}

/// Shifting a value that is not negative down by 16 bits divides it by `2^16`.
pub proof fn lemma_shift_is_div(value: i64)
    by (bit_vector)
    ensures
        value >= 0 ==> value >> 16u64 == value / 0x1_0000i64,
{
}

/// Setting the lowest bit adds one to an even value and leaves an odd one.
pub proof fn lemma_set_low_bit(value: i64)
    by (bit_vector)
    ensures
        value % 2 == 0 ==> value | 1 == value + 1,
        value % 2 != 0 ==> value | 1 == value,
{
}

/// For a world seed below `2^48`, the low 32 bits of the population seed,
/// with the seed itself taken out again, are those of the coordinate term.
pub proof fn lemma_population_seed_low(world_seed: i64, x: i32, z: i32)
    requires
        0 <= world_seed < two48(),
    ensures
        ((population_seed(world_seed, x, z) ^ world_seed) as int) % two32() == coordinate_term(
            (world_seed ^ JAVA_MULTIPLIER) as int,
            x,
            z,
        ) % two32(),
{
    reveal(population_seed);
    lemma_scramble(world_seed);
    let s0 = scramble(world_seed);
    let s1 = next_state(s0);
    let s2 = next_state(s1);
    let s3 = next_state(s2);
    let s4 = next_state(s3);
    lemma_next_state(s0);
    lemma_next_state(s1);
    lemma_next_state(s2);
    lemma_next_state(s3);
    lemma_two_steps(s0);
    lemma_two_steps(s2);
    lemma_two_twice(s0 as int);
    let a = draw(s1, s2) | 1;
    let b = draw(s3, s4) | 1;
    lemma_draw_low(s1, s2);
    lemma_draw_low(s3, s4);
    let xa = i64_specs::wrapping_mul(x as i64, a);
    let zb = i64_specs::wrapping_mul(z as i64, b);
    let term = i64_specs::wrapping_add(xa, zb);
    lemma_wrapping_mul_mod(x as i64, a);
    lemma_wrapping_mul_mod(z as i64, b);
    lemma_wrapping_add_mod(xa, zb);
    lemma_add_congruent(xa as int, x * a, zb as int, z * b, two64());
    lemma_mod_mod(term as int, two32(), two32());
    lemma_mod_mod(x * a + z * b, two32(), two32());
    let ua = make_odd(upper(spec_forward(2), s0 as int));
    let ub = make_odd(upper(spec_forward(4), s0 as int));
    lemma_mul_congruent(x as int, x as int, a as int, ua, two32());
    lemma_mul_congruent(z as int, z as int, b as int, ub, two32());
    lemma_add_congruent(x * a, x * ua, z * b, z * ub, two32());
    lemma_xor_twice(term, world_seed);
}

/// The exclusive or with the same value twice changes nothing.
pub proof fn lemma_xor_twice(value: i64, other: i64)
    by (bit_vector)
    ensures
        (value ^ other) ^ other == value,
{
}

} // verus!
