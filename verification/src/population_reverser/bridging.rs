//! From the bit operations of the search to the integer arithmetic of the
//! congruences.
use crate::lcg::{lemma_forward_values, lemma_mask48, spec_forward, JAVA_MULTIPLIER, LCG};
use crate::math::modular::{
    lemma_add_congruent, lemma_congruent_64_to_48, lemma_mul_congruent, lemma_wrapping_add_mod,
    lemma_wrapping_mul_mod, two48, two64,
};
use crate::math::population_reverser_math::lemma_mask_is_mod;
use crate::population_reverser::congruences::factor;
use crate::population_reverser::model::{
    coordinate_term, lemma_low_odd, lemma_output_low, lemma_shift_is_div, make_odd, mapped, two16,
    two32, upper,
};
use crate::math::{scrambled_low, spec_term};
use crate::population_reverser::population_seed_utils::{
    lemma_free_bits_small, push_new, spec_first_mult, spec_free_bits, spec_offsets,
    spec_partial_addend,
};
use crate::population_reverser::solving::lemma_trailing_zeros_divides;
use vstd::arithmetic::power2::{lemma_pow2_pos, pow2};
use vstd::arithmetic::div_mod::lemma_mod_mod;
use vstd::arithmetic::power2::lemma2_to64;
use vstd::prelude::*;
use vstd::wrapping::{i32_specs, i64_specs};

verus! {

/// A forward map in wrapping arithmetic, cut to 48 bits, is the map on the
/// integers modulo `2^48`.
pub proof fn lemma_mapped_wrapping(lcg: LCG, state: i64)
    ensures
        i64_specs::wrapping_add(i64_specs::wrapping_mul(lcg.multiplier, state), lcg.addend)
            & 0xFFFF_FFFF_FFFF == mapped(lcg, state as int),
        (i64_specs::wrapping_add(i64_specs::wrapping_mul(lcg.multiplier, state), lcg.addend)
            as int) % two64() == (lcg.multiplier * state + lcg.addend) % two64(),
        0 <= mapped(lcg, state as int) < two48(),
{
    let product = i64_specs::wrapping_mul(lcg.multiplier, state);
    let sum = i64_specs::wrapping_add(product, lcg.addend);
    lemma_wrapping_mul_mod(lcg.multiplier, state);
    lemma_wrapping_add_mod(product, lcg.addend);
    lemma_add_congruent(
        product as int,
        lcg.multiplier * state,
        lcg.addend as int,
        lcg.addend as int,
        two64(),
    );
    lemma_congruent_64_to_48(sum as int, lcg.multiplier * state + lcg.addend);
    lemma_mask48(sum);
}

/// The low 32 bits of a coordinate term in wrapping arithmetic depend on the
/// low 32 bits of the two draws alone.
pub proof fn lemma_term_low(x: i32, a: i64, z: i32, b: i64, ua: int, ub: int)
    requires
        (a as int) % two32() == ua % two32(),
        (b as int) % two32() == ub % two32(),
    ensures
        (i64_specs::wrapping_add(
            i64_specs::wrapping_mul(x as i64, a),
            i64_specs::wrapping_mul(z as i64, b),
        ) as int) % two32() == (x * ua + z * ub) % two32(),
{
    let xa = i64_specs::wrapping_mul(x as i64, a);
    let zb = i64_specs::wrapping_mul(z as i64, b);
    let term = i64_specs::wrapping_add(xa, zb);
    lemma_wrapping_mul_mod(x as i64, a);
    lemma_wrapping_mul_mod(z as i64, b);
    lemma_wrapping_add_mod(xa, zb);
    lemma_add_congruent(xa as int, x * a, zb as int, z * b, two64());
    lemma_mod_mod(term as int, two32(), two32());
    lemma_mod_mod(x * a + z * b, two32(), two32());
    lemma_mul_congruent(x as int, x as int, a as int, ua, two32());
    lemma_mul_congruent(z as int, z as int, b as int, ub, two32());
    lemma_add_congruent(x * a, x * ua, z * b, z * ub, two32());
}

/// What the search takes for the top congruence from the low 32 bits `k` of
/// a seed is the upper half of the low 32 bits of the coordinate term of the
/// low 32 bits of the state.
pub proof fn lemma_partial_addend(k: i64, x: i32, z: i32)
    ensures
        (spec_partial_addend(k, x, z) & 0xFFFF) as int == (coordinate_term(
            ((k ^ JAVA_MULTIPLIER) & 0xFFFF_FFFF) as int,
            x,
            z,
        ) % two32()) / two16(),
{
    reveal(spec_partial_addend);
    lemma_forward_values();
    let low = (k ^ JAVA_MULTIPLIER) & 0xFFFF_FFFF;
    let second = spec_forward(2);
    let fourth = spec_forward(4);
    let s2 = i64_specs::wrapping_add(i64_specs::wrapping_mul(second.multiplier, low), second.addend)
        & 0xFFFF_FFFF_FFFF;
    let s4 = i64_specs::wrapping_add(i64_specs::wrapping_mul(fourth.multiplier, low), fourth.addend)
        & 0xFFFF_FFFF_FFFF;
    lemma_mapped_wrapping(second, low);
    lemma_mapped_wrapping(fourth, low);
    let a = ((s2 >> 16u64) as i32) as i64;
    let b = ((s4 >> 16u64) as i32) as i64;
    lemma_output_low(s2);
    lemma_output_low(s4);
    lemma_low_odd(a, upper(second, low as int));
    lemma_low_odd(b, upper(fourth, low as int));
    let ua = make_odd(upper(second, low as int));
    let ub = make_odd(upper(fourth, low as int));
    lemma_term_low(x, a | 1, z, b | 1, ua, ub);
    let term = i64_specs::wrapping_add(
        i64_specs::wrapping_mul(x as i64, a | 1),
        i64_specs::wrapping_mul(z as i64, b | 1),
    );
    lemma_upper_half_bits(term);
    lemma2_to64();
    lemma_mask_is_mod(term, 32);
    lemma_shift_is_div(term & 0xFFFF_FFFF);
}

/// The second 16 bits of a value are the upper half of its low 32 bits.
pub proof fn lemma_upper_half_bits(value: i64)
    by (bit_vector)
    ensures
        (value >> 16u64) & 0xFFFFi64 == (value & 0xFFFF_FFFFi64) >> 16u64,
        0 <= value & 0xFFFF_FFFFi64,
{
}

/// The factor that the search computes is the factor over the integers,
/// modulo `2^16`.
pub proof fn lemma_first_mult_is_factor(x: i32, z: i32)
    ensures
        spec_first_mult(x, z) == factor(x, z) % two16(),
{
    reveal(spec_first_mult);
    let second = spec_forward(2);
    let fourth = spec_forward(4);
    let mx = i64_specs::wrapping_mul(second.multiplier, x as i64);
    let mz = i64_specs::wrapping_mul(fourth.multiplier, z as i64);
    let sum = i64_specs::wrapping_add(mx, mz);
    lemma_wrapping_mul_mod(second.multiplier, x as i64);
    lemma_wrapping_mul_mod(fourth.multiplier, z as i64);
    lemma_wrapping_add_mod(mx, mz);
    lemma_add_congruent(
        mx as int,
        second.multiplier * x,
        mz as int,
        fourth.multiplier * z,
        two64(),
    );
    lemma_mod_mod(sum as int, two16(), 0x1_0000_0000_0000);
    lemma_mod_mod(factor(x, z), two16(), 0x1_0000_0000_0000);
    lemma2_to64();
    lemma_mask_is_mod(sum, 16);
}

/// A seed below `2^48` is made of its top 16 bits, its middle 16 bits and
/// its low 16 bits.
pub proof fn lemma_seed_parts(seed: i64)
    by (bit_vector)
    requires
        0 <= seed < 0x1_0000_0000_0000i64,
    ensures
        0 <= (seed >> 32u64) < 0x1_0000i64,
        0 <= ((seed >> 16u64) & 0xFFFFi64) < 0x1_0000i64,
        0 <= (seed & 0xFFFFi64) < 0x1_0000i64,
        (((seed >> 16u64) & 0xFFFFi64) << 16u64) + (seed & 0xFFFFi64) == seed & 0xFFFF_FFFFi64,
        ((seed >> 32u64) << 32u64) + (seed & 0xFFFF_FFFFi64) == seed,
{
}

/// The state of a seed below `2^48`, split at bit 32: its low 32 bits come
/// from the low 32 bits of the seed, its top 16 bits from the top 16 bits.
pub proof fn lemma_state_parts_32(seed: i64)
    by (bit_vector)
    requires
        0 <= seed < 0x1_0000_0000_0000i64,
    ensures
        (seed ^ 0x5DEECE66Di64) & 0xFFFF_FFFFi64 == ((seed & 0xFFFF_FFFFi64) ^ 0x5DEECE66Di64)
            & 0xFFFF_FFFFi64,
        (seed ^ 0x5DEECE66Di64) >> 32u64 == ((seed >> 32u64) ^ (0x5DEECE66Di64 >> 32u64))
            & 0xFFFFi64,
        0 <= (seed ^ 0x5DEECE66Di64) >> 32u64 < 0x1_0000i64,
        ((seed ^ 0x5DEECE66Di64) & 0xFFFF_FFFFi64) + 0x1_0000_0000i64 * ((seed ^ 0x5DEECE66Di64)
            >> 32u64) == seed ^ 0x5DEECE66Di64,
{
}

/// The state of a seed below `2^48`, split at bit 16.
pub proof fn lemma_state_parts_16(seed: i64)
    by (bit_vector)
    requires
        0 <= seed < 0x1_0000_0000_0000i64,
    ensures
        (seed ^ 0x5DEECE66Di64) & 0xFFFFi64 == ((seed & 0xFFFFi64) ^ 0x5DEECE66Di64) & 0xFFFFi64,
        ((seed ^ 0x5DEECE66Di64) >> 16u64) & 0xFFFFi64 == (((seed >> 16u64) & 0xFFFFi64) ^ (
        0x5DEECE66Di64 >> 16u64)) & 0xFFFFi64,
        0 <= (seed ^ 0x5DEECE66Di64) >> 16u64 < 0x1_0000_0000i64,
        ((seed ^ 0x5DEECE66Di64) & 0xFFFFi64) + 0x1_0000i64 * ((seed ^ 0x5DEECE66Di64) >> 16u64)
            == seed ^ 0x5DEECE66Di64,
{
}

/// The low bits of the exclusive or of the population seed and the seed, as
/// the search reads them.
pub proof fn lemma_target_bits(population: i64, seed: i64)
    by (bit_vector)
    ensures
        ((seed & 0xFFFF_FFFFi64) ^ (population & 0xFFFF_FFFFi64)) >> 16u64 == ((population ^ seed)
            & 0xFFFF_FFFFi64) >> 16u64,
        ((seed & 0xFFFFi64) ^ (population & 0xFFFFi64)) & 0xFFFFi64 == (population ^ seed)
            & 0xFFFFi64,
        0 <= ((population ^ seed) & 0xFFFF_FFFFi64) >> 16u64 < 0x1_0000i64,
        0 <= (population ^ seed) & 0xFFFF_FFFFi64,
        0 <= (population ^ seed) & 0xFFFFi64 < 0x1_0000i64,
{
}

/// An entry of a table of terms has the low 32 bits of the output that the
/// map gives for the scrambled low 16 bits alone.
pub proof fn lemma_term_entry(lcg: LCG, low: i64)
    ensures
        (spec_term(lcg, low) as int) % two32() == upper(lcg, scrambled_low(low) as int),
        0 <= scrambled_low(low) < two16(),
{
    let state = scrambled_low(low);
    let sum = i64_specs::wrapping_add(i64_specs::wrapping_mul(lcg.multiplier, state), lcg.addend);
    lemma_mapped_wrapping(lcg, state);
    lemma_entry_bits(sum, low ^ spec_forward(1).multiplier);
    lemma_shift_is_div(sum & 0xFFFF_FFFF_FFFF);
    lemma2_to64();
    lemma_mask_is_mod(((sum >> 16u64) as i32) as i64, 32);
    lemma_i32_as_int(spec_term(lcg, low));
}

proof fn lemma_entry_bits(sum: i64, mixed: i64)
    by (bit_vector)
    ensures
        (((sum >> 16u64) as i32) as i64) & 0xFFFF_FFFFi64 == (sum & 0xFFFF_FFFF_FFFFi64) >> 16u64,
        0 <= sum & 0xFFFF_FFFF_FFFFi64,
        0 <= mixed & 0xFFFFi64 < 0x1_0000i64,
{
}

/// A signed 32-bit value and its 64-bit copy are the same number.
proof fn lemma_i32_as_int(value: i32)
    ensures
        (value as i64) as int == value as int,
{
}

/// A wrapping 32-bit sum of products agrees with the exact one modulo `2^32`.
pub proof fn lemma_magic(x: i32, a: i32, z: i32, b: i32, ua: int, ub: int)
    requires
        (a as int) % two32() == ua % two32(),
        (b as int) % two32() == ub % two32(),
    ensures
        (i32_specs::wrapping_add(i32_specs::wrapping_mul(x, a), i32_specs::wrapping_mul(z, b))
            as int) % two32() == (x * ua + z * ub) % two32(),
{
    let xa = i32_specs::wrapping_mul(x, a);
    let zb = i32_specs::wrapping_mul(z, b);
    let e1 = (x * a) % two32();
    let e2 = (z * b) % two32();
    assert(0 <= e1 < two32() && 0 <= e2 < two32());
    assert((xa as int) % two32() == e1);
    assert((zb as int) % two32() == e2);
    lemma_add_congruent(xa as int, x * a, zb as int, z * b, two32());
    lemma_mul_congruent(x as int, x as int, a as int, ua, two32());
    lemma_mul_congruent(z as int, z as int, b as int, ub, two32());
    lemma_add_congruent(x * a, x * ua, z * b, z * ub, two32());
}

/// The carries that the search tries are `0`, `z`, `x` and `x + z`.
pub proof fn lemma_offsets_hold(x: i32, z: i32)
    ensures
        spec_offsets(x, z).contains(0),
        spec_offsets(x, z).contains(z),
        spec_offsets(x, z).contains(x),
        spec_offsets(x, z).contains(i32_specs::wrapping_add(x, z)),
{
    let first = seq![0i32];
    assert(first[0] == 0);
    let second = push_new(first, z);
    lemma_push_new_holds(first, z, 0);
    let third = push_new(second, x);
    lemma_push_new_holds(second, x, 0);
    lemma_push_new_holds(second, x, z);
    let all = push_new(third, i32_specs::wrapping_add(x, z));
    lemma_push_new_holds(third, i32_specs::wrapping_add(x, z), 0);
    lemma_push_new_holds(third, i32_specs::wrapping_add(x, z), z);
    lemma_push_new_holds(third, i32_specs::wrapping_add(x, z), x);
}

/// Adding a value keeps what was there, and the value is there afterwards.
proof fn lemma_push_new_holds(s: Seq<i32>, value: i32, kept: i32)
    requires
        s.contains(kept),
    ensures
        push_new(s, value).contains(kept),
        push_new(s, value).contains(value),
{
    if !s.contains(value) {
        let i = choose|i: int| 0 <= i < s.len() && s[i] == kept;
        assert(s.push(value)[i] == kept);
        assert(s.push(value)[s.len() as int] == value);
    }
}

/// Coordinates that are not both zero are both multiples of two to the
/// number of their free bits, which is below 32.
pub proof fn lemma_coordinates_divide(x: i32, z: i32)
    requires
        !(x == 0 && z == 0),
    ensures
        0 <= spec_free_bits(x, z) < 32,
        (x as int) % (pow2(spec_free_bits(x, z) as nat) as int) == 0,
        (z as int) % (pow2(spec_free_bits(x, z) as nat) as int) == 0,
        ((x | z) as i64) & ((pow2(spec_free_bits(x, z) as nat) - 1) as i64) == 0,
{
    let free = spec_free_bits(x, z);
    lemma_free_bits_small(x, z);
    let joined = (x | z) as i64;
    lemma_trailing_zeros_divides(joined, free);
    lemma_mask_is_mod(joined, free);
    lemma_mask_is_mod(x as i64, free);
    lemma_mask_is_mod(z as i64, free);
    lemma_pow2_pos(free as nat);
    let mask = (pow2(free as nat) - 1) as i64;
    lemma_joined_bits(x, z, mask);
}

proof fn lemma_joined_bits(x: i32, z: i32, mask: i64)
    by (bit_vector)
    requires
        ((x | z) as i64) & mask == 0,
    ensures
        (x as i64) & mask == 0,
        (z as i64) & mask == 0,
{
}

/// Where the exclusive or of the population seed and the seed has the low
/// bits of the sum of the coordinates, up to the first bit that is not free,
/// the seed has the low bits that the search starts from.
pub proof fn lemma_first_low_bits(
    population: i64,
    seed: i64,
    x: i32,
    z: i32,
    free: u64,
    next: u64,
    sum: i64,
)
    by (bit_vector)
    requires
        free < 32,
        next == free + 1,
        ((x | z) as i64) & (((1i64 << free) - 1) as i64) == 0,
        sum == (x as i64) + (z as i64),
        (population ^ seed) & (((1i64 << next) - 1) as i64) == sum & (((1i64 << next) - 1) as i64),
    ensures
        seed & (((1i64 << next) - 1) as i64) == (population & (((1i64 << free) - 1) as i64)) | (((
        (x ^ z) as i64) ^ population) & (1i64 << free)),
{
}

} // verus!
