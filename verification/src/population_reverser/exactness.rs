//! What the search returns, in one sentence: away from the origin, exactly
//! the world seeds below `2^48` that have the wanted population seed.
use crate::chunk_random::population_seed;
use crate::math::modular::two48;
use crate::math::population_reverser_math::{lemma_mask_is_mod, lemma_shl_is_pow2};
use crate::population_reverser::bridging::{lemma_coordinates_divide, lemma_seed_parts};
use crate::population_reverser::completeness::{
    is_world_seed, lemma_guided_complete, lemma_lift_all_reaches, lemma_low_bits,
};
use crate::population_reverser::lifting::lemma_lift_complete;
use crate::population_reverser::population_seed_utils::{
    spec_add_world_seeds, spec_first_addend, spec_first_low, spec_free_bits, spec_guided_seeds,
    spec_lift, spec_lift_all, spec_low_stride, spec_middle_seeds, spec_offset_seeds, spec_offsets,
    spec_reverse, spec_second_addend, spec_seed, spec_solve, spec_stride, spec_top_seeds,
    spec_trailing_zeros, spec_zeros,
};
use crate::population_reverser::soundness::lemma_reverse_sound;
use vstd::arithmetic::div_mod::{
    lemma_fundamental_div_mod, lemma_mod_mod, lemma_mod_multiples_basic,
};
use vstd::arithmetic::power2::{lemma2_to64, lemma_pow2_adds, lemma_pow2_pos, pow2};
use vstd::prelude::*;

verus! {

/// Every seed of `seeds` lies in `[0, 2^48)`.
pub open spec fn all_below(seeds: Seq<i64>) -> bool {
    forall|i: int| 0 <= i < seeds.len() ==> 0 <= #[trigger] seeds[i] < two48()
}

/// Two sequences of seeds below `2^48` make one when joined.
pub proof fn lemma_all_below_joined(first: Seq<i64>, second: Seq<i64>)
    requires
        all_below(first),
        all_below(second),
    ensures
        all_below(first + second),
{
    assert forall|i: int| 0 <= i < (first + second).len() implies 0 <= #[trigger] (first
        + second)[i] < two48() by {
        if i >= first.len() {
            assert((first + second)[i] == second[i - first.len()]);
        }
    }
}

/// Sixteen bits above 32 bits, and sixteen bits above sixteen bits.
proof fn lemma_joined_range(a: i64, k: i64)
    by (bit_vector)
    requires
        0 <= a < 0x1_0000i64,
    ensures
        0 <= k < 0x1_0000_0000i64 ==> 0 <= (a << 32u64) + k < 0x1_0000_0000_0000i64,
        0 <= k < 0x1_0000i64 ==> 0 <= (a << 16u64) + k < 0x1_0000_0000i64,
{
}

/// What the walk over the top 16 bits finds above 32 bits lies below `2^48`.
pub proof fn lemma_top_seeds_below(a: i64, k: i64, population: i64, x: i32, z: i32)
    requires
        0 <= k < 0x1_0000_0000,
    ensures
        all_below(spec_top_seeds(a, k, population, x, z)),
    decreases 0x2_0000 - a,
{
    if 0 <= a < 0x1_0000 && 0 < spec_stride(x, z) <= 0x1_0000 {
        let seed = spec_seed(a, k);
        lemma_joined_range(a, k);
        let found = if population_seed(seed, x, z) == population {
            seq![seed]
        } else {
            Seq::<i64>::empty()
        };
        let next = (a + spec_stride(x, z)) as i64;
        lemma_top_seeds_below(next, k, population, x, z);
        lemma_all_below_joined(found, spec_top_seeds(next, k, population, x, z));
    }
}

/// What the walk over the middle 16 bits finds above 16 bits lies below `2^48`.
pub proof fn lemma_middle_seeds_below(indexer: i64, c: i64, population: i64, x: i32, z: i32)
    requires
        0 <= c < 0x1_0000,
    ensures
        all_below(spec_middle_seeds(indexer, c, population, x, z)),
    decreases 0x2_0000 - indexer,
{
    if 0 <= indexer < 0x1_0000 && 0 < spec_stride(x, z) <= 0x1_0000 {
        let k = ((indexer << 16u64) + c) as i64;
        lemma_joined_range(indexer, c);
        let addend = spec_second_addend(k, population, x, z);
        let start = spec_solve(addend, 32, x, z);
        let found = if spec_trailing_zeros(addend) < spec_zeros(x, z) {
            Seq::<i64>::empty()
        } else {
            spec_top_seeds(start, k, population, x, z)
        };
        lemma_top_seeds_below(start, k, population, x, z);
        let next = (indexer + spec_stride(x, z)) as i64;
        lemma_middle_seeds_below(next, c, population, x, z);
        lemma_all_below_joined(found, spec_middle_seeds(next, c, population, x, z));
    }
}

/// What is found for any carry above 16 bits lies below `2^48`.
pub proof fn lemma_offset_seeds_below(
    offsets: Seq<i32>,
    from: int,
    c: i64,
    population: i64,
    x: i32,
    z: i32,
)
    requires
        0 <= c < 0x1_0000,
    ensures
        all_below(spec_offset_seeds(offsets, from, c, population, x, z)),
    decreases offsets.len() - from,
{
    if 0 <= from < offsets.len() {
        let addend = spec_first_addend(c, offsets[from], population, x, z);
        lemma_middle_seeds_below(spec_solve(addend, 16, x, z), c, population, x, z);
        lemma_offset_seeds_below(offsets, from + 1, c, population, x, z);
        lemma_all_below_joined(
            spec_add_world_seeds(addend, c, population, x, z),
            spec_offset_seeds(offsets, from + 1, c, population, x, z),
        );
    }
}

/// What the walk over the low 16 bits finds lies below `2^48`.
pub proof fn lemma_guided_seeds_below(c: i64, population: i64, x: i32, z: i32)
    ensures
        all_below(spec_guided_seeds(c, population, x, z)),
    decreases 0x2_0000_0000 - c,
{
    if 0 <= c < 0x1_0000 && 0 < spec_low_stride(x, z) <= 0x1_0000_0000 {
        let offsets = spec_offsets(x, z);
        let next = (c + spec_low_stride(x, z)) as i64;
        lemma_offset_seeds_below(offsets, 0, c, population, x, z);
        lemma_guided_seeds_below(next, population, x, z);
        lemma_all_below_joined(
            spec_offset_seeds(offsets, 0, c, population, x, z),
            spec_guided_seeds(next, population, x, z),
        );
    }
}

/// A bit below bit 48 set in a value below `2^48`.
proof fn lemma_raised_range(value: i64, at: u64)
    by (bit_vector)
    requires
        0 <= value < 0x1_0000_0000_0000i64,
        at < 48,
    ensures
        0 <= (value | (1i64 << at)) < 0x1_0000_0000_0000i64,
{
}

/// Lifting a value below `2^48` to 48 bits gives seeds below `2^48`.
pub proof fn lemma_lift_below(value: i64, bit: i32, target: i64, x: i32, z: i32)
    requires
        0 <= value < two48(),
        0 <= bit,
    ensures
        all_below(spec_lift(value, bit, target, 32, 16, x, z)),
    decreases 32 - bit,
{
    if bit < 32 {
        let next = (bit + 1) as i32;
        let raised = value | (1i64 << (bit + 16));
        lemma_raised_range(value, (bit + 16) as u64);
        lemma_lift_below(value, next, target, x, z);
        lemma_lift_below(raised, next, target, x, z);
        lemma_all_below_joined(
            spec_lift(value, next, target, 32, 16, x, z),
            spec_lift(raised, next, target, 32, 16, x, z),
        );
    }
}

/// Lifting from every candidate for the low 16 bits gives seeds below `2^48`.
pub proof fn lemma_lift_all_below(c: i64, population: i64, x: i32, z: i32)
    ensures
        all_below(spec_lift_all(c, population, x, z)),
    decreases 0x2_0000_0000 - c,
{
    if 0 <= c < 0x1_0000 && 0 < spec_low_stride(x, z) <= 0x1_0000_0000 {
        let next = (c + spec_low_stride(x, z)) as i64;
        lemma_lift_below(c, 0, population, x, z);
        lemma_lift_all_below(next, population, x, z);
        lemma_all_below_joined(
            spec_lift(c, 0, population, 32, 16, x, z),
            spec_lift_all(next, population, x, z),
        );
    }
}

/// The low bits that the search starts from are fewer than 33.
proof fn lemma_first_low_range(population: i64, mixed: i64, free: u64)
    by (bit_vector)
    requires
        free < 32,
    ensures
        0 <= (population & (((1i64 << free) - 1) as i64)) | (mixed & (1i64 << free))
            < 0x2_0000_0000i64,
{
}

/// Away from the origin, every seed that the search returns lies in
/// `[0, 2^48)`.
pub proof fn lemma_reverse_below(population: i64, x: i32, z: i32)
    requires
        !(x == 0 && z == 0),
    ensures
        all_below(spec_reverse(population, x, z)),
{
    let c = spec_first_low(population, x, z);
    let free = spec_free_bits(x, z);
    lemma_coordinates_divide(x, z);
    lemma_mask_is_mod(population, free);
    lemma_shl_is_pow2(free);
    lemma_first_low_range(population, ((x ^ z) as i64) ^ population, free as u64);
    if free + 1 >= 16 {
        lemma_lift_below(c, (free + 1 - 16) as i32, population, x, z);
    }
    lemma_lift_all_below(c, population, x, z);
    lemma_guided_seeds_below(c, population, x, z);
}

/// No world seed is lost: away from the origin, every seed below `2^48`
/// that has the wanted population seed is among the seeds that the search
/// returns.
pub proof fn lemma_reverse_complete(seed: i64, population: i64, x: i32, z: i32)
    requires
        is_world_seed(seed, population, x, z),
        !(x == 0 && z == 0),
    ensures
        spec_reverse(population, x, z).contains(seed),
{
    let first = spec_first_low(population, x, z);
    let free = spec_free_bits(x, z);
    let zeros = spec_zeros(x, z);
    assert(0 <= zeros) by {
        reveal(spec_zeros);
        vstd::std_specs::bits::axiom_u64_trailing_zeros(
            crate::population_reverser::population_seed_utils::spec_first_mult(x, z) as u64,
        );
    }
    if zeros >= 16 {
        lemma_low_bits(seed, population, x, z);
        let next = (free + 1) as i32;
        lemma_shl_is_pow2(next);
        lemma_mask_is_mod(seed, next);
        lemma_pow2_pos(next as nat);
        if free + 1 >= 16 {
            lemma_lift_complete(first, (free + 1 - 16) as i32, seed, population, x, z);
        } else {
            let low = seed & 0xFFFF;
            let stride = spec_low_stride(x, z) as int;
            lemma_seed_parts(seed);
            lemma2_to64();
            lemma_shl_is_pow2(16);
            lemma_mask_is_mod(seed, 16);
            let rest = pow2((15 - free) as nat) as int;
            lemma_pow2_pos((15 - free) as nat);
            lemma_pow2_adds((free + 1) as nat, (15 - free) as nat);
            lemma_mod_mod(seed as int, stride, rest);
            assert((low as int) % stride == first);
            lemma_fundamental_div_mod(low as int, stride);
            let steps = (low as int) / stride;
            assert(first <= low && (low - first) % stride == 0) by {
                assert(stride * steps >= 0) by (nonlinear_arith)
                    requires
                        stride > 0,
                        steps >= 0,
                ;
                lemma_mod_multiples_basic(steps, stride);
                assert(low - first == steps * stride) by (nonlinear_arith)
                    requires
                        low == stride * steps + first,
                ;
            }
            lemma_lift_complete(low, 0, seed, population, x, z);
            lemma_lift_all_reaches(first, low, population, x, z, seed);
        }
    } else {
        lemma_guided_complete(seed, population, x, z);
    }
}

/// The seeds of `seeds` are exactly the world seeds below `2^48` that have
/// the population seed `population` at `x` and `z`.
pub open spec fn holds_exactly(seeds: Seq<i64>, population: i64, x: i32, z: i32) -> bool {
    forall|seed: i64| #[trigger] seeds.contains(seed) <==> is_world_seed(seed, population, x, z)
}

/// The search agrees with trying every seed: away from the origin, a seed is
/// among the seeds that the search returns if and only if it lies in
/// `[0, 2^48)` and has the wanted population seed.
pub proof fn lemma_reverse_exact(population: i64, x: i32, z: i32)
    requires
        !(x == 0 && z == 0),
    ensures
        holds_exactly(spec_reverse(population, x, z), population, x, z),
{
    let seeds = spec_reverse(population, x, z);
    lemma_reverse_sound(population, x, z);
    lemma_reverse_below(population, x, z);
    assert forall|seed: i64| #[trigger] seeds.contains(seed) <==> is_world_seed(
        seed,
        population,
        x,
        z,
    ) by {
        if is_world_seed(seed, population, x, z) {
            lemma_reverse_complete(seed, population, x, z);
        }
        if seeds.contains(seed) {
            let i = choose|i: int| 0 <= i < seeds.len() && seeds[i] == seed;
            assert(population_seed(seeds[i], x, z) == population);
        }
    }
}

} // verus!
