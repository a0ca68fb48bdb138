//! Every seed that the search returns has the wanted population seed.
use crate::chunk_random::population_seed;
use crate::population_reverser::population_seed_utils::{
    lemma_free_bits_small, spec_add_world_seeds, spec_first_low, spec_free_bits,
    spec_guided_seeds, spec_lift, spec_lift_all, spec_low_stride, spec_middle_seeds,
    spec_offset_seeds, spec_reverse, spec_second_addend, spec_seed, spec_solve, spec_stride,
    spec_top_seeds, spec_zeros,
};
use vstd::prelude::*;

verus! {

/// Every seed of `seeds` has the population seed `population` at `x` and `z`.
pub open spec fn all_give(seeds: Seq<i64>, population: i64, x: i32, z: i32) -> bool {
    forall|i: int| 0 <= i < seeds.len() ==> population_seed(#[trigger] seeds[i], x, z) == population
}

/// Two sequences of such seeds make one when joined.
pub proof fn lemma_all_give_joined(
    first: Seq<i64>,
    second: Seq<i64>,
    population: i64,
    x: i32,
    z: i32,
)
    requires
        all_give(first, population, x, z),
        all_give(second, population, x, z),
    ensures
        all_give(first + second, population, x, z),
{
    assert forall|i: int| 0 <= i < (first + second).len() implies population_seed(
        #[trigger] (first + second)[i],
        x,
        z,
    ) == population by {
        if i >= first.len() {
            assert((first + second)[i] == second[i - first.len()]);
        }
    }
}

/// What the walk over the top 16 bits finds has the wanted population seed.
pub proof fn lemma_top_seeds_sound(a: i64, k: i64, population: i64, x: i32, z: i32)
    ensures
        all_give(spec_top_seeds(a, k, population, x, z), population, x, z),
    decreases 0x2_0000 - a,
{
    if 0 <= a < 0x1_0000 && 0 < spec_stride(x, z) <= 0x1_0000 {
        let seed = spec_seed(a, k);
        let found = if population_seed(seed, x, z) == population {
            seq![seed]
        } else {
            Seq::<i64>::empty()
        };
        let next = (a + spec_stride(x, z)) as i64;
        lemma_top_seeds_sound(next, k, population, x, z);
        lemma_all_give_joined(
            found,
            spec_top_seeds(next, k, population, x, z),
            population,
            x,
            z,
        );
    }
}

/// What the walk over the middle 16 bits finds has the wanted population seed.
pub proof fn lemma_middle_seeds_sound(indexer: i64, c: i64, population: i64, x: i32, z: i32)
    ensures
        all_give(spec_middle_seeds(indexer, c, population, x, z), population, x, z),
    decreases 0x2_0000 - indexer,
{
    if 0 <= indexer < 0x1_0000 && 0 < spec_stride(x, z) <= 0x1_0000 {
        let k = ((indexer << 16u64) + c) as i64;
        let addend = spec_second_addend(k, population, x, z);
        let start = spec_solve(addend, 32, x, z);
        let found = if crate::population_reverser::population_seed_utils::spec_trailing_zeros(
            addend,
        ) < spec_zeros(x, z) {
            Seq::<i64>::empty()
        } else {
            spec_top_seeds(start, k, population, x, z)
        };
        lemma_top_seeds_sound(start, k, population, x, z);
        let next = (indexer + spec_stride(x, z)) as i64;
        lemma_middle_seeds_sound(next, c, population, x, z);
        lemma_all_give_joined(
            found,
            spec_middle_seeds(next, c, population, x, z),
            population,
            x,
            z,
        );
    }
}

/// What is found for any carry has the wanted population seed.
pub proof fn lemma_offset_seeds_sound(
    offsets: Seq<i32>,
    from: int,
    c: i64,
    population: i64,
    x: i32,
    z: i32,
)
    ensures
        all_give(spec_offset_seeds(offsets, from, c, population, x, z), population, x, z),
    decreases offsets.len() - from,
{
    if 0 <= from < offsets.len() {
        let addend = crate::population_reverser::population_seed_utils::spec_first_addend(
            c,
            offsets[from],
            population,
            x,
            z,
        );
        lemma_middle_seeds_sound(spec_solve(addend, 16, x, z), c, population, x, z);
        lemma_offset_seeds_sound(offsets, from + 1, c, population, x, z);
        lemma_all_give_joined(
            spec_add_world_seeds(addend, c, population, x, z),
            spec_offset_seeds(offsets, from + 1, c, population, x, z),
            population,
            x,
            z,
        );
    }
}

/// What the walk over the low 16 bits finds has the wanted population seed.
pub proof fn lemma_guided_seeds_sound(c: i64, population: i64, x: i32, z: i32)
    ensures
        all_give(spec_guided_seeds(c, population, x, z), population, x, z),
    decreases 0x2_0000_0000 - c,
{
    if 0 <= c < 0x1_0000 && 0 < spec_low_stride(x, z) <= 0x1_0000_0000 {
        let offsets = crate::population_reverser::population_seed_utils::spec_offsets(x, z);
        let next = (c + spec_low_stride(x, z)) as i64;
        lemma_offset_seeds_sound(offsets, 0, c, population, x, z);
        lemma_guided_seeds_sound(next, population, x, z);
        lemma_all_give_joined(
            spec_offset_seeds(offsets, 0, c, population, x, z),
            spec_guided_seeds(next, population, x, z),
            population,
            x,
            z,
        );
    }
}

/// What lifting gives has the population seed that it was asked for.
pub proof fn lemma_lift_sound(
    value: i64,
    bit: i32,
    target: i64,
    bits: i32,
    offset: i32,
    x: i32,
    z: i32,
)
    ensures
        all_give(spec_lift(value, bit, target, bits, offset, x, z), target, x, z),
    decreases bits - bit,
{
    if bit < bits {
        let next = (bit + 1) as i32;
        let raised = value | (1i64 << (bit + offset));
        lemma_lift_sound(value, next, target, bits, offset, x, z);
        lemma_lift_sound(raised, next, target, bits, offset, x, z);
        lemma_all_give_joined(
            spec_lift(value, next, target, bits, offset, x, z),
            spec_lift(raised, next, target, bits, offset, x, z),
            target,
            x,
            z,
        );
    }
}

/// What lifting from every candidate for the low 16 bits gives has the
/// wanted population seed.
pub proof fn lemma_lift_all_sound(c: i64, population: i64, x: i32, z: i32)
    ensures
        all_give(spec_lift_all(c, population, x, z), population, x, z),
    decreases 0x2_0000_0000 - c,
{
    if 0 <= c < 0x1_0000 && 0 < spec_low_stride(x, z) <= 0x1_0000_0000 {
        let next = (c + spec_low_stride(x, z)) as i64;
        lemma_lift_sound(c, 0, population, 32, 16, x, z);
        lemma_lift_all_sound(next, population, x, z);
        lemma_all_give_joined(
            spec_lift(c, 0, population, 32, 16, x, z),
            spec_lift_all(next, population, x, z),
            population,
            x,
            z,
        );
    }
}

/// Whatever the search returns is a preimage: each seed of the result has
/// exactly the population seed that was asked for.
pub proof fn lemma_reverse_sound(population: i64, x: i32, z: i32)
    ensures
        all_give(spec_reverse(population, x, z), population, x, z),
{
    let c = spec_first_low(population, x, z);
    lemma_lift_sound(c, (spec_free_bits(x, z) + 1 - 16) as i32, population, 32, 16, x, z);
    lemma_lift_all_sound(c, population, x, z);
    lemma_guided_seeds_sound(c, population, x, z);
}

/// The search is a function of its three arguments: two results for the
/// same population seed and coordinates hold the same seeds.
pub proof fn lemma_reverse_deterministic(
    first: Seq<i64>,
    second: Seq<i64>,
    population: i64,
    x: i32,
    z: i32,
)
    requires
        first == spec_reverse(population, x, z),
        second == spec_reverse(population, x, z),
    ensures
        first == second,
        first.to_set() == second.to_set(),
{
}

/// At the origin the population seed is the world seed, and the search
/// returns it alone, by the lifting path.
pub proof fn lemma_reverse_at_origin(population: i64)
    ensures
        spec_zeros(0, 0) >= 16,
        spec_free_bits(0, 0) + 1 >= 16,
        spec_reverse(population, 0, 0) == seq![population],
{
    lemma_free_bits_small(0, 0);
    crate::population_reverser::population_seed_utils::lemma_zeros_at_origin();
    crate::chunk_random::lemma_population_seed_at_origin(population);
    assert(spec_first_low(population, 0, 0) == population) by {
        assert(population | 0i64 == population) by (bit_vector);
    }
}

} // verus!
