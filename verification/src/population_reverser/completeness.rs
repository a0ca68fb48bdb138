//! Every world seed below `2^48` that has the wanted population seed is
//! among the seeds that the search returns.
use crate::chunk_random::population_seed;
use crate::population_reverser::population_seed_utils::{
    spec_add_world_seeds, spec_first_addend, spec_guided_seeds, spec_lift, spec_lift_all,
    spec_low_stride, spec_middle_seeds, spec_offset_seeds, spec_offsets, spec_second_addend,
    spec_seed, spec_solve, spec_stride, spec_top_seeds, spec_trailing_zeros, spec_zeros,
};
use crate::lcg::JAVA_MULTIPLIER;
use crate::math::modular::{lemma_mul_congruent, lemma_sub_congruent, two48};
use crate::math::population_reverser_math::lemma_mask_is_mod;
use crate::lcg::{lemma_forward_values, spec_forward};
use crate::math::modular::lemma_add_congruent;
use crate::math::{scrambled_low, spec_term};
use crate::population_reverser::bridging::{
    lemma_first_mult_is_factor, lemma_magic, lemma_offsets_hold, lemma_partial_addend,
    lemma_seed_parts, lemma_state_parts_16, lemma_state_parts_32, lemma_target_bits,
    lemma_term_entry,
};
use crate::population_reverser::congruences::{
    carry, factor, lemma_middle_congruence, lemma_top_congruence,
};
use crate::math::population_reverser_math::lemma_shl_is_pow2;
use crate::population_reverser::bridging::{lemma_coordinates_divide, lemma_first_low_bits};
use crate::population_reverser::congruences::{lemma_factor_vanishes, lemma_low_congruence};
use crate::population_reverser::model::upper;
use crate::population_reverser::population_seed_utils::{spec_first_low, spec_free_bits};
use vstd::arithmetic::div_mod::lemma_mod_equivalence;
use vstd::arithmetic::power2::{
    lemma2_to64_rest, lemma_pow2_adds, lemma_pow2_pos, lemma_pow2_unfold, pow2,
};
use vstd::arithmetic::div_mod::lemma_mod_mod;
use vstd::wrapping::i32_specs;
use crate::population_reverser::model::{
    coordinate_term, lemma_population_seed_low, lemma_shift_is_div, two16, two32,
};
use crate::population_reverser::population_seed_utils::{spec_first_mult, spec_partial_addend};
use crate::population_reverser::solving::lemma_solve_finds;
use vstd::arithmetic::div_mod::{lemma_fundamental_div_mod, lemma_mod_sub_multiples_vanish};
use vstd::arithmetic::power2::lemma2_to64;
use vstd::prelude::*;

verus! {

/// What one of two sequences holds, the two joined hold.
pub proof fn lemma_contains_joined(first: Seq<i64>, second: Seq<i64>, seed: i64)
    requires
        first.contains(seed) || second.contains(seed),
    ensures
        (first + second).contains(seed),
{
    if first.contains(seed) {
        let i = choose|i: int| 0 <= i < first.len() && first[i] == seed;
        assert((first + second)[i] == seed);
    } else {
        let i = choose|i: int| 0 <= i < second.len() && second[i] == seed;
        assert((first + second)[first.len() + i] == seed);
    }
}

/// A positive multiple of the stride is at least one stride, and a stride
/// less is a multiple again.
pub proof fn lemma_progression_step(gap: int, stride: int)
    requires
        gap > 0,
        stride > 0,
        gap % stride == 0,
    ensures
        gap >= stride,
        (gap - stride) % stride == 0,
{
    lemma_fundamental_div_mod(gap, stride);
    let q = gap / stride;
    assert(q >= 1) by (nonlinear_arith)
        requires
            gap == stride * q,
            gap > 0,
            stride > 0,
    ;
    assert(gap >= stride) by (nonlinear_arith)
        requires
            gap == stride * q,
            q >= 1,
            stride > 0,
    ;
    lemma_mod_sub_multiples_vanish(gap, stride);
}

/// The walk over the top 16 bits comes to every value that lies a multiple
/// of the stride above its start, and keeps the seed there if it has the
/// wanted population seed.
pub proof fn lemma_top_reaches(a: i64, top: i64, k: i64, population: i64, x: i32, z: i32)
    requires
        0 <= a <= top < 0x1_0000,
        0 < spec_stride(x, z) <= 0x1_0000,
        (top - a) % (spec_stride(x, z) as int) == 0,
        population_seed(spec_seed(top, k), x, z) == population,
    ensures
        spec_top_seeds(a, k, population, x, z).contains(spec_seed(top, k)),
    decreases top - a,
{
    let seed = spec_seed(a, k);
    let found = if population_seed(seed, x, z) == population {
        seq![seed]
    } else {
        Seq::<i64>::empty()
    };
    let next = (a + spec_stride(x, z)) as i64;
    let rest = spec_top_seeds(next, k, population, x, z);
    if a == top {
        assert(found[0] == seed);
    } else {
        lemma_progression_step(top - a, spec_stride(x, z) as int);
        lemma_top_reaches(next, top, k, population, x, z);
    }
    lemma_contains_joined(found, rest, spec_seed(top, k));
}

/// The walk over the middle 16 bits comes to every value that lies a
/// multiple of the stride above its start, and what is found there is part
/// of what the walk finds.
pub proof fn lemma_middle_reaches(
    indexer: i64,
    middle: i64,
    c: i64,
    population: i64,
    x: i32,
    z: i32,
    seed: i64,
)
    requires
        0 <= indexer <= middle < 0x1_0000,
        0 < spec_stride(x, z) <= 0x1_0000,
        (middle - indexer) % (spec_stride(x, z) as int) == 0,
        ({
            let k = ((middle << 16u64) + c) as i64;
            let addend = spec_second_addend(k, population, x, z);
            &&& spec_trailing_zeros(addend) >= spec_zeros(x, z)
            &&& spec_top_seeds(spec_solve(addend, 32, x, z), k, population, x, z).contains(seed)
        }),
    ensures
        spec_middle_seeds(indexer, c, population, x, z).contains(seed),
    decreases middle - indexer,
{
    let k = ((indexer << 16u64) + c) as i64;
    let addend = spec_second_addend(k, population, x, z);
    let found = if spec_trailing_zeros(addend) < spec_zeros(x, z) {
        Seq::<i64>::empty()
    } else {
        spec_top_seeds(spec_solve(addend, 32, x, z), k, population, x, z)
    };
    let next = (indexer + spec_stride(x, z)) as i64;
    let rest = spec_middle_seeds(next, c, population, x, z);
    if indexer != middle {
        lemma_progression_step(middle - indexer, spec_stride(x, z) as int);
        lemma_middle_reaches(next, middle, c, population, x, z, seed);
    }
    lemma_contains_joined(found, rest, seed);
}

/// What is found for one carry is part of what is found for all of them.
pub proof fn lemma_offsets_reach(
    offsets: Seq<i32>,
    from: int,
    at: int,
    c: i64,
    population: i64,
    x: i32,
    z: i32,
    seed: i64,
)
    requires
        0 <= from <= at < offsets.len(),
        spec_add_world_seeds(
            spec_first_addend(c, offsets[at], population, x, z),
            c,
            population,
            x,
            z,
        ).contains(seed),
    ensures
        spec_offset_seeds(offsets, from, c, population, x, z).contains(seed),
    decreases at - from,
{
    let found = spec_add_world_seeds(
        spec_first_addend(c, offsets[from], population, x, z),
        c,
        population,
        x,
        z,
    );
    let rest = spec_offset_seeds(offsets, from + 1, c, population, x, z);
    if from != at {
        lemma_offsets_reach(offsets, from + 1, at, c, population, x, z, seed);
    }
    lemma_contains_joined(found, rest, seed);
}

/// The walk over the low 16 bits comes to every value that lies a multiple
/// of the stride above its start.
pub proof fn lemma_guided_reaches(
    c: i64,
    low: i64,
    population: i64,
    x: i32,
    z: i32,
    seed: i64,
)
    requires
        0 <= c <= low < 0x1_0000,
        0 < spec_low_stride(x, z) <= 0x1_0000_0000,
        (low - c) % (spec_low_stride(x, z) as int) == 0,
        spec_offset_seeds(spec_offsets(x, z), 0, low, population, x, z).contains(seed),
    ensures
        spec_guided_seeds(c, population, x, z).contains(seed),
    decreases low - c,
{
    let found = spec_offset_seeds(spec_offsets(x, z), 0, c, population, x, z);
    let next = (c + spec_low_stride(x, z)) as i64;
    let rest = spec_guided_seeds(next, population, x, z);
    if c != low {
        lemma_progression_step(low - c, spec_low_stride(x, z) as int);
        lemma_guided_reaches(next, low, population, x, z, seed);
    }
    lemma_contains_joined(found, rest, seed);
}

/// The lifting from every candidate for the low 16 bits comes to every value
/// that lies a multiple of the stride above its start.
pub proof fn lemma_lift_all_reaches(
    c: i64,
    low: i64,
    population: i64,
    x: i32,
    z: i32,
    seed: i64,
)
    requires
        0 <= c <= low < 0x1_0000,
        0 < spec_low_stride(x, z) <= 0x1_0000_0000,
        (low - c) % (spec_low_stride(x, z) as int) == 0,
        spec_lift(low, 0, population, 32, 16, x, z).contains(seed),
    ensures
        spec_lift_all(c, population, x, z).contains(seed),
    decreases low - c,
{
    let found = spec_lift(c, 0, population, 32, 16, x, z);
    let next = (c + spec_low_stride(x, z)) as i64;
    let rest = spec_lift_all(next, population, x, z);
    if c != low {
        lemma_progression_step(low - c, spec_low_stride(x, z) as int);
        lemma_lift_all_reaches(next, low, population, x, z, seed);
    }
    lemma_contains_joined(found, rest, seed);
}

/// A world seed below `2^48` with the wanted population seed.
pub open spec fn is_world_seed(seed: i64, population: i64, x: i32, z: i32) -> bool {
    0 <= seed < two48() && population_seed(seed, x, z) == population
}

/// The top 16 bits of a world seed solve the second congruence: with `k` the
/// low 32 bits of the seed, the factor times the scrambled top bits is the
/// right side that the search computes from `k`, modulo `2^16`.
pub proof fn lemma_top_equation(seed: i64, population: i64, x: i32, z: i32)
    requires
        is_world_seed(seed, population, x, z),
    ensures
        ({
            let k = seed & 0xFFFF_FFFF;
            let h = ((seed >> 32u64) ^ (JAVA_MULTIPLIER >> 32u64)) & 0xFFFF;
            let addend = spec_second_addend(k, population, x, z);
            &&& -0x1_0000 < addend < 0x1_0000
            &&& (spec_first_mult(x, z) * h - addend) % two16() == 0
        }),
{
    let k = seed & 0xFFFF_FFFF;
    let state = seed ^ JAVA_MULTIPLIER;
    let low = state & 0xFFFF_FFFF;
    let h = state >> 32u64;
    let addend = spec_second_addend(k, population, x, z);
    reveal(spec_second_addend);
    lemma2_to64();
    lemma_state_parts_32(seed);
    lemma_target_bits(population, seed);
    lemma_population_seed_low(seed, x, z);
    let mixed = population ^ seed;
    lemma_mask_is_mod(mixed, 32);
    lemma_shift_is_div(mixed & 0xFFFF_FFFF);
    let target = (k ^ (population & 0xFFFF_FFFF)) >> 16u64;
    assert(target == (coordinate_term(state as int, x, z) % two32()) / two16());
    lemma_partial_addend(k, x, z);
    let part = spec_partial_addend(k, x, z) & 0xFFFF;
    assert(part == (coordinate_term(low as int, x, z) % two32()) / two16());
    assert(state as int == low + two32() * h);
    lemma_top_congruence(low as int, h as int, x, z);
    assert(addend == target - part);
    lemma_first_mult_is_factor(x, z);
    lemma_mul_congruent(spec_first_mult(x, z) as int, factor(x, z), h as int, h as int, two16());
    lemma_sub_congruent(
        spec_first_mult(x, z) * h,
        factor(x, z) * h,
        addend as int,
        addend as int,
        two16(),
    );
}

/// A world seed is among the seeds that the walk over the top 16 bits finds
/// above its own low 32 bits.
pub proof fn lemma_top_found(seed: i64, population: i64, x: i32, z: i32)
    requires
        is_world_seed(seed, population, x, z),
        0 <= spec_zeros(x, z) < 16,
    ensures
        ({
            let k = seed & 0xFFFF_FFFF;
            let addend = spec_second_addend(k, population, x, z);
            &&& spec_trailing_zeros(addend) >= spec_zeros(x, z)
            &&& spec_top_seeds(spec_solve(addend, 32, x, z), k, population, x, z).contains(seed)
        }),
{
    let k = seed & 0xFFFF_FFFF;
    let top = seed >> 32u64;
    let h = (top ^ (JAVA_MULTIPLIER >> 32u64)) & 0xFFFF;
    let addend = spec_second_addend(k, population, x, z);
    lemma_seed_parts(seed);
    lemma_top_equation(seed, population, x, z);
    lemma_solve_finds(addend, 32, h, top, x, z);
    assert(spec_seed(top, k) == seed);
    lemma_top_reaches(spec_solve(addend, 32, x, z), top, k, population, x, z);
}

/// The carry that goes with the carries of the two draws: `x` where the
/// first draw was even, `z` where the second was, both or none.
pub open spec fn carry_offset(first: int, second: int, x: i32, z: i32) -> i32 {
    if first == 0 {
        if second == 0 {
            0
        } else {
            z
        }
    } else {
        if second == 0 {
            x
        } else {
            i32_specs::wrapping_add(x, z)
        }
    }
}

/// The carry of a world seed: the one that its own two draws call for.
pub open spec fn seed_offset(seed: i64, x: i32, z: i32) -> i32 {
    let state = (seed ^ JAVA_MULTIPLIER) as int;
    carry_offset(
        carry(upper(spec_forward(2), state)),
        carry(upper(spec_forward(4), state)),
        x,
        z,
    )
}

/// The middle 16 bits of a world seed solve the first congruence, with the
/// carry of the seed: the factor times the scrambled middle bits is the
/// right side that the search computes from the low 16 bits and that carry,
/// modulo `2^16`.
pub proof fn lemma_middle_equation(seed: i64, population: i64, x: i32, z: i32)
    requires
        is_world_seed(seed, population, x, z),
    ensures
        ({
            let c = seed & 0xFFFF;
            let h = (((seed >> 16u64) & 0xFFFF) ^ (JAVA_MULTIPLIER >> 16u64)) & 0xFFFF;
            let addend = spec_first_addend(c, seed_offset(seed, x, z), population, x, z);
            &&& -0x1_0000 < addend < 0x1_0000
            &&& (spec_first_mult(x, z) * h - addend) % two16() == 0
        }),
{
    let c = seed & 0xFFFF;
    let state = seed ^ JAVA_MULTIPLIER;
    let low = state & 0xFFFF;
    let high = state >> 16u64;
    let h = high & 0xFFFF;
    let second = spec_forward(2);
    let fourth = spec_forward(4);
    let offset = seed_offset(seed, x, z);
    let addend = spec_first_addend(c, offset, population, x, z);
    reveal(spec_first_addend);
    lemma2_to64();
    lemma_forward_values();
    lemma_state_parts_16(seed);
    assert(low == scrambled_low(c));
    assert(state as int == low + two16() * high);
    // the target is the coordinate term modulo 2^16
    lemma_target_bits(population, seed);
    lemma_population_seed_low(seed, x, z);
    let mixed = population ^ seed;
    let term = coordinate_term(state as int, x, z);
    lemma_mask_is_mod(mixed, 16);
    lemma_mod_mod(mixed as int, two16(), two16());
    lemma_mod_mod(term, two16(), two16());
    let target = (c ^ (population & 0xFFFF)) & 0xFFFF;
    assert(target == term % two16());
    // what the tables give is what the low 16 bits of the state give alone
    lemma_term_entry(second, c);
    lemma_term_entry(fourth, c);
    let alone = x * upper(second, low as int) + z * upper(fourth, low as int);
    let magic = i32_specs::wrapping_add(
        i32_specs::wrapping_mul(x, spec_term(second, c)),
        i32_specs::wrapping_mul(z, spec_term(fourth, c)),
    );
    lemma_magic(
        x,
        spec_term(second, c),
        z,
        spec_term(fourth, c),
        upper(second, low as int),
        upper(fourth, low as int),
    );
    lemma_mod_mod(magic as int, two16(), two16());
    lemma_mod_mod(alone, two16(), two16());
    // the carry
    let e2 = carry(upper(second, state as int));
    let e4 = carry(upper(fourth, state as int));
    let carries = x * e2 + z * e4;
    assert((offset as int) % two16() == carries % two16()) by {
        assert(x * 0 == 0 && x * 1 == x && z * 0 == 0 && z * 1 == z) by (nonlinear_arith);
        lemma_mod_mod(i32_specs::wrapping_add(x, z) as int, two16(), two16());
        lemma_mod_mod(x + z, two16(), two16());
    }
    let sum = (magic as i64 + offset as i64) as i64;
    lemma_mask_is_mod(sum, 16);
    lemma_add_congruent(magic as int, alone, offset as int, carries, two16());
    let taken = sum & 0xFFFF;
    assert(taken == (alone + carries) % two16());
    assert(addend == target - taken);
    // the congruence
    lemma_middle_congruence(low as int, high as int, x, z);
    lemma_first_mult_is_factor(x, z);
    lemma_mask_is_mod(high, 16);
    lemma_mul_congruent(spec_first_mult(x, z) as int, factor(x, z), h as int, high as int, two16());
    let left = spec_first_mult(x, z) * h;
    let right = factor(x, z) * high;
    assert(left % two16() == right % two16());
    assert((term - alone - right - carries) % two16() == 0);
    lemma_middle_sum(left, right, term, alone + carries, target as int, taken as int);
}

/// If `left` and `right`, `target` and `term`, `taken` and `rest` are
/// congruent modulo `2^16`, and `term - rest - right` is zero there, then so
/// is `left - (target - taken)`.
proof fn lemma_middle_sum(left: int, right: int, term: int, rest: int, target: int, taken: int)
    requires
        left % two16() == right % two16(),
        target % two16() == term % two16(),
        taken % two16() == rest % two16(),
        (term - rest - right) % two16() == 0,
    ensures
        (left - (target - taken)) % two16() == 0,
{
}

/// A world seed is among the seeds that the search finds above its own low
/// 16 bits.
pub proof fn lemma_middle_found(seed: i64, population: i64, x: i32, z: i32)
    requires
        is_world_seed(seed, population, x, z),
        0 <= spec_zeros(x, z) < 16,
    ensures
        spec_offset_seeds(spec_offsets(x, z), 0, seed & 0xFFFF, population, x, z).contains(seed),
{
    let c = seed & 0xFFFF;
    let middle = (seed >> 16u64) & 0xFFFF;
    let h = (middle ^ (JAVA_MULTIPLIER >> 16u64)) & 0xFFFF;
    let offset = seed_offset(seed, x, z);
    let addend = spec_first_addend(c, offset, population, x, z);
    lemma_seed_parts(seed);
    lemma_middle_equation(seed, population, x, z);
    lemma_solve_finds(addend, 16, h, middle, x, z);
    lemma_top_found(seed, population, x, z);
    assert(((middle << 16u64) + c) as i64 == seed & 0xFFFF_FFFF);
    lemma_middle_reaches(
        spec_solve(addend, 16, x, z),
        middle,
        c,
        population,
        x,
        z,
        seed,
    );
    assert(spec_add_world_seeds(addend, c, population, x, z).contains(seed));
    lemma_offsets_hold(x, z);
    let offsets = spec_offsets(x, z);
    let at = choose|i: int| 0 <= i < offsets.len() && offsets[i] == offset;
    lemma_offsets_reach(offsets, 0, at, c, population, x, z, seed);
}

/// The low bits of a world seed are the ones that the search starts from:
/// modulo the stride of the low 16 bits, the seed is the first candidate.
pub proof fn lemma_low_bits(seed: i64, population: i64, x: i32, z: i32)
    requires
        is_world_seed(seed, population, x, z),
        !(x == 0 && z == 0),
    ensures
        0 <= spec_free_bits(x, z) < 32,
        spec_low_stride(x, z) == pow2((spec_free_bits(x, z) + 1) as nat),
        0 < spec_low_stride(x, z) <= 0x1_0000_0000,
        0 <= spec_first_low(population, x, z) < spec_low_stride(x, z),
        (seed as int) % (spec_low_stride(x, z) as int) == spec_first_low(population, x, z),
{
    let free = spec_free_bits(x, z);
    let next = (free + 1) as i32;
    lemma_coordinates_divide(x, z);
    let p = pow2(free as nat) as int;
    let stride = pow2(next as nat) as int;
    lemma_pow2_pos(free as nat);
    lemma_pow2_unfold(next as nat);
    lemma_shl_is_pow2(free);
    lemma_shl_is_pow2(next);
    lemma2_to64();
    lemma2_to64_rest();
    let rest = pow2((32 - next) as nat) as int;
    lemma_pow2_pos((32 - next) as nat);
    lemma_pow2_adds(next as nat, (32 - next) as nat);
    assert(stride * rest == two32());
    assert(stride <= two32()) by (nonlinear_arith)
        requires
            stride * rest == two32(),
            stride >= 1,
            rest >= 1,
    ;
    let state = (seed ^ JAVA_MULTIPLIER) as int;
    let term = coordinate_term(state, x, z);
    let mixed = population ^ seed;
    let sum = (x as i64 + z as i64) as i64;
    lemma_low_congruence(state, x, z, p);
    lemma_mod_equivalence(term, sum as int, stride);
    lemma_population_seed_low(seed, x, z);
    lemma_mod_mod(mixed as int, stride, rest);
    lemma_mod_mod(term, stride, rest);
    assert((mixed as int) % stride == (sum as int) % stride);
    lemma_mask_is_mod(mixed, next);
    lemma_mask_is_mod(sum, next);
    lemma_mask_is_mod(population, free);
    lemma_mask_is_mod(seed, next);
    lemma_first_low_bits(population, seed, x, z, free as u64, next as u64, sum);
}

/// Where the search solves congruences, fewer than 16 bits are free.
pub proof fn lemma_guided_free_bits(x: i32, z: i32)
    requires
        0 <= spec_zeros(x, z) < 16,
    ensures
        !(x == 0 && z == 0),
        0 <= spec_free_bits(x, z) < 16,
{
    crate::population_reverser::population_seed_utils::lemma_zeros_at_origin();
    if !(x == 0 && z == 0) {
        lemma_coordinates_divide(x, z);
        let free = spec_free_bits(x, z);
        if free >= 16 {
            let p = pow2(free as nat) as int;
            let rest = pow2((free - 16) as nat) as int;
            lemma2_to64();
            lemma_pow2_pos((free - 16) as nat);
            lemma_pow2_adds(16, (free - 16) as nat);
            lemma_mod_mod(x as int, two16(), rest);
            lemma_mod_mod(z as int, two16(), rest);
            lemma_factor_vanishes(x, z);
            lemma_first_mult_is_factor(x, z);
            reveal(spec_zeros);
            vstd::std_specs::bits::axiom_u64_trailing_zeros(spec_first_mult(x, z) as u64);
            assert(false);
        }
    }
}

/// A world seed is among the seeds that the search finds by solving the
/// congruences.
pub proof fn lemma_guided_complete(seed: i64, population: i64, x: i32, z: i32)
    requires
        is_world_seed(seed, population, x, z),
        0 <= spec_zeros(x, z) < 16,
    ensures
        spec_guided_seeds(spec_first_low(population, x, z), population, x, z).contains(seed),
{
    let first = spec_first_low(population, x, z);
    let low = seed & 0xFFFF;
    let stride = spec_low_stride(x, z) as int;
    lemma_guided_free_bits(x, z);
    lemma_low_bits(seed, population, x, z);
    lemma_middle_found(seed, population, x, z);
    lemma_seed_parts(seed);
    lemma2_to64();
    lemma_mask_is_mod(seed, 16);
    // the low 16 bits of the seed lie a multiple of the stride above the start
    let free = spec_free_bits(x, z);
    let rest = pow2((15 - free) as nat) as int;
    lemma_pow2_pos((15 - free) as nat);
    lemma_pow2_adds((free + 1) as nat, (15 - free) as nat);
    lemma_mod_mod(seed as int, stride, rest);
    assert((low as int) % stride == first);
    lemma_fundamental_div_mod(low as int, stride);
    let steps = (low as int) / stride;
    assert(first <= low && (low - first) % stride == 0) by {
        assert(stride * steps >= 0) by (nonlinear_arith)
            requires
                stride > 0,
                steps >= 0,
        ;
        vstd::arithmetic::div_mod::lemma_mod_multiples_basic(steps, stride);
        assert(low - first == steps * stride) by (nonlinear_arith)
            requires
                low == stride * steps + first,
        ;
    }
    lemma_guided_reaches(first, low, population, x, z, seed);
}

} // verus!
