//! Utility module for performing population seed -> world seed.
//!
//! The search fixes the low 16 bits of the world seed, then solves a
//! congruence modulo `2^16` for the middle 16 bits and another for the top 16
//! bits, and keeps the candidates whose population seed is the wanted one.
//! Where the congruence has no odd part to invert, the seed is lifted bit by
//! bit instead.
use crate::chunk_random::{population_seed, set_population_seed};
use crate::lcg::{forward1, forward2, forward4, spec_forward};
use crate::math::population_reverser_math::{
    external_mask, mask_calc, pow2, spec_mask_calc, spec_mod_inverse,
};
use crate::math::{spec_term, PopulationReverser};
use crate::population_reverser::exactness::{holds_exactly, lemma_reverse_exact};
use crate::population_reverser::soundness::{
    all_give, lemma_reverse_at_origin, lemma_reverse_sound,
};
use vstd::prelude::*;
use vstd::std_specs::bits::{axiom_u64_trailing_zeros, u64_trailing_zeros};
use vstd::wrapping::{i32_specs, i64_specs};

verus! {

/// The number of zero bits below the lowest set bit of the 64-bit pattern of
/// `value`; 64 where `value` is zero.
pub open spec fn spec_trailing_zeros(value: i64) -> i32 {
    u64_trailing_zeros(value as u64) as i32
}

/// Counts the trailing zero bits of the 64-bit pattern of `value`.
fn trailing_zeros(value: i64) -> (r: i32)
    ensures
        r == spec_trailing_zeros(value),
        0 <= r <= 64,
        r == 64 <==> value == 0,
{
    proof {
        axiom_u64_trailing_zeros(value as u64);
        lemma_zero_pattern(value);
    }
    (value as u64).trailing_zeros() as i32
}

/// Only zero has the bit pattern of zero.
pub proof fn lemma_zero_pattern(value: i64)
    by (bit_vector)
    ensures
        value as u64 == 0 <==> value == 0,
{
}

/// `s` with `value` added at the end, unless `s` holds it already.
pub open spec fn push_new(s: Seq<i32>, value: i32) -> Seq<i32> {
    if s.contains(value) {
        s
    } else {
        s.push(value)
    }
}

/// The carries that making both draws odd can add to the coordinate term:
/// `0`, `z`, `x` and `x + z`, each once.
pub open spec fn spec_offsets(x: i32, z: i32) -> Seq<i32> {
    push_new(push_new(push_new(seq![0i32], z), x), i32_specs::wrapping_add(x, z))
}

/// Adds `value` to `offsets` unless it is there already.
fn insert_new(offsets: &mut Vec<i32>, value: i32)
    ensures
        final(offsets)@ == push_new(old(offsets)@, value),
{
    let mut i: usize = 0;
    while i < offsets.len()
        invariant
            0 <= i <= offsets.len(),
            offsets@ == old(offsets)@,
            forall|j: int| 0 <= j < i ==> offsets@[j] != value,
        decreases offsets.len() - i,
    {
        if offsets[i] == value {
            return ;
        }
        i += 1;
    }
    offsets.push(value);
}

/// The carries to try, each once, in the order `0`, `z`, `x`, `x + z`.
fn get_offsets(x: i32, z: i32) -> (r: Vec<i32>)
    ensures
        r@ == spec_offsets(x, z),
{
    let mut offsets: Vec<i32> = Vec::new();
    offsets.push(0);
    assert(offsets@ =~= seq![0i32]);
    insert_new(&mut offsets, z);
    insert_new(&mut offsets, x);
    insert_new(&mut offsets, x.wrapping_add(z));
    offsets
}

/// The low 32 bits of the coordinate term of a seed whose low 32 bits are
/// those of `partial_seed`, shifted down by 16: what the seed's top 16 bits
/// must make up for.
#[verifier::opaque]
pub open spec fn spec_partial_addend(partial_seed: i64, x: i32, z: i32) -> i64 {
    let low = (partial_seed ^ spec_forward(1).multiplier) & 0xFFFF_FFFF;
    let a = (((i64_specs::wrapping_add(
        i64_specs::wrapping_mul(spec_forward(2).multiplier, low),
        spec_forward(2).addend,
    ) & 0xFFFF_FFFF_FFFF) >> 16u64) as i32) as i64;
    let b = (((i64_specs::wrapping_add(
        i64_specs::wrapping_mul(spec_forward(4).multiplier, low),
        spec_forward(4).addend,
    ) & 0xFFFF_FFFF_FFFF) >> 16u64) as i32) as i64;
    i64_specs::wrapping_add(
        i64_specs::wrapping_mul(x as i64, a | 1),
        i64_specs::wrapping_mul(z as i64, b | 1),
    ) >> 16u64
}

/// Computes what the low 32 bits of a seed give to the top congruence.
fn get_partial_addend(partial_seed: i64, x: i32, z: i32) -> (r: i64)
    ensures
        r == spec_partial_addend(partial_seed, x, z),
{
    proof {
        reveal(spec_partial_addend);
        vstd::arithmetic::power2::lemma2_to64();
        vstd::arithmetic::power2::lemma2_to64_rest();
    }
    let first = forward1();
    let second = forward2();
    let fourth = forward4();
    let low: i64 = (partial_seed ^ first.multiplier) & external_mask(32);
    let a: i64 = (((second.multiplier.wrapping_mul(low).wrapping_add(second.addend)
        & external_mask(48)) >> 16u64) as i32) as i64;

    let b: i64 = (((fourth.multiplier.wrapping_mul(low).wrapping_add(fourth.addend)
        & external_mask(48)) >> 16u64) as i32) as i64;

    return (x as i64).wrapping_mul(a | 1).wrapping_add((z as i64).wrapping_mul(b | 1)) >> 16u64;
}

/// The factor of the unknown 16 bits in both congruences: the multiplier of
/// the coordinate term, modulo `2^16`.
#[verifier::opaque]
pub open spec fn spec_first_mult(x: i32, z: i32) -> i64 {
    i64_specs::wrapping_add(
        i64_specs::wrapping_mul(spec_forward(2).multiplier, x as i64),
        i64_specs::wrapping_mul(spec_forward(4).multiplier, z as i64),
    ) & 0xFFFF
}

/// The number of trailing zero bits of the factor.
#[verifier::opaque]
pub open spec fn spec_zeros(x: i32, z: i32) -> i32 {
    spec_trailing_zeros(spec_first_mult(x, z))
}

/// The inverse modulo `2^16` of the odd part of the factor.
#[verifier::opaque]
pub open spec fn spec_inverse(x: i32, z: i32) -> i64 {
    (spec_mod_inverse(spec_first_mult(x, z) >> spec_zeros(x, z), 16) as i32) as i64
}

/// The distance between two solutions of a congruence: `2^(16 - zeros)`.
pub open spec fn spec_stride(x: i32, z: i32) -> i64 {
    1i64 << (16 - spec_zeros(x, z))
}

/// The least solution of a congruence with the right side `addend`, as bits
/// of the seed: the quotient by the odd part of the factor, then the
/// generator's multiplier from bit `shift` on mixed back in.
#[verifier::opaque]
pub open spec fn spec_solve(addend: i64, shift: u64, x: i32, z: i32) -> i64 {
    ((i64_specs::wrapping_mul(spec_inverse(x, z), addend) >> spec_zeros(x, z)) ^ (spec_forward(
        1,
    ).multiplier >> shift)) & ((spec_stride(x, z) - 1) as i64)
}

/// The seed with the top 16 bits `a` above the low 32 bits `k`.
pub open spec fn spec_seed(a: i64, k: i64) -> i64 {
    ((a << 32u64) + k) as i64
}

/// The seeds with the low 32 bits `k` and top 16 bits `a`, `a + stride`, ...
/// below `2^16` whose population seed is `population`, in rising order.
pub open spec fn spec_top_seeds(a: i64, k: i64, population: i64, x: i32, z: i32) -> Seq<i64>
    decreases 0x2_0000 - a,
{
    if 0 <= a < 0x1_0000 && 0 < spec_stride(x, z) <= 0x1_0000 {
        let seed = spec_seed(a, k);
        let found = if population_seed(seed, x, z) == population {
            seq![seed]
        } else {
            Seq::<i64>::empty()
        };
        found + spec_top_seeds((a + spec_stride(x, z)) as i64, k, population, x, z)
    } else {
        Seq::<i64>::empty()
    }
}

/// What is left of the second congruence once the low 32 bits `k` are known:
/// the right side that the top 16 bits must solve.
#[verifier::opaque]
pub open spec fn spec_second_addend(k: i64, population: i64, x: i32, z: i32) -> i64 {
    (((k ^ (population & 0xFFFF_FFFF)) >> 16u64) - (spec_partial_addend(k, x, z) & 0xFFFF)) as i64
}

/// The seeds found above the low 16 bits `c` with the middle 16 bits
/// `indexer`, `indexer + stride`, ... below `2^16`.
pub open spec fn spec_middle_seeds(indexer: i64, c: i64, population: i64, x: i32, z: i32) -> Seq<
    i64,
>
    decreases 0x2_0000 - indexer,
{
    if 0 <= indexer < 0x1_0000 && 0 < spec_stride(x, z) <= 0x1_0000 {
        let k = ((indexer << 16u64) + c) as i64;
        let addend = spec_second_addend(k, population, x, z);
        let found = if spec_trailing_zeros(addend) < spec_zeros(x, z) {
            Seq::<i64>::empty()
        } else {
            spec_top_seeds(spec_solve(addend, 32, x, z), k, population, x, z)
        };
        found + spec_middle_seeds((indexer + spec_stride(x, z)) as i64, c, population, x, z)
    } else {
        Seq::<i64>::empty()
    }
}

/// The seeds found above the low 16 bits `c` when the first congruence has
/// the right side `first_addend`: none where `first_addend` has fewer
/// trailing zeros than the factor.
pub open spec fn spec_add_world_seeds(
    first_addend: i64,
    c: i64,
    population: i64,
    x: i32,
    z: i32,
) -> Seq<i64> {
    if spec_trailing_zeros(first_addend) < spec_zeros(x, z) {
        Seq::<i64>::empty()
    } else {
        spec_middle_seeds(spec_solve(first_addend, 16, x, z), c, population, x, z)
    }
}

/// Solves the first congruence for the middle 16 bits and, for each of its
/// solutions, the second congruence for the top 16 bits; adds to
/// `world_seeds` every seed so assembled above `c` whose population seed is
/// `population_seed`.
fn add_world_seeds(
    first_addend: i64,
    mult_trailing_zeroes: i32,
    first_mult_inv: i64,
    c: i64,
    e: i64,
    x: i32,
    z: i32,
    population_seed: i64,
    world_seeds: &mut Vec<i64>,
)
    requires
        0 <= c < 0x1_0000,
        e == population_seed & 0xFFFF_FFFF,
        mult_trailing_zeroes == spec_zeros(x, z),
        0 <= mult_trailing_zeroes < 16,
        first_mult_inv == spec_inverse(x, z),
    ensures
        final(world_seeds)@ == old(world_seeds)@ + spec_add_world_seeds(
            first_addend,
            c,
            population_seed,
            x,
            z,
        ),
{
    if trailing_zeros(first_addend) < mult_trailing_zeroes {
        assert(world_seeds@ =~= old(world_seeds)@ + Seq::<i64>::empty());
        return ;
    }
    let first = forward1();
    let mask: i64 = external_mask(16 - mult_trailing_zeroes);
    let increment: i64 = pow2(16 - mult_trailing_zeroes);
    proof {
        lemma_masked_bounds(0, (16 - mult_trailing_zeroes) as u64);
    }

    let quotient: i64 = first_mult_inv.wrapping_mul(first_addend) >> mult_trailing_zeroes;
    let mut indexer: i64 = (quotient ^ (first.multiplier >> 16u64)) & mask;
    let ghost start = indexer;
    proof {
        reveal(spec_solve);
        lemma_masked_bounds(
            quotient ^ (first.multiplier >> 16u64),
            (16 - mult_trailing_zeroes) as u64,
        );
    }

    //could these have been while loops? yes
    loop
        invariant
            0 <= c < 0x1_0000,
            e == population_seed & 0xFFFF_FFFF,
            mult_trailing_zeroes == spec_zeros(x, z),
            0 <= mult_trailing_zeroes < 16,
            first_mult_inv == spec_inverse(x, z),
            first == spec_forward(1),
            0 <= indexer,
            0 < increment <= 0x1_0000,
            increment == spec_stride(x, z),
            mask == increment - 1,
            old(world_seeds)@ + spec_middle_seeds(start, c, population_seed, x, z) == world_seeds@
                + spec_middle_seeds(indexer, c, population_seed, x, z),
        ensures
            world_seeds@ == old(world_seeds)@ + spec_middle_seeds(
                start,
                c,
                population_seed,
                x,
                z,
            ),
        decreases 0x2_0000 - indexer,
    {
        if indexer >= 0x1_0000 {
            assert(world_seeds@ + Seq::<i64>::empty() =~= world_seeds@);
            break ;
        }
        proof {
            lemma_join_bounds(indexer, c, population_seed, e);
        }
        let k: i64 = (indexer << 16u64) + c;
        let target2: i64 = (k ^ e) >> 16u64;
        let second_addend: i64 = get_partial_addend(k, x, z) & 0xFFFF;
        proof {
            lemma_masked_bounds(spec_partial_addend(k, x, z), 16);
        }
        let ghost before = world_seeds@;
        let ghost rest = spec_middle_seeds(
            (indexer + increment) as i64,
            c,
            population_seed,
            x,
            z,
        );

        let difference: i64 = target2 - second_addend;
        proof {
            reveal(spec_second_addend);
        }
        if trailing_zeros(difference) < mult_trailing_zeroes {
            indexer += increment;
            assert(before + (Seq::<i64>::empty() + rest) =~= before + rest);
            continue ;
        }
        let quotient2: i64 = first_mult_inv.wrapping_mul(difference) >> mult_trailing_zeroes;
        let mut a: i64 = (quotient2 ^ (first.multiplier >> 32u64)) & mask;
        let ghost first_a = a;
        proof {
            reveal(spec_solve);
            lemma_masked_bounds(
                quotient2 ^ (first.multiplier >> 32u64),
                (16 - mult_trailing_zeroes) as u64,
            );
        }

        loop
            invariant
                0 <= a,
                0 <= c < 0x1_0000,
                e == population_seed & 0xFFFF_FFFF,
                0 <= k < 0x1_0000_0000,
                0 < increment <= 0x1_0000,
                increment == spec_stride(x, z),
                before + spec_top_seeds(first_a, k, population_seed, x, z) == world_seeds@
                    + spec_top_seeds(a, k, population_seed, x, z),
            ensures
                world_seeds@ == before + spec_top_seeds(first_a, k, population_seed, x, z),
            decreases 0x2_0000 - a,
        {
            if a >= 0x1_0000 {
                assert(world_seeds@ + Seq::<i64>::empty() =~= world_seeds@);
                break ;
            }
            proof {
                lemma_join_bounds(a, c, population_seed, e);
            }
            let ghost inner = world_seeds@;
            let ghost tail = spec_top_seeds((a + increment) as i64, k, population_seed, x, z);

            if set_population_seed((a << 32u64) + k, x, z) != population_seed {
                a += increment;
                assert(inner + (Seq::<i64>::empty() + tail) =~= inner + tail);
                continue ;
            }
            world_seeds.push((a << 32u64) + k);
            assert(inner + (seq![spec_seed(a, k)] + tail) =~= inner.push(spec_seed(a, k)) + tail);

            a += increment;
        }

        indexer += increment;
        assert(before + (spec_top_seeds(first_a, k, population_seed, x, z) + rest) =~= (before
            + spec_top_seeds(first_a, k, population_seed, x, z)) + rest);
    }
}

/// The seeds that grow out of `value` when its bits from `bit + offset` on
/// are decided one at a time: with all `bits` bits decided, `value` itself if
/// its population seed is `target`; before that, whatever both values of the
/// next bit lead to, as long as the low `bit` bits of the population seed of
/// `value` are those of `target`.
pub open spec fn spec_lift(
    value: i64,
    bit: i32,
    target: i64,
    bits: i32,
    offset: i32,
    x: i32,
    z: i32,
) -> Seq<i64>
    decreases bits - bit,
{
    let calculated = population_seed(value, x, z);
    if bit >= bits {
        if target == calculated {
            seq![value]
        } else {
            Seq::<i64>::empty()
        }
    } else if spec_mask_calc(target, bit) == spec_mask_calc(calculated, bit) {
        spec_lift(value, (bit + 1) as i32, target, bits, offset, x, z) + spec_lift(
            value | (1i64 << (bit + offset)),
            (bit + 1) as i32,
            target,
            bits,
            offset,
            x,
            z,
        )
    } else {
        Seq::<i64>::empty()
    }
}

/// Decides the bits of `value` from `bit + offset` on, one at a time, and
/// adds to `world_seeds` every seed so completed whose population seed is
/// `target`.
fn lift(
    value: i64,
    bit: i32,
    target: i64,
    bits: i32,
    offset: i32,
    x: i32,
    z: i32,
    world_seeds: &mut Vec<i64>,
)
    requires
        0 <= bit,
        0 <= offset,
        0 <= bits,
        bits + offset <= 64,
    ensures
        final(world_seeds)@ == old(world_seeds)@ + spec_lift(
            value,
            bit,
            target,
            bits,
            offset,
            x,
            z,
        ),
    decreases bits - bit,
{
    let calculated: i64 = set_population_seed(value, x, z);
    if bit >= bits {
        if target == calculated {
            world_seeds.push(value);
            assert(world_seeds@ =~= old(world_seeds)@ + seq![value]);
        } else {
            assert(world_seeds@ =~= old(world_seeds)@ + Seq::<i64>::empty());
        }
    } else if mask_calc(target, bit) == mask_calc(calculated, bit) {
        let ghost lower = spec_lift(value, (bit + 1) as i32, target, bits, offset, x, z);
        let ghost upper = spec_lift(
            value | (1i64 << (bit + offset)),
            (bit + 1) as i32,
            target,
            bits,
            offset,
            x,
            z,
        );
        lift(value, bit + 1, target, bits, offset, x, z, world_seeds);
        lift(value | pow2(bit + offset), bit + 1, target, bits, offset, x, z, world_seeds);
        assert((old(world_seeds)@ + lower) + upper =~= old(world_seeds)@ + (lower + upper));
    } else {
        assert(world_seeds@ =~= old(world_seeds)@ + Seq::<i64>::empty());
    }
}

/// The number of low bits of the seed that the coordinates leave untouched:
/// the trailing zeros of `x | z`, 64 where both are zero.
pub open spec fn spec_free_bits(x: i32, z: i32) -> i32 {
    spec_trailing_zeros((x | z) as i64)
}

/// The low bits of the seed that can be read off the population seed: its
/// own bits below the free bits, and above them one bit that the parity of
/// the coordinates fixes.
pub open spec fn spec_first_low(population: i64, x: i32, z: i32) -> i64 {
    let free_bits = spec_free_bits(x, z);
    (spec_mask_calc(population, free_bits) as i64) | (if free_bits == 64 {
        0i64
    } else {
        (((x ^ z) as i64) ^ population) & (1i64 << free_bits)
    })
}

/// The distance between two candidates for the low 16 bits.
pub open spec fn spec_low_stride(x: i32, z: i32) -> i64 {
    if spec_free_bits(x, z) + 1 >= 64 {
        1
    } else {
        1i64 << (spec_free_bits(x, z) + 1)
    }
}

/// The seeds lifted from the low 16 bits `c`, `c + stride`, ... below `2^16`.
pub open spec fn spec_lift_all(c: i64, population: i64, x: i32, z: i32) -> Seq<i64>
    decreases 0x2_0000_0000 - c,
{
    if 0 <= c < 0x1_0000 && 0 < spec_low_stride(x, z) <= 0x1_0000_0000 {
        spec_lift(c, 0, population, 32, 16, x, z) + spec_lift_all(
            (c + spec_low_stride(x, z)) as i64,
            population,
            x,
            z,
        )
    } else {
        Seq::<i64>::empty()
    }
}

/// The right side of the first congruence for the low 16 bits `c` and one
/// carry `offset`: the low 16 bits that the coordinate term must have, less
/// the part of it that `c` alone decides.
#[verifier::opaque]
pub open spec fn spec_first_addend(c: i64, offset: i32, population: i64, x: i32, z: i32) -> i64 {
    let target = (c ^ (population & 0xFFFF)) & 0xFFFF;
    let magic = i32_specs::wrapping_add(
        i32_specs::wrapping_mul(x, spec_term(spec_forward(2), c)),
        i32_specs::wrapping_mul(z, spec_term(spec_forward(4), c)),
    ) as i64;
    (target - ((magic + offset as i64) as i64 & 0xFFFF)) as i64
}

/// The seeds found above the low 16 bits `c` for the carries of `offsets`
/// from the index `from` on.
pub open spec fn spec_offset_seeds(
    offsets: Seq<i32>,
    from: int,
    c: i64,
    population: i64,
    x: i32,
    z: i32,
) -> Seq<i64>
    decreases offsets.len() - from,
{
    if 0 <= from < offsets.len() {
        spec_add_world_seeds(
            spec_first_addend(c, offsets[from], population, x, z),
            c,
            population,
            x,
            z,
        ) + spec_offset_seeds(offsets, from + 1, c, population, x, z)
    } else {
        Seq::<i64>::empty()
    }
}

/// The seeds found by solving the congruences above the low 16 bits `c`,
/// `c + stride`, ... below `2^16`.
pub open spec fn spec_guided_seeds(c: i64, population: i64, x: i32, z: i32) -> Seq<i64>
    decreases 0x2_0000_0000 - c,
{
    if 0 <= c < 0x1_0000 && 0 < spec_low_stride(x, z) <= 0x1_0000_0000 {
        spec_offset_seeds(spec_offsets(x, z), 0, c, population, x, z) + spec_guided_seeds(
            (c + spec_low_stride(x, z)) as i64,
            population,
            x,
            z,
        )
    } else {
        Seq::<i64>::empty()
    }
}

/// What `reverse` returns. Where the factor of the congruences is zero
/// modulo `2^16`, the seeds are lifted bit by bit from the low bits that can
/// be read off the population seed; elsewhere they come from solving the
/// congruences.
pub open spec fn spec_reverse(population: i64, x: i32, z: i32) -> Seq<i64> {
    let c = spec_first_low(population, x, z);
    if spec_zeros(x, z) >= 16 {
        if spec_free_bits(x, z) + 1 >= 16 {
            spec_lift(c, (spec_free_bits(x, z) + 1 - 16) as i32, population, 32, 16, x, z)
        } else {
            spec_lift_all(c, population, x, z)
        }
    } else {
        spec_guided_seeds(c, population, x, z)
    }
}

/// This function will find world seeds corresponding with the population seed
/// and chunk section coordinates.
///
/// Away from the origin the result holds exactly the seeds below `2^48` with
/// that population seed; at the origin, where the population seed is the
/// world seed, it holds the population seed alone.
pub fn reverse(population_seed: i64, x: i32, z: i32) -> (r: Vec<i64>)
    ensures
        r@ == spec_reverse(population_seed, x, z),
        all_give(r@, population_seed, x, z),
        x == 0 && z == 0 ==> r@ == seq![population_seed],
        !(x == 0 && z == 0) ==> holds_exactly(r@, population_seed, x, z),
{
    let tables = PopulationReverser::new();
    reverse_with(&tables, population_seed, x, z)
}

/// The search of `reverse`, on tables that were built before.
pub fn reverse_with(tables: &PopulationReverser, population_seed: i64, x: i32, z: i32) -> (r: Vec<
    i64,
>)
    requires
        tables.wf(),
    ensures
        r@ == spec_reverse(population_seed, x, z),
        all_give(r@, population_seed, x, z),
        x == 0 && z == 0 ==> r@ == seq![population_seed],
        !(x == 0 && z == 0) ==> holds_exactly(r@, population_seed, x, z),
{
    proof {
        lemma_reverse_sound(population_seed, x, z);
        if x == 0 && z == 0 {
            lemma_reverse_at_origin(population_seed);
        } else {
            lemma_reverse_exact(population_seed, x, z);
        }
    }
    let mut world_seeds: Vec<i64> = Vec::new();
    let second = forward2();
    let fourth = forward4();

    let mut c: i64;  //a is the upper 16 bits, b >> 16, c << 32
    let e: i64 = population_seed & tables.mask_32;
    let f: i64 = population_seed & tables.mask_16;

    let mut free_bits: i32 = trailing_zeros((x | z) as i64);
    c = mask_calc(population_seed, free_bits);
    c |= if free_bits == 64 {
        0
    } else {
        ((x ^ z) as i64 ^ population_seed) & pow2(free_bits)
    };
    free_bits += 1;
    proof {
        lemma_first_low_bounds(population_seed, x, z, (free_bits - 1) as u64);
    }

    let increment: i64 = if free_bits >= 64 {
        1
    } else {
        pow2(free_bits)
    };
    proof {
        lemma_free_bits_small(x, z);
        lemma_low_stride_bounds(free_bits as u64);
    }

    let first_mult: i64 = (second.multiplier.wrapping_mul(x as i64).wrapping_add(
        fourth.multiplier.wrapping_mul(z as i64),
    )) & tables.mask_16;

    let mult_trailing_zeroes: i32 = trailing_zeros(first_mult);
    proof {
        reveal(spec_first_mult);
        reveal(spec_zeros);
        if x == 0 && z == 0 {
            lemma_zeros_at_origin();
        }
    }

    if mult_trailing_zeroes >= 16 {
        if free_bits >= 16 {
            lift(c, free_bits - 16, population_seed, 32, 16, x, z, &mut world_seeds);
            assert(Seq::<i64>::empty() + spec_reverse(population_seed, x, z) =~= spec_reverse(
                population_seed,
                x,
                z,
            ));
        } else {
            let ghost start = c;
            loop
                invariant
                    0 <= c,
                    0 < increment <= 0x1_0000_0000,
                    increment == spec_low_stride(x, z),
                    spec_lift_all(start, population_seed, x, z) == world_seeds@ + spec_lift_all(
                        c,
                        population_seed,
                        x,
                        z,
                    ),
                ensures
                    world_seeds@ == spec_lift_all(start, population_seed, x, z),
                decreases 0x2_0000_0000 - c,
            {
                if c >= 0x1_0000 {
                    assert(world_seeds@ + Seq::<i64>::empty() =~= world_seeds@);
                    break ;
                }
                let ghost before = world_seeds@;
                let ghost found = spec_lift(c, 0, population_seed, 32, 16, x, z);
                let ghost rest = spec_lift_all((c + increment) as i64, population_seed, x, z);

                lift(c, 0, population_seed, 32, 16, x, z, &mut world_seeds);
                assert(before + (found + rest) =~= (before + found) + rest);

                c += increment;
            }
        }

        return world_seeds
    }
    proof {
        lemma_addend_bounds(
            0,
            second.multiplier.wrapping_mul(x as i64).wrapping_add(
                fourth.multiplier.wrapping_mul(z as i64),
            ),
            mult_trailing_zeroes as u64,
        );
        reveal(spec_inverse);
    }

    let first_mult_inv: i64 =
        tables.mod_inverse[(first_mult >> mult_trailing_zeroes) as usize] as i64;
    let offsets: Vec<i32> = get_offsets(x, z);
    let ghost start = c;

    loop
        invariant
            tables.wf(),
            0 <= c,
            0 < increment <= 0x1_0000_0000,
            increment == spec_low_stride(x, z),
            e == population_seed & 0xFFFF_FFFF,
            f == population_seed & 0xFFFF,
            mult_trailing_zeroes == spec_zeros(x, z),
            0 <= mult_trailing_zeroes < 16,
            first_mult_inv == spec_inverse(x, z),
            offsets@ == spec_offsets(x, z),
            spec_guided_seeds(start, population_seed, x, z) == world_seeds@ + spec_guided_seeds(
                c,
                population_seed,
                x,
                z,
            ),
        ensures
            world_seeds@ == spec_guided_seeds(start, population_seed, x, z),
        decreases 0x2_0000_0000 - c,
    {
        if c >= 0x1_0000 {
            assert(world_seeds@ + Seq::<i64>::empty() =~= world_seeds@);
            break ;
        }
        let target: i64 = (c ^ f) & tables.mask_16;
        let magic: i64 = (x.wrapping_mul(tables.x_term[c as usize])).wrapping_add(
            z.wrapping_mul(tables.z_term[c as usize]),
        ) as i64;
        let ghost before = world_seeds@;
        let ghost rest = spec_guided_seeds((c + increment) as i64, population_seed, x, z);

        let mut i: usize = 0;
        while i < offsets.len()
            invariant
                0 <= i <= offsets.len(),
                0 <= c < 0x1_0000,
                e == population_seed & 0xFFFF_FFFF,
                f == population_seed & 0xFFFF,
                tables.mask_16 == 0xFFFF,
                target == (c ^ f) & 0xFFFF,
                magic == i32_specs::wrapping_add(
                    i32_specs::wrapping_mul(x, spec_term(spec_forward(2), c)),
                    i32_specs::wrapping_mul(z, spec_term(spec_forward(4), c)),
                ) as i64,
                mult_trailing_zeroes == spec_zeros(x, z),
                0 <= mult_trailing_zeroes < 16,
                first_mult_inv == spec_inverse(x, z),
                before + spec_offset_seeds(offsets@, 0, c, population_seed, x, z) == world_seeds@
                    + spec_offset_seeds(offsets@, i as int, c, population_seed, x, z),
            decreases offsets.len() - i,
        {
            let offset: i32 = offsets[i];
            let ghost inner = world_seeds@;
            let ghost found = spec_add_world_seeds(
                spec_first_addend(c, offset, population_seed, x, z),
                c,
                population_seed,
                x,
                z,
            );
            let ghost tail = spec_offset_seeds(
                offsets@,
                i as int + 1,
                c,
                population_seed,
                x,
                z,
            );
            let sum: i64 = magic + offset as i64;
            proof {
                reveal(spec_first_addend);
                lemma_addend_bounds(c ^ f, sum, 0);
            }
            add_world_seeds(
                target - (sum & tables.mask_16),
                mult_trailing_zeroes,
                first_mult_inv,
                c,
                e,
                x,
                z,
                population_seed,
                &mut world_seeds,
            );
            assert(inner + (found + tail) =~= (inner + found) + tail);
            i += 1;
        }
        assert(world_seeds@ + Seq::<i64>::empty() =~= world_seeds@);
        assert(before + (spec_offset_seeds(offsets@, 0, c, population_seed, x, z) + rest) =~= (
        before + spec_offset_seeds(offsets@, 0, c, population_seed, x, z)) + rest);

        c += increment;
    }

    return world_seeds
}

/// The low bits read off the population seed are never negative.
proof fn lemma_first_low_bounds(population: i64, x: i32, z: i32, free_bits: u64)
    requires
        free_bits == spec_free_bits(x, z),
        0 <= free_bits <= 64,
    ensures
        free_bits < 64 ==> 0 <= spec_first_low(population, x, z),
{
    if free_bits < 64 {
        let low = spec_mask_calc(population, free_bits as i32) as i64;
        let bit = (((x ^ z) as i64) ^ population) & (1i64 << free_bits);
        crate::math::population_reverser_math::lemma_mask_is_mod(population, free_bits as i32);
        vstd::arithmetic::power2::lemma_pow2_pos(free_bits as nat);
        let mixed = ((x ^ z) as i64) ^ population;
        if free_bits < 63 {
            assert(low >= 0 && free_bits < 63 ==> 0 <= (low | (mixed & (1i64 << free_bits))))
                by (bit_vector);
        } else {
            assert(false) by {
                lemma_free_bits_small(x, z);
            }
        }
    }
}

/// Coordinates that are not both zero leave fewer than 32 bits free.
pub proof fn lemma_free_bits_small(x: i32, z: i32)
    ensures
        spec_free_bits(x, z) == 64 || 0 <= spec_free_bits(x, z) < 32,
        spec_free_bits(x, z) == 64 <==> (x == 0 && z == 0),
{
    let v = (x | z) as i64;
    let u = v as u64;
    let zeros = u64_trailing_zeros(u);
    axiom_u64_trailing_zeros(u);
    let gap = (64 - zeros) as u64;
    assert(u == 0 <==> (x == 0 && z == 0)) by (bit_vector)
        requires
            u == ((x | z) as i64) as u64,
    ;
    if u != 0 {
        assert(zeros < 32) by (bit_vector)
            requires
                u == ((x | z) as i64) as u64,
                u != 0,
                zeros <= 64,
                gap == 64 - zeros,
                u << gap == 0,
        ;
    }
}

/// The stride of the low 16 bits is a positive power of two up to `2^32` as
/// long as fewer than 32 bits are free.
proof fn lemma_low_stride_bounds(free_bits: u64)
    by (bit_vector)
    ensures
        free_bits <= 32 ==> 0 < (1i64 << free_bits) <= 0x1_0000_0000,
{
}

/// The low 16 bits of two values are 16-bit values, also when shifted down.
proof fn lemma_addend_bounds(target: i64, sum: i64, shift: u64)
    by (bit_vector)
    requires
        shift < 16,
    ensures
        0 <= (target & 0xFFFF) < 0x1_0000,
        0 <= (sum & 0xFFFF) < 0x1_0000,
        0 <= ((sum & 0xFFFF) >> shift) < 0x1_0000,
{
}

/// The low `bits` bits of a value lie below `2^bits`.
proof fn lemma_masked_bounds(value: i64, bits: u64)
    by (bit_vector)
    requires
        bits <= 16,
    ensures
        0 <= value & (((1i64 << bits) - 1) as i64) < (1i64 << bits),
        0 < (1i64 << bits) <= 0x1_0000,
        bits == 16 ==> ((1i64 << bits) - 1) as i64 == 0xFFFF,
{
}

/// Sixteen bits above sixteen bits make 32 bits, the upper half of their
/// difference to a 32-bit value is a 16-bit value, and sixteen bits shifted
/// up by 32 stay below `2^48`.
proof fn lemma_join_bounds(indexer: i64, c: i64, population: i64, e: i64)
    by (bit_vector)
    requires
        0 <= indexer < 0x1_0000,
        0 <= c < 0x1_0000,
        e == population & 0xFFFF_FFFFi64,
    ensures
        0 <= (indexer << 16u64) + c < 0x1_0000_0000,
        0 <= ((((indexer << 16u64) + c) as i64) ^ e) >> 16u64 < 0x1_0000,
        0 <= (indexer << 32u64) < 0x1_0000_0000_0000,
{
}

/// At the origin the factor of the congruences is zero.
pub proof fn lemma_zeros_at_origin()
    ensures
        spec_first_mult(0, 0) == 0,
        spec_zeros(0, 0) == 64,
{
    reveal(spec_first_mult);
    reveal(spec_zeros);
    vstd::arithmetic::power2::lemma2_to64();
    crate::math::population_reverser_math::lemma_mask_is_mod(0, 16);
    axiom_u64_trailing_zeros(0u64);
}

} // verus!
