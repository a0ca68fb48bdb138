//! Masks, powers of two, modular inverses and the lookup tables of the search.
use crate::lcg::{forward1, forward2, forward4, spec_forward, LCG};
use crate::math::population_reverser_math::{
    external_mask, lemma_mod_inverse_inverts, mod_inverse, spec_mod_inverse,
};
use vstd::arithmetic::power2::{lemma2_to64, lemma2_to64_rest};
use vstd::prelude::*;
use vstd::wrapping::i64_specs;

pub mod bitwise_utils;
pub mod modular;
pub mod population_reverser_math;

verus! {

/// Structure defined for containing math types required for reversing population seeds.
pub struct PopulationReverser {
    pub mask_16: i64,
    pub mask_32: i64,
    pub mask_48: i64,
    pub mod_inverse: Vec<i32>,
    pub x_term: Vec<i32>,
    pub z_term: Vec<i32>,
}

/// The number of entries of each table: one for every 16-bit value.
pub const TABLE_SIZE: usize = 65536;

/// The low 16 bits of a seed whose own low 16 bits are `low`, once the seed
/// has been turned into a generator state.
pub open spec fn scrambled_low(low: i64) -> i64 {
    (low ^ spec_forward(1).multiplier) & 0xFFFF
}

/// What a forward map makes of the low 16 bits of a state alone, from bit 16
/// upwards, cut to 32 bits: the part of the map's output that the higher bits
/// of the state cannot change.
pub open spec fn spec_term(lcg: LCG, low: i64) -> i32 {
    (i64_specs::wrapping_add(
        i64_specs::wrapping_mul(lcg.multiplier, scrambled_low(low)),
        lcg.addend,
    ) >> 16u64) as i32
}

impl PopulationReverser {
    /// The masks are those of 16, 32 and 48 bits, and each table holds, for
    /// every 16-bit index, the inverse modulo `2^16` and the terms of the
    /// maps of two and of four steps.
    pub open spec fn wf(self) -> bool {
        &&& self.mask_16 == 0xFFFF
        &&& self.mask_32 == 0xFFFF_FFFF
        &&& self.mask_48 == 0xFFFF_FFFF_FFFF
        &&& self.mod_inverse@.len() == TABLE_SIZE
        &&& self.x_term@.len() == TABLE_SIZE
        &&& self.z_term@.len() == TABLE_SIZE
        &&& forall|i: int|
            0 <= i < TABLE_SIZE ==> #[trigger] self.mod_inverse@[i] == spec_mod_inverse(
                i as i64,
                16,
            ) as i32
        &&& forall|i: int|
            0 <= i < TABLE_SIZE ==> #[trigger] self.x_term@[i] == spec_term(
                spec_forward(2),
                i as i64,
            )
        &&& forall|i: int|
            0 <= i < TABLE_SIZE ==> #[trigger] self.z_term@[i] == spec_term(
                spec_forward(4),
                i as i64,
            )
    }

    /// Builds the masks and the three tables.
    pub fn new() -> (r: Self)
        ensures
            r.wf(),
    {
        let mut throwaway: PopulationReverser = PopulationReverser::default();

        proof {
            lemma2_to64();
            lemma2_to64_rest();
        }
        throwaway.mask_16 = external_mask(16);
        throwaway.mask_32 = external_mask(32);
        throwaway.mask_48 = external_mask(48);

        let first = forward1();
        let second = forward2();
        let fourth = forward4();

        let mut i: i32 = 0;
        while i < 65536
            invariant
                0 <= i <= 65536,
                throwaway.mask_16 == 0xFFFF,
                throwaway.mask_32 == 0xFFFF_FFFF,
                throwaway.mask_48 == 0xFFFF_FFFF_FFFF,
                first == spec_forward(1),
                second == spec_forward(2),
                fourth == spec_forward(4),
                throwaway.mod_inverse@.len() == i,
                throwaway.x_term@.len() == i,
                throwaway.z_term@.len() == i,
                forall|j: int|
                    0 <= j < i ==> #[trigger] throwaway.mod_inverse@[j] == spec_mod_inverse(
                        j as i64,
                        16,
                    ) as i32,
                forall|j: int|
                    0 <= j < i ==> #[trigger] throwaway.x_term@[j] == spec_term(
                        spec_forward(2),
                        j as i64,
                    ),
                forall|j: int|
                    0 <= j < i ==> #[trigger] throwaway.z_term@[j] == spec_term(
                        spec_forward(4),
                        j as i64,
                    ),
            decreases 65536 - i,
        {
            let low: i64 = (i as i64 ^ first.multiplier) & throwaway.mask_16;
            throwaway.mod_inverse.push(mod_inverse(i as i64, 16) as i32);

            throwaway.x_term.push(
                (second.multiplier.wrapping_mul(low).wrapping_add(second.addend) >> 16u64) as i32,
            );

            throwaway.z_term.push(
                (fourth.multiplier.wrapping_mul(low).wrapping_add(fourth.addend) >> 16u64) as i32,
            );
            i += 1;
        }

        throwaway
    }
}

impl Default for PopulationReverser {
    /// Zero masks and empty tables with room for every 16-bit index.
    fn default() -> (r: Self)
        ensures
            r.mask_16 == 0,
            r.mask_32 == 0,
            r.mask_48 == 0,
            r.mod_inverse@.len() == 0,
            r.x_term@.len() == 0,
            r.z_term@.len() == 0,
    {
        Self {
            mask_16: 0,
            mask_32: 0,
            mask_48: 0,
            mod_inverse: Vec::with_capacity(65536),
            x_term: Vec::with_capacity(65536),
            z_term: Vec::with_capacity(65536),
        }
    }
}

/// The table of inverses holds, for every odd 16-bit value, its inverse
/// modulo `2^16`.
pub proof fn lemma_table_inverts(tables: PopulationReverser, value: int)
    requires
        tables.wf(),
        0 <= value < TABLE_SIZE,
        value % 2 == 1,
    ensures
        0 <= tables.mod_inverse@[value] < 0x1_0000,
        (value * tables.mod_inverse@[value]) % 0x1_0000 == 1,
{
    lemma2_to64();
    lemma_mod_inverse_inverts(value as i64, 16);
}

} // verus!
