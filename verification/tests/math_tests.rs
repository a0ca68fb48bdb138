use population_reverser::math::bitwise_utils::LogicalRightShift;
use population_reverser::math::population_reverser_math::{
    external_mask, mask_calc, mod_inverse, pow2,
};
use population_reverser::math::PopulationReverser;

#[test]
fn pow2_is_a_power_of_two() {
    assert_eq!(pow2(0), 1);
    assert_eq!(pow2(1), 2);
    assert_eq!(pow2(16), 65536);
    assert_eq!(pow2(48), 0x1_0000_0000_0000);
    assert_eq!(pow2(62), 0x4000_0000_0000_0000);
    assert_eq!(pow2(63), i64::MIN);
}

#[test]
fn external_mask_keeps_the_low_bits() {
    assert_eq!(external_mask(0), 0);
    assert_eq!(external_mask(1), 1);
    assert_eq!(external_mask(16), 0xFFFF);
    assert_eq!(external_mask(32), 0xFFFF_FFFF);
    assert_eq!(external_mask(48), 0xFFFF_FFFF_FFFF);
    assert_eq!(external_mask(63), i64::MAX);
    assert_eq!(external_mask(64), -1);
    assert_eq!(external_mask(65), -1);
}

#[test]
fn mask_calc_reduces_modulo_a_power_of_two() {
    assert_eq!(mask_calc(0x1234_5678, 16), 0x5678);
    assert_eq!(mask_calc(0x1234_5678, 0), 0);
    assert_eq!(mask_calc(-1, 48), 0xFFFF_FFFF_FFFF);
    assert_eq!(mask_calc(-1, 63), i64::MAX);
    assert_eq!(mask_calc(-1, 64), -1);
    assert_eq!(mask_calc(-2, 70), -2);
    assert_eq!(mask_calc(-3, 2), 1);
}

#[test]
fn mod_inverse_inverts_odd_values() {
    assert_eq!(mod_inverse(1, 16), 1);
    assert_eq!(mod_inverse(3, 16), 43691);
    assert_eq!(mod_inverse(0x5DEECE66D, 48), 0xDFE05BCB1365);
    for value in [1i64, 3, 5, 7, 255, 65535, 0x5DEECE66D, -1, -12345] {
        for k in [1, 2, 4, 8, 16, 32, 48, 63] {
            let inverse = mod_inverse(value, k);
            assert!(0 <= inverse && inverse <= external_mask(k));
            assert_eq!(value.wrapping_mul(inverse) & external_mask(k), 1);
        }
        assert_eq!(value.wrapping_mul(mod_inverse(value, 64)), 1);
    }
    for value in (1i64..65536).step_by(2) {
        assert_eq!(value.wrapping_mul(mod_inverse(value, 16)) & 0xFFFF, 1);
    }
}

#[test]
fn mod_inverse_of_an_even_value_is_what_the_iteration_gives() {
    assert_eq!(mod_inverse(0, 16), 0);
    assert_eq!(mod_inverse(2, 16), 33504);
    assert_eq!(mod_inverse(5, 0), 0);
}

#[test]
fn logical_right_shift_fills_with_zeros() {
    let mut value: i64 = -1;
    value.lrs(1);
    assert_eq!(value, i64::MAX);
    let mut value: i64 = -1;
    value.lrs(63);
    assert_eq!(value, 1);
    let mut value: i64 = i64::MIN;
    value.lrs(0);
    assert_eq!(value, i64::MIN);
    let mut value: i64 = 0x1234;
    value.lrs(4);
    assert_eq!(value, 0x123);
    let mut value: i64 = -16;
    value.lrs(4);
    assert_eq!(value, 0x0FFF_FFFF_FFFF_FFFF);
}

#[test]
fn default_tables_are_empty() {
    let tables = PopulationReverser::default();
    assert_eq!(tables.mask_16, 0);
    assert_eq!(tables.mask_32, 0);
    assert_eq!(tables.mask_48, 0);
    assert!(tables.mod_inverse.is_empty());
    assert!(tables.x_term.is_empty());
    assert!(tables.z_term.is_empty());
}

#[test]
fn tables_hold_inverses_and_terms() {
    let tables = PopulationReverser::new();
    assert_eq!(tables.mask_16, 0xFFFF);
    assert_eq!(tables.mask_32, 0xFFFF_FFFF);
    assert_eq!(tables.mask_48, 0xFFFF_FFFF_FFFF);
    assert_eq!(tables.mod_inverse.len(), 65536);
    assert_eq!(tables.x_term.len(), 65536);
    assert_eq!(tables.z_term.len(), 65536);
    assert_eq!(tables.mod_inverse[1], 1);
    assert_eq!(tables.mod_inverse[3], 43691);
    for index in (1usize..65536).step_by(2) {
        let product = (index as i64) * (tables.mod_inverse[index] as i64);
        assert_eq!(product & 0xFFFF, 1);
    }
    for index in [0usize, 1, 2, 0x1234, 0xE66D, 0xFFFF] {
        let low = (index as i64 ^ 0x5DEECE66D) & 0xFFFF;
        let second: i64 = 0xBB20B4600A69_i64.wrapping_mul(low).wrapping_add(0x40942DE6BA);
        let fourth: i64 = 0x32EB772C5F11_i64.wrapping_mul(low).wrapping_add(0x2D3873C4CD04);
        assert_eq!(tables.x_term[index], (second >> 16) as i32);
        assert_eq!(tables.z_term[index], (fourth >> 16) as i32);
    }
    // the scrambled low bits are zero at this index, so only the addends are left
    assert_eq!(tables.x_term[0xE66D], 0x40942D);
    assert_eq!(tables.z_term[0xE66D], 0x2D3873C4);
}
