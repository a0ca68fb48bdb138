use population_reverser::lcg::{forward1, forward2, forward4, LCGType, LCG};

const MULTIPLIER: i64 = 0x5DEECE66D;
const MASK_48: i64 = 0xFFFF_FFFF_FFFF;

fn is_forward(kind: LCGType) -> bool {
    matches!(kind, LCGType::FORWARD)
}

#[test]
fn forward_maps_have_the_known_coefficients() {
    let expected: [(i64, i64, i64); 4] = [
        (1, 0x5DEECE66D, 0xB),
        (2, 0xBB20B4600A69, 0x40942DE6BA),
        (3, 0xD498BD0AC4B5, 0xAA8544E593D),
        (4, 0x32EB772C5F11, 0x2D3873C4CD04),
    ];
    for (steps, multiplier, addend) in expected {
        let lcg = LCG::generate(steps, MULTIPLIER, LCGType::FORWARD);
        assert_eq!(lcg.multiplier, multiplier);
        assert_eq!(lcg.addend, addend);
        assert_eq!(lcg.modulus, MASK_48);
        assert!(is_forward(lcg.lcg_type));
    }
}

#[test]
fn reverse_maps_have_the_known_coefficients() {
    let expected: [(i64, i64, i64); 6] = [
        (1, 0xDFE05BCB1365, 0xB),
        (2, 0xE7A191A625D9, 0x40942DE6BA),
        (3, 0x13A1F16F099D, 0xAA8544E593D),
        (4, 0xDBA6ED0471F1, 0x2D3873C4CD04),
        (5, 0x3559DC50D715, 0x5D5692ACE2BF),
        (6, 0xA5BCF0826A49, 0x17617168255E),
    ];
    for (steps, multiplier, addend) in expected {
        let lcg = LCG::generate(steps, MULTIPLIER, LCGType::REVERSE);
        assert_eq!(lcg.multiplier, multiplier);
        assert_eq!(lcg.addend, addend);
        assert_eq!(lcg.modulus, MASK_48);
        assert!(!is_forward(lcg.lcg_type));
    }
}

#[test]
fn minus_one_steps_give_the_inverse_affine_map() {
    let lcg = LCG::generate(-1, MULTIPLIER, LCGType::FORWARD);
    assert_eq!(lcg.multiplier, 0xDFE05BCB1365);
    assert_eq!(lcg.addend, 0x615C0E462AA9);
    assert!(!is_forward(lcg.lcg_type));
    // one step forward and then this map is the identity
    let seed: i64 = 0x1234_5678_9ABC;
    let stepped = seed.wrapping_mul(MULTIPLIER).wrapping_add(0xB) & MASK_48;
    let back = stepped.wrapping_mul(lcg.multiplier).wrapping_add(lcg.addend) & MASK_48;
    assert_eq!(back, seed);
}

#[test]
fn zero_steps_give_the_identity() {
    let lcg = LCG::generate(0, MULTIPLIER, LCGType::FORWARD);
    assert_eq!(lcg.multiplier, 1);
    assert_eq!(lcg.addend, 0);
    assert!(!is_forward(lcg.lcg_type));
}

#[test]
fn folding_agrees_with_stepping() {
    let single = LCG::generate(1, MULTIPLIER, LCGType::FORWARD);
    let mut multiplier: i64 = 1;
    let mut addend: i64 = 0;
    for n in 1..3000i64 {
        multiplier = single.multiplier.wrapping_mul(multiplier) & MASK_48;
        addend = single.multiplier.wrapping_mul(addend).wrapping_add(single.addend) & MASK_48;
        let folded = LCG::generate(n, MULTIPLIER, LCGType::FORWARD);
        assert_eq!(folded.multiplier, multiplier);
        assert_eq!(folded.addend, addend);
    }
    let last = LCG::generate(65535, MULTIPLIER, LCGType::FORWARD);
    for _ in 3000..65536i64 {
        multiplier = single.multiplier.wrapping_mul(multiplier) & MASK_48;
        addend = single.multiplier.wrapping_mul(addend).wrapping_add(single.addend) & MASK_48;
    }
    assert_eq!(last.multiplier, multiplier);
    assert_eq!(last.addend, addend);
}

#[test]
fn reverse_undoes_forward() {
    for n in [1i64, 2, 3, 4, 5, 6, 17, 1000, 65535, -1, -7] {
        for base in [MULTIPLIER, 1, 3, -5, 0x7FFF_FFFF_FFFF_FFFF] {
            let forward = LCG::generate(n, base, LCGType::FORWARD);
            let reverse = LCG::generate(n, base, LCGType::REVERSE);
            assert_eq!(forward.multiplier.wrapping_mul(reverse.multiplier) & MASK_48, 1);
            assert_eq!(forward.addend, reverse.addend);
            for seed in [0i64, 1, 0x1234_5678_9ABC, MASK_48] {
                let there = forward.multiplier.wrapping_mul(seed).wrapping_add(forward.addend)
                    & MASK_48;
                let back = reverse.multiplier.wrapping_mul(there.wrapping_sub(reverse.addend))
                    & MASK_48;
                assert_eq!(back, seed);
            }
        }
    }
}

#[test]
fn an_even_multiplier_has_no_inverse() {
    let forward = LCG::generate(1, 2, LCGType::FORWARD);
    let reverse = LCG::generate(1, 2, LCGType::REVERSE);
    assert_eq!(forward.multiplier, 2);
    assert_ne!(forward.multiplier.wrapping_mul(reverse.multiplier) & MASK_48, 1);
}

#[test]
fn named_forward_maps_are_the_generated_ones() {
    assert_eq!(forward1().multiplier, 0x5DEECE66D);
    assert_eq!(forward1().addend, 0xB);
    assert_eq!(forward2().multiplier, 0xBB20B4600A69);
    assert_eq!(forward2().addend, 0x40942DE6BA);
    assert_eq!(forward4().multiplier, 0x32EB772C5F11);
    assert_eq!(forward4().addend, 0x2D3873C4CD04);
}
