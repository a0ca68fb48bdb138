//! Affine maps that stand for repeated steps of the 48-bit linear congruential
//! generator, and the folding of many steps into one map.
use crate::math::bitwise_utils::{lemma_lrs_halves, unsigned, LogicalRightShift};
use crate::math::modular::{
    lemma_add_congruent, lemma_congruent_64_to_48, lemma_mul_congruent, lemma_sub_congruent,
    lemma_wrapping_add_mod, lemma_wrapping_mul_mod, two48, two64,
};
use vstd::arithmetic::div_mod::{
    lemma_fundamental_div_mod, lemma_mod_mod, lemma_mod_multiples_vanish, lemma_mod_twice,
    lemma_small_mod,
};
use vstd::arithmetic::power2::{
    lemma2_to64, lemma2_to64_rest, lemma_pow2_pos, lemma_pow2_unfold, pow2,
};
use vstd::prelude::*;

verus! {

/// The direction in which a map is read: a forward map steps the generator,
/// a reverse map steps it back.
#[allow(non_camel_case_types)]
#[derive(Debug, Copy, Clone)]
pub enum LCGType {
    FORWARD,
    REVERSE,
}

/// Arbitrary LCG of any combination: the map `x -> multiplier * x + addend`
/// on the residues modulo `2^48`.
#[derive(Debug, Copy, Clone)]
pub struct LCG {
    pub multiplier: i64,
    pub addend: i64,
    pub modulus: i64,
    pub lcg_type: LCGType,
}

/// The multiplier of one step of the standard generator.
pub const JAVA_MULTIPLIER: i64 = 0x5DEECE66D;

/// The mask of the 48 bits of a generator state, `2^48 - 1`.
pub const JAVA_MODULUS: i64 = 0xFFFF_FFFF_FFFF;

/// The addend of one step of the standard generator.
pub const JAVA_ADDEND: i64 = 0xB;

/// The map `x -> multiplier * x + addend` applied `n` times in a row, as one
/// pair of a multiplier and an addend over the integers.
pub open spec fn iterate(n: nat, multiplier: int, addend: int) -> (int, int)
    decreases n,
{
    if n == 0 {
        (1, 0)
    } else {
        let (m, a) = iterate((n - 1) as nat, multiplier, addend);
        (multiplier * m, multiplier * a + addend)
    }
}

/// Running `p` steps and then `q` steps is running `p + q` steps.
pub proof fn lemma_iterate_adds(p: nat, q: nat, multiplier: int, addend: int)
    ensures
        iterate(p + q, multiplier, addend).0 == iterate(q, multiplier, addend).0 * iterate(
            p,
            multiplier,
            addend,
        ).0,
        iterate(p + q, multiplier, addend).1 == iterate(q, multiplier, addend).0 * iterate(
            p,
            multiplier,
            addend,
        ).1 + iterate(q, multiplier, addend).1,
    decreases q,
{
    if q > 0 {
        lemma_iterate_adds(p, (q - 1) as nat, multiplier, addend);
        let ip = iterate(p, multiplier, addend);
        let iq = iterate((q - 1) as nat, multiplier, addend);
        assert(iterate(p + q, multiplier, addend) == (
            multiplier * iterate((p + q - 1) as nat, multiplier, addend).0,
            multiplier * iterate((p + q - 1) as nat, multiplier, addend).1 + addend,
        ));
        assert(multiplier * (iq.0 * ip.0) == (multiplier * iq.0) * ip.0) by (nonlinear_arith);
        assert(multiplier * (iq.0 * ip.1 + iq.1) + addend == (multiplier * iq.0) * ip.1 + (
        multiplier * iq.1 + addend)) by (nonlinear_arith);
    }
}

impl LCG {
    /// What `generate` returns: `n` steps folded into one map, with `n` the
    /// unsigned reading of `iterations`, both coefficients reduced modulo
    /// `2^48`. A reverse map keeps the addend of the forward one and takes as
    /// multiplier the forward multiplier raised to the power `2^64 - 1`.
    pub open spec fn spec_generate(
        iterations: i64,
        base_multiplier: i64,
        lcg_type: LCGType,
    ) -> LCG {
        let folded = iterate(unsigned(iterations), base_multiplier as int, JAVA_ADDEND as int);
        let multiplier = folded.0 % two48();
        let addend = folded.1 % two48();
        match lcg_type {
            LCGType::FORWARD => LCG {
                multiplier: multiplier as i64,
                addend: addend as i64,
                modulus: JAVA_MODULUS,
                lcg_type: if iterations > 0 {
                    LCGType::FORWARD
                } else {
                    LCGType::REVERSE
                },
            },
            LCGType::REVERSE => LCG {
                multiplier: (iterate(unsigned(-1i64), multiplier, JAVA_ADDEND as int).0
                    % two48()) as i64,
                addend: addend as i64,
                modulus: JAVA_MODULUS,
                lcg_type: LCGType::REVERSE,
            },
        }
    }

    /// Both coefficients lie in `[0, 2^48)` and the modulus field is the 48-bit mask.
    pub open spec fn wf(self) -> bool {
        &&& 0 <= self.multiplier < two48()
        &&& 0 <= self.addend < two48()
        &&& self.modulus == JAVA_MODULUS
    }

    /// Calculates the combination of multiple calls to the generator's step.
    ///
    /// X[n+1] = (aX[n] + c) mod m
    ///
    /// `iterations` is read as an unsigned bit pattern, so `-1` asks for
    /// `2^64 - 1` steps, which undo one step of a generator with an odd
    /// multiplier.
    pub fn generate(iterations: i64, base_multiplier: i64, lcg_type: LCGType) -> (r: Self)
        ensures
            r == Self::spec_generate(iterations, base_multiplier, lcg_type),
            r.wf(),
        decreases
                (match lcg_type {
                    LCGType::FORWARD => 0nat,
                    LCGType::REVERSE => 1nat,
                }),
    {
        let reverse = if iterations > 0 {
            false
        } else {
            true
        };
        let ghost total = unsigned(iterations);
        let ghost bm = base_multiplier as int;
        let ghost ba = JAVA_ADDEND as int;
        let mut iterations = iterations;

        let mut multiplier: i64 = 1;
        let mut addend: i64 = 0;

        let mut intermediate_multiplier: i64 = base_multiplier;
        let mut intermediate_addend: i64 = JAVA_ADDEND;

        let ghost mut done: nat = 0;
        let ghost mut unit: nat = 1;
        proof {
            reveal_with_fuel(iterate, 2);
            assert(bm * 1 == bm && bm * 0 + ba == ba) by (nonlinear_arith);
        }

        while iterations != 0
            invariant
                total == done + unit * unsigned(iterations),
                unit >= 1,
                bm == base_multiplier,
                ba == JAVA_ADDEND,
                (multiplier as int) % two64() == iterate(done, bm, ba).0 % two64(),
                (addend as int) % two64() == iterate(done, bm, ba).1 % two64(),
                (intermediate_multiplier as int) % two64() == iterate(unit, bm, ba).0 % two64(),
                (intermediate_addend as int) % two64() == iterate(unit, bm, ba).1 % two64(),
            decreases unsigned(iterations),
        {
            let ghost rest = unsigned(iterations);
            let ghost im = intermediate_multiplier as int;
            let ghost ia = intermediate_addend as int;
            let ghost single = iterate(unit, bm, ba);
            proof {
                lemma_lrs_halves(iterations);
            }
            if (iterations & 1) != 0 {
                let ghost folded = iterate(done, bm, ba);
                let ghost m0 = multiplier as int;
                let ghost a0 = addend as int;
                proof {
                    lemma_iterate_adds(done, unit, bm, ba);
                    lemma_wrapping_mul_mod(multiplier, intermediate_multiplier);
                    lemma_mul_congruent(m0, folded.0, im, single.0, two64());
                    assert(folded.0 * single.0 == single.0 * folded.0) by (nonlinear_arith);
                    let t = intermediate_multiplier.wrapping_mul(addend);
                    lemma_wrapping_mul_mod(intermediate_multiplier, addend);
                    lemma_mul_congruent(im, single.0, a0, folded.1, two64());
                    lemma_wrapping_add_mod(t, intermediate_addend);
                    lemma_add_congruent(t as int, single.0 * folded.1, ia, single.1, two64());
                    lemma_add_congruent(t as int, im * a0, ia, ia, two64());
                }
                multiplier = multiplier.wrapping_mul(intermediate_multiplier);
                addend = intermediate_multiplier.wrapping_mul(addend).wrapping_add(
                    intermediate_addend,
                );
                proof {
                    done = done + unit;
                }
            }
            proof {
                lemma_iterate_adds(unit, unit, bm, ba);
                let s = intermediate_multiplier.wrapping_add(1);
                lemma_wrapping_add_mod(intermediate_multiplier, 1);
                lemma_add_congruent(im, single.0, 1, 1, two64());
                lemma_wrapping_mul_mod(s, intermediate_addend);
                lemma_mul_congruent(s as int, single.0 + 1, ia, single.1, two64());
                lemma_mul_congruent(s as int, im + 1, ia, ia, two64());
                assert((single.0 + 1) * single.1 == single.0 * single.1 + single.1)
                    by (nonlinear_arith);
                lemma_wrapping_mul_mod(intermediate_multiplier, intermediate_multiplier);
                lemma_mul_congruent(im, single.0, im, single.0, two64());
                assert(unit * rest == (unit + unit) * (rest / 2) + unit * (rest % 2))
                    by (nonlinear_arith);
                assert(rest % 2 == 0 ==> unit * (rest % 2) == 0) by (nonlinear_arith);
                assert(rest % 2 == 1 ==> unit * (rest % 2) == unit) by (nonlinear_arith);
            }
            intermediate_addend = intermediate_multiplier.wrapping_add(1).wrapping_mul(
                intermediate_addend,
            );
            intermediate_multiplier = intermediate_multiplier.wrapping_mul(
                intermediate_multiplier,
            );

            iterations.lrs(1);
            proof {
                unit = unit + unit;
            }
        }

        proof {
            assert(unit * unsigned(iterations) == 0) by (nonlinear_arith)
                requires
                    unsigned(iterations) == 0,
            ;
            assert(done == total);
            lemma_congruent_64_to_48(multiplier as int, iterate(total, bm, ba).0);
            lemma_congruent_64_to_48(addend as int, iterate(total, bm, ba).1);
            lemma_mask48(multiplier);
            lemma_mask48(addend);
        }
        let multiplier = multiplier & JAVA_MODULUS;
        let addend = addend & JAVA_MODULUS;

        //If the function is the reverse, the multiplier is inverted by one more folding
        match lcg_type {
            LCGType::FORWARD => {
                Self {
                    multiplier,
                    addend,
                    modulus: JAVA_MODULUS,
                    lcg_type: if reverse == false {
                        LCGType::FORWARD
                    } else {
                        LCGType::REVERSE
                    },
                }
            },
            LCGType::REVERSE => {
                //-1 gets the inverse of the multiplier using this function;
                //the addend that comes with it does not belong to this map,
                //so it is replaced with the addend already calculated
                let inverse = LCG::generate(-1, multiplier, LCGType::FORWARD);
                Self {
                    multiplier: inverse.multiplier,
                    addend,
                    modulus: inverse.modulus,
                    lcg_type: inverse.lcg_type,
                }
            },
        }
    }
}

/// Masking with `2^48 - 1` is reduction modulo `2^48`.
pub proof fn lemma_mask48(value: i64)
    ensures
        value & JAVA_MODULUS == (value as int) % two48(),
        0 <= value & JAVA_MODULUS < two48(),
{
    assert(value & 0xFFFF_FFFF_FFFFi64 == (value as int) % 0x1_0000_0000_0000) by (bit_vector);
}


/// The multiplier of a folded map does not depend on the addend.
pub proof fn lemma_iterate_multiplier(n: nat, multiplier: int, a: int, b: int)
    ensures
        iterate(n, multiplier, a).0 == iterate(n, multiplier, b).0,
    decreases n,
{
    if n > 0 {
        lemma_iterate_multiplier((n - 1) as nat, multiplier, a, b);
    }
}

/// Folding steps of an odd multiplier gives an odd multiplier.
pub proof fn lemma_iterate_odd(n: nat, multiplier: int, addend: int)
    requires
        multiplier % 2 == 1,
    ensures
        iterate(n, multiplier, addend).0 % 2 == 1,
    decreases n,
{
    if n > 0 {
        lemma_iterate_odd((n - 1) as nat, multiplier, addend);
        lemma_mul_congruent(multiplier, 1, iterate((n - 1) as nat, multiplier, addend).0, 1, 2);
    }
}

/// `2^k` steps of an odd multiplier fold into a multiplier that is 1 modulo `2^(k+1)`.
pub proof fn lemma_odd_power_is_one(k: nat, multiplier: int, addend: int)
    requires
        multiplier % 2 == 1,
    ensures
        iterate(pow2(k), multiplier, addend).0 % (pow2(k + 1) as int) == 1,
    decreases k,
{
    lemma2_to64();
    if k == 0 {
        reveal_with_fuel(iterate, 2);
        assert(multiplier * 1 == multiplier) by (nonlinear_arith);
    } else {
        let j = (k - 1) as nat;
        lemma_odd_power_is_one(j, multiplier, addend);
        lemma_pow2_unfold(k);
        lemma_pow2_unfold(k + 1);
        lemma_pow2_pos(j);
        lemma_iterate_adds(pow2(j), pow2(j), multiplier, addend);
        let z = iterate(pow2(j), multiplier, addend).0;
        let h = pow2(j) as int;
        let p = pow2(k) as int;
        let q = z / p;
        lemma_fundamental_div_mod(z, p);
        assert(z * z == 1 + (2 * p) * (q + h * q * q)) by (nonlinear_arith)
            requires
                z == p * q + 1,
                p == 2 * h,
        ;
        lemma_mod_multiples_vanish(q + h * q * q, 1, 2 * p);
        lemma_small_mod(1, (2 * p) as nat);
    }
}

/// `2^k` steps of an odd multiplier fold into an addend that is 0 modulo `2^k`.
pub proof fn lemma_power_addend_vanishes(k: nat, multiplier: int, addend: int)
    requires
        multiplier % 2 == 1,
    ensures
        iterate(pow2(k), multiplier, addend).1 % (pow2(k) as int) == 0,
    decreases k,
{
    lemma2_to64();
    if k > 0 {
        let j = (k - 1) as nat;
        lemma_power_addend_vanishes(j, multiplier, addend);
        lemma_iterate_odd(pow2(j), multiplier, addend);
        lemma_pow2_unfold(k);
        lemma_pow2_pos(j);
        lemma_iterate_adds(pow2(j), pow2(j), multiplier, addend);
        let z = iterate(pow2(j), multiplier, addend).0;
        let a = iterate(pow2(j), multiplier, addend).1;
        let h = pow2(j) as int;
        let half = (z + 1) / 2;
        let part = a / h;
        lemma_fundamental_div_mod(a, h);
        assert(z * a + a == (half * part) * (2 * h)) by (nonlinear_arith)
            requires
                z + 1 == 2 * half,
                a == h * part,
        ;
        vstd::arithmetic::div_mod::lemma_mod_multiples_basic(half * part, 2 * h);
    }
}

/// Asking for `-1` steps gives the inverse of one step, for every odd base
/// multiplier: one step followed by the map of `-1` steps, both applied as
/// `x -> multiplier * x + addend`, is the identity map modulo `2^48`.
pub proof fn lemma_minus_one_undoes_step(base_multiplier: i64)
    requires
        (base_multiplier as int) % 2 == 1,
    ensures
        ({
            let one = LCG::spec_generate(1, base_multiplier, LCGType::FORWARD);
            let back = LCG::spec_generate(-1i64, base_multiplier, LCGType::FORWARD);
            &&& (back.multiplier * one.multiplier) % two48() == 1
            &&& (back.multiplier * one.addend + back.addend) % two48() == 0
        }),
{
    let m = base_multiplier as int;
    let a = JAVA_ADDEND as int;
    let one = LCG::spec_generate(1, base_multiplier, LCGType::FORWARD);
    let back = LCG::spec_generate(-1i64, base_multiplier, LCGType::FORWARD);
    let most = unsigned(-1i64);
    let single = iterate(1, m, a);
    let folded = iterate(most, m, a);
    let full = iterate(pow2(64), m, a);
    lemma2_to64();
    lemma2_to64_rest();
    lemma_pow2_unfold(65);
    lemma_odd_power_is_one(64, m, a);
    lemma_power_addend_vanishes(64, m, a);
    lemma_mod_mod(full.0, two48(), 0x2_0000);
    lemma_mod_mod(full.1, two48(), 0x1_0000);
    lemma_iterate_adds(1, most, m, a);
    assert(full.0 == folded.0 * single.0);
    assert(full.1 == folded.0 * single.1 + folded.1);
    lemma_mod_twice(folded.0, two48());
    lemma_mod_twice(folded.1, two48());
    lemma_mod_twice(single.0, two48());
    lemma_mod_twice(single.1, two48());
    lemma_mul_congruent(back.multiplier as int, folded.0, one.multiplier as int, single.0, two48());
    lemma_mul_congruent(back.multiplier as int, folded.0, one.addend as int, single.1, two48());
    lemma_add_congruent(
        back.multiplier * one.addend,
        folded.0 * single.1,
        back.addend as int,
        folded.1,
        two48(),
    );
}

/// A map read in its own direction: a forward map sends `x` to
/// `multiplier * x + addend`, a reverse map sends `x` to
/// `multiplier * (x - addend)`, both modulo `2^48`.
pub open spec fn apply(lcg: LCG, x: int) -> int {
    match lcg.lcg_type {
        LCGType::FORWARD => (lcg.multiplier * x + lcg.addend) % two48(),
        LCGType::REVERSE => (lcg.multiplier * (x - lcg.addend)) % two48(),
    }
}

/// The affine map that a forward map followed by a reverse map makes, as a
/// multiplier and an addend modulo `2^48`.
pub open spec fn undone(reverse: LCG, forward: LCG) -> (int, int) {
    (
        (reverse.multiplier * forward.multiplier) % two48(),
        (reverse.multiplier * (forward.addend - reverse.addend)) % two48(),
    )
}

/// One map applied `n` times in a row as a forward map, reduced modulo `2^48`
/// after every step.
pub open spec fn repeated(n: nat, step: LCG) -> (int, int)
    decreases n,
{
    if n == 0 {
        (1, 0)
    } else {
        let (m, a) = repeated((n - 1) as nat, step);
        ((step.multiplier * m) % two48(), (step.multiplier * a + step.addend) % two48())
    }
}

/// Folding agrees with stepping: for every positive `n`, the forward map of
/// `n` steps has the multiplier and the addend that come out of applying the
/// forward map of one step `n` times in a row.
pub proof fn lemma_generate_repeats_single_step(n: i64, base_multiplier: i64)
    requires
        1 <= n,
    ensures
        LCG::spec_generate(n, base_multiplier, LCGType::FORWARD).multiplier == repeated(
            n as nat,
            LCG::spec_generate(1, base_multiplier, LCGType::FORWARD),
        ).0,
        LCG::spec_generate(n, base_multiplier, LCGType::FORWARD).addend == repeated(
            n as nat,
            LCG::spec_generate(1, base_multiplier, LCGType::FORWARD),
        ).1,
{
    reveal_with_fuel(iterate, 2);
    assert(base_multiplier * 1 == base_multiplier && base_multiplier * 0 == 0)
        by (nonlinear_arith);
    lemma_repeated_is_iterate(n as nat, base_multiplier as int);
}

proof fn lemma_repeated_is_iterate(n: nat, bm: int)
    ensures
        repeated(
            n,
            LCG {
                multiplier: (bm % two48()) as i64,
                addend: JAVA_ADDEND,
                modulus: JAVA_MODULUS,
                lcg_type: LCGType::FORWARD,
            },
        ) == (
            iterate(n, bm, JAVA_ADDEND as int).0 % two48(),
            iterate(n, bm, JAVA_ADDEND as int).1 % two48(),
        ),
    decreases n,
{
    if n > 0 {
        let step = LCG {
            multiplier: (bm % two48()) as i64,
            addend: JAVA_ADDEND,
            modulus: JAVA_MODULUS,
            lcg_type: LCGType::FORWARD,
        };
        lemma_repeated_is_iterate((n - 1) as nat, bm);
        let it = iterate((n - 1) as nat, bm, JAVA_ADDEND as int);
        let sm = step.multiplier as int;
        lemma_mod_twice(bm, two48());
        lemma_mod_twice(it.0, two48());
        lemma_mod_twice(it.1, two48());
        lemma_mul_congruent(sm, bm, it.0 % two48(), it.0, two48());
        lemma_mul_congruent(sm, bm, it.1 % two48(), it.1, two48());
        lemma_add_congruent(sm * (it.1 % two48()), bm * it.1, 0xB, 0xB, two48());
    }
}

/// A reverse map undoes the forward map of the same number of steps, for
/// every odd base multiplier: the two together are the identity map, with
/// the multiplier 1 and the addend 0 modulo `2^48`, and for a positive
/// number of steps, applying the forward map and then the reverse map gives
/// back every `x` modulo `2^48`.
pub proof fn lemma_reverse_undoes_forward(iterations: i64, base_multiplier: i64, x: int)
    requires
        (base_multiplier as int) % 2 == 1,
    ensures
        ({
            let f = LCG::spec_generate(iterations, base_multiplier, LCGType::FORWARD);
            let r = LCG::spec_generate(iterations, base_multiplier, LCGType::REVERSE);
            &&& undone(r, f) == (1int, 0int)
            &&& iterations > 0 ==> apply(r, apply(f, x)) == x % two48()
        }),
{
    let f = LCG::spec_generate(iterations, base_multiplier, LCGType::FORWARD);
    let r = LCG::spec_generate(iterations, base_multiplier, LCGType::REVERSE);
    let n = unsigned(iterations);
    let a = JAVA_ADDEND as int;
    let fm = f.multiplier as int;
    let rm = r.multiplier as int;
    lemma_iterate_odd(n, base_multiplier as int, a);
    lemma_mod_mod(iterate(n, base_multiplier as int, a).0, 2, 0x8000_0000_0000);
    assert(fm % 2 == 1);
    // 2^64 steps of the forward multiplier fold into the identity multiplier
    lemma_odd_power_is_one(64, fm, a);
    lemma2_to64();
    lemma2_to64_rest();
    lemma_pow2_unfold(65);
    let full = iterate(pow2(64), fm, a).0;
    lemma_mod_mod(full, two48(), 0x2_0000);
    assert(full % two48() == 1);
    let most = iterate(unsigned(-1i64), fm, a).0;
    assert(full == fm * most);
    lemma_mod_twice(most, two48());
    lemma_mul_congruent(rm, most, fm, fm, two48());
    assert(most * fm == fm * most) by (nonlinear_arith);
    assert((rm * fm) % two48() == 1);
    assert(rm * (f.addend - r.addend) == 0) by (nonlinear_arith)
        requires
            r.addend == f.addend,
    ;
    if iterations > 0 {
        let y = apply(f, x);
        lemma_mod_twice(fm * x + f.addend, two48());
        lemma_sub_congruent(y, fm * x + f.addend, r.addend as int, f.addend as int, two48());
        lemma_mul_congruent(rm, rm, y - r.addend, fm * x, two48());
        assert(rm * (fm * x) == (rm * fm) * x) by (nonlinear_arith);
        lemma_mul_congruent(rm * fm, 1, x, x, two48());
        assert(1 * x == x);
    }
}

/// The map of `steps` steps of the standard generator.
#[verifier::opaque]
pub open spec fn spec_forward(steps: i64) -> LCG {
    LCG::spec_generate(steps, JAVA_MULTIPLIER, LCGType::FORWARD)
}

/// The first four forward maps of the standard generator, written out.
pub proof fn lemma_forward_values()
    ensures
        spec_forward(1).multiplier == 0x5DEECE66D,
        spec_forward(1).addend == 0xB,
        spec_forward(2).multiplier == 0xBB20B4600A69,
        spec_forward(2).addend == 0x40942DE6BA,
        spec_forward(3).multiplier == 0xD498BD0AC4B5,
        spec_forward(3).addend == 0xAA8544E593D,
        spec_forward(4).multiplier == 0x32EB772C5F11,
        spec_forward(4).addend == 0x2D3873C4CD04,
{
    reveal(spec_forward);
    reveal_with_fuel(iterate, 5);
    let m = JAVA_MULTIPLIER as int;
    let a = JAVA_ADDEND as int;
    assert(iterate(0, m, a) == (1int, 0int));
    assert(iterate(1, m, a) == (0x5DEECE66Dint, 0xBint));
    assert(iterate(2, m, a) == (m * 0x5DEECE66D, m * 0xB + 0xB));
    assert(iterate(3, m, a) == (m * (m * 0x5DEECE66D), m * (m * 0xB + 0xB) + 0xB));
    assert(iterate(4, m, a) == (
        m * (m * (m * 0x5DEECE66D)),
        m * (m * (m * 0xB + 0xB) + 0xB) + 0xB,
    ));
}

/// Equivalent of one step of the standard generator.
pub fn forward1() -> (r: LCG)
    ensures
        r == spec_forward(1),
        r.wf(),
        r.multiplier == 0x5DEECE66D,
        r.addend == 0xB,
{
    proof {
        reveal(spec_forward);
        lemma_forward_values();
    }
    LCG::generate(1, JAVA_MULTIPLIER, LCGType::FORWARD)
}

/// Equivalent of two steps of the standard generator.
pub fn forward2() -> (r: LCG)
    ensures
        r == spec_forward(2),
        r.wf(),
        r.multiplier == 0xBB20B4600A69,
        r.addend == 0x40942DE6BA,
{
    proof {
        reveal(spec_forward);
        lemma_forward_values();
    }
    LCG::generate(2, JAVA_MULTIPLIER, LCGType::FORWARD)
}

/// Equivalent of four steps of the standard generator.
pub fn forward4() -> (r: LCG)
    ensures
        r == spec_forward(4),
        r.wf(),
        r.multiplier == 0x32EB772C5F11,
        r.addend == 0x2D3873C4CD04,
{
    proof {
        reveal(spec_forward);
        lemma_forward_values();
    }
    LCG::generate(4, JAVA_MULTIPLIER, LCGType::FORWARD)
}

} // verus!
