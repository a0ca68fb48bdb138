//! The congruences modulo `2^16` that the middle and the top 16 bits of a
//! world seed satisfy, in integer arithmetic.
use crate::lcg::{spec_forward, LCG};
use crate::math::modular::{
    lemma_add_congruent, lemma_mul_congruent, lemma_sub_congruent, two48,
};
use crate::population_reverser::model::{
    coordinate_term, make_odd, mapped, two16, two32, upper,
};
use vstd::arithmetic::div_mod::{
    lemma_div_multiples_vanish, lemma_fundamental_div_mod, lemma_mod_breakdown, lemma_mod_mod,
    lemma_mod_multiples_basic,
    lemma_mod_multiples_vanish, lemma_mod_twice, lemma_truncate_middle,
};
use vstd::prelude::*;

verus! {

/// The factor of both congruences over the integers: the multiplier of the
/// coordinate term.
pub open spec fn factor(x: i32, z: i32) -> int {
    spec_forward(2).multiplier * x + spec_forward(4).multiplier * z
}

/// Bits of the state from bit 16 on move the output of a map by their
/// multiple of the multiplier: with `scale` 1 for the bits from 16 on, and
/// `2^16` for the bits from 32 on.
pub proof fn lemma_upper_split(lcg: LCG, low: int, high: int, scale: int)
    ensures
        upper(lcg, low + two16() * (scale * high)) % two32() == (upper(lcg, low) + scale * (
        lcg.multiplier * high)) % two32(),
        0 <= upper(lcg, low) < two32(),
{
    let m = lcg.multiplier as int;
    let a = lcg.addend as int;
    let y = m * low + a;
    let k = scale * (m * high);
    assert(m * (low + two16() * (scale * high)) + a == y + two16() * k) by (nonlinear_arith)
        requires
            y == m * low + a,
            k == scale * (m * high),
    ;
    assert(((y + two16() * k) % two48()) / two16() % two32() == ((y % two48()) / two16() + k)
        % two32());
}

/// Making a value odd commutes with adding an even number, modulo `2^32`.
pub proof fn lemma_make_odd_shifted(u: int, p: int, even: int)
    requires
        u % two32() == (p + even) % two32(),
        even % 2 == 0,
        0 <= u < two32(),
    ensures
        make_odd(u) % two32() == (make_odd(p) + even) % two32(),
{
    let k = (p + even) / two32();
    lemma_fundamental_div_mod(p + even, two32());
    assert(u == p + even - two32() * k);
    assert(u % 2 == p % 2);
    assert(make_odd(p) + even == two32() * k + make_odd(u));
    lemma_mod_multiples_vanish(k, make_odd(u), two32());
}

/// The bits of the state from bit 32 on add their multiple of the factor,
/// shifted up by 16, to the coordinate term modulo `2^32`.
pub proof fn lemma_term_split_32(low: int, high: int, x: i32, z: i32)
    ensures
        coordinate_term(low + two32() * high, x, z) % two32() == (coordinate_term(low, x, z)
            + two16() * (factor(x, z) * high)) % two32(),
{
    let second = spec_forward(2);
    let fourth = spec_forward(4);
    let state = low + two32() * high;
    assert(state == low + two16() * (two16() * high));
    lemma_upper_split(second, low, high, two16());
    lemma_upper_split(fourth, low, high, two16());
    lemma_upper_split(second, state, 0, 1);
    lemma_upper_split(fourth, state, 0, 1);
    let e2 = two16() * (second.multiplier * high);
    let e4 = two16() * (fourth.multiplier * high);
    lemma_make_odd_shifted(upper(second, state), upper(second, low), e2);
    lemma_make_odd_shifted(upper(fourth, state), upper(fourth, low), e4);
    let o2 = make_odd(upper(second, state));
    let o4 = make_odd(upper(fourth, state));
    let q2 = make_odd(upper(second, low));
    let q4 = make_odd(upper(fourth, low));
    lemma_mul_congruent(x as int, x as int, o2, q2 + e2, two32());
    lemma_mul_congruent(z as int, z as int, o4, q4 + e4, two32());
    lemma_add_congruent(x * o2, x * (q2 + e2), z * o4, z * (q4 + e4), two32());
    lemma_spread(x as int, q2, second.multiplier as int, high, two16());
    lemma_spread(z as int, q4, fourth.multiplier as int, high, two16());
    lemma_gather(second.multiplier * x, fourth.multiplier * z, high);
}

/// `x * (q + c * (m * h))` is `x * q + c * ((m * x) * h)`.
pub proof fn lemma_spread(x: int, q: int, m: int, h: int, c: int)
    ensures
        x * (q + c * (m * h)) == x * q + c * ((m * x) * h),
{
    assert(x * (q + c * (m * h)) == x * q + x * (c * (m * h))) by (nonlinear_arith);
    assert(x * (c * (m * h)) == c * (x * (m * h))) by (nonlinear_arith);
    assert(x * (m * h) == (m * x) * h) by (nonlinear_arith);
}

/// `a * h + b * h` is `(a + b) * h`.
pub proof fn lemma_gather(a: int, b: int, h: int)
    ensures
        a * h + b * h == (a + b) * h,
{
    assert(a * h + b * h == (a + b) * h) by (nonlinear_arith);
}

/// The upper half of the low 32 bits of a sum whose second term is a
/// multiple of `2^16`.
pub proof fn lemma_upper_half_of_sum(q: int, g: int)
    ensures
        (((q + two16() * g) % two32()) / two16()) % two16() == ((q % two32()) / two16() + g)
            % two16(),
        0 <= (q % two32()) / two16() < two16(),
{
}

/// The congruence for the top 16 bits: the upper half of the low 32 bits of
/// the coordinate term exceeds the upper half of what the low 32 bits of the
/// state give alone by the factor times the top bits, modulo `2^16`.
pub proof fn lemma_top_congruence(low: int, high: int, x: i32, z: i32)
    ensures
        ((coordinate_term(low + two32() * high, x, z) % two32()) / two16() - (coordinate_term(
            low,
            x,
            z,
        ) % two32()) / two16() - factor(x, z) * high) % two16() == 0,
{
    let q = coordinate_term(low, x, z);
    let g = factor(x, z) * high;
    lemma_term_split_32(low, high, x, z);
    lemma_upper_half_of_sum(q, g);
    lemma_upper_half_of_sum(coordinate_term(low + two32() * high, x, z), 0);
}

/// Solving `u * h = d` modulo `2^16` for `h`, where `u` is `p` times an odd
/// number with the inverse `inv` and `p * r` is `2^16`: `d` is a multiple of
/// `p`, and `h` is `inv * d / p` modulo `r`.
pub proof fn lemma_solve_arith(u: int, h: int, d: int, inv: int, p: int, r: int)
    requires
        p > 0,
        r > 0,
        p * r == two16(),
        u % p == 0,
        ((u / p) * inv) % two16() == 1,
        (u * h - d) % two16() == 0,
        h >= 0,
    ensures
        d % p == 0,
        (((inv * d) % two16()) / p) % r == h % r,
{
    let uo = u / p;
    lemma_fundamental_div_mod(u, p);
    let q = (u * h - d) / two16();
    lemma_fundamental_div_mod(u * h - d, two16());
    let rest = uo * h - r * q;
    assert(d == rest * p) by (nonlinear_arith)
        requires
            u == p * uo,
            u * h - d == two16() * q,
            p * r == two16(),
            rest == uo * h - r * q,
    ;
    lemma_mod_multiples_basic(rest, p);
    assert(inv * d == two16() * (-(inv * q)) + (uo * inv) * (p * h)) by (nonlinear_arith)
        requires
            u == p * uo,
            u * h - d == two16() * q,
    ;
    lemma_mod_multiples_vanish(-(inv * q), (uo * inv) * (p * h), two16());
    lemma_mul_congruent(uo * inv, 1, p * h, p * h, two16());
    assert(1 * (p * h) == p * h) by (nonlinear_arith);
    lemma_truncate_middle(h, p, r);
    lemma_div_multiples_vanish(h % r, p);
    lemma_mod_twice(h, r);
}

/// What making a value odd adds to it: one for an even value, nothing for an
/// odd one.
pub open spec fn carry(u: int) -> int {
    make_odd(u) - u
}

/// The congruence for the middle 16 bits: modulo `2^16`, the coordinate term
/// is what the low 16 bits of the state give alone, plus the factor times
/// the bits above them, plus the coordinates times the carries of the two
/// draws.
pub proof fn lemma_middle_congruence(low: int, high: int, x: i32, z: i32)
    ensures
        ({
            let state = low + two16() * high;
            let alone = x * upper(spec_forward(2), low) + z * upper(spec_forward(4), low);
            let carries = x * carry(upper(spec_forward(2), state)) + z * carry(
                upper(spec_forward(4), state),
            );
            (coordinate_term(state, x, z) - alone - factor(x, z) * high - carries) % two16() == 0
        }),
{
    let second = spec_forward(2);
    let fourth = spec_forward(4);
    let state = low + two16() * high;
    let u2 = upper(second, state);
    let u4 = upper(fourth, state);
    let base2 = upper(second, low);
    let base4 = upper(fourth, low);
    let g2 = second.multiplier * high;
    let g4 = fourth.multiplier * high;
    assert(u2 % two16() == (base2 + g2) % two16()) by {
        assert(state == low + two16() * (1 * high));
        lemma_upper_split(second, low, high, 1);
        assert(1 * g2 == g2);
        lemma_mod_mod(u2, two16(), two16());
        lemma_mod_mod(base2 + g2, two16(), two16());
    }
    assert(u4 % two16() == (base4 + g4) % two16()) by {
        assert(state == low + two16() * (1 * high));
        lemma_upper_split(fourth, low, high, 1);
        assert(1 * g4 == g4);
        lemma_mod_mod(u4, two16(), two16());
        lemma_mod_mod(base4 + g4, two16(), two16());
    }
    let e2 = carry(u2);
    let e4 = carry(u4);
    let stepped = x * u2 + z * u4;
    let split = x * (base2 + g2) + z * (base4 + g4);
    let alone = x * base2 + z * base4;
    let carries = x * e2 + z * e4;
    assert(stepped % two16() == split % two16()) by {
        lemma_mul_congruent(x as int, x as int, u2, base2 + g2, two16());
        lemma_mul_congruent(z as int, z as int, u4, base4 + g4, two16());
        lemma_add_congruent(x * u2, x * (base2 + g2), z * u4, z * (base4 + g4), two16());
    }
    assert(split == alone + factor(x, z) * high) by {
        lemma_spread(x as int, base2, second.multiplier as int, high, 1);
        lemma_spread(z as int, base4, fourth.multiplier as int, high, 1);
        lemma_gather(second.multiplier * x, fourth.multiplier * z, high);
        assert(1 * ((second.multiplier * x) * high) == (second.multiplier * x) * high);
        assert(1 * ((fourth.multiplier * z) * high) == (fourth.multiplier * z) * high);
        assert(1 * g2 == g2 && 1 * g4 == g4);
    }
    assert(coordinate_term(state, x, z) == stepped + carries) by {
        assert(x * (u2 + e2) == x * u2 + x * e2) by (nonlinear_arith);
        assert(z * (u4 + e4) == z * u4 + z * e4) by (nonlinear_arith);
    }
    lemma_sub_congruent(stepped, split, split, split, two16());
}

/// The congruence for the low bits: where both coordinates are multiples of
/// `p`, the coordinate term is their sum modulo `2 * p`, because both draws
/// are odd.
pub proof fn lemma_low_congruence(state: int, x: i32, z: i32, p: int)
    requires
        p > 0,
        (x as int) % p == 0,
        (z as int) % p == 0,
    ensures
        (coordinate_term(state, x, z) - (x + z)) % (2 * p) == 0,
{
    let a = make_odd(upper(spec_forward(2), state));
    let b = make_odd(upper(spec_forward(4), state));
    let ha = (a - 1) / 2;
    let hb = (b - 1) / 2;
    assert(a - 1 == 2 * ha && b - 1 == 2 * hb);
    let xp = (x as int) / p;
    let zp = (z as int) / p;
    lemma_fundamental_div_mod(x as int, p);
    lemma_fundamental_div_mod(z as int, p);
    assert(x * a - x == (xp * ha) * (2 * p)) by (nonlinear_arith)
        requires
            x == p * xp,
            a - 1 == 2 * ha,
    ;
    assert(z * b - z == (zp * hb) * (2 * p)) by (nonlinear_arith)
        requires
            z == p * zp,
            b - 1 == 2 * hb,
    ;
    assert(coordinate_term(state, x, z) - (x + z) == (xp * ha + zp * hb) * (2 * p))
        by (nonlinear_arith)
        requires
            coordinate_term(state, x, z) == x * a + z * b,
            x * a - x == (xp * ha) * (2 * p),
            z * b - z == (zp * hb) * (2 * p),
    ;
    lemma_mod_multiples_basic(xp * ha + zp * hb, 2 * p);
}

/// Where both coordinates are multiples of `2^16`, so is the factor.
pub proof fn lemma_factor_vanishes(x: i32, z: i32)
    requires
        (x as int) % two16() == 0,
        (z as int) % two16() == 0,
    ensures
        factor(x, z) % two16() == 0,
{
    let m2 = spec_forward(2).multiplier as int;
    let m4 = spec_forward(4).multiplier as int;
    lemma_mul_congruent(m2, m2, x as int, 0, two16());
    lemma_mul_congruent(m4, m4, z as int, 0, two16());
    assert(m2 * 0 == 0 && m4 * 0 == 0);
    lemma_add_congruent(m2 * x, 0, m4 * z, 0, two16());
}

/// The low bits of the output of a map depend on the low bits of the state
/// alone, 16 bits more of them: for `q` a divisor of `2^32`, states that are
/// congruent modulo `2^16 * q` give outputs that are congruent modulo `q`.
pub proof fn lemma_upper_depends(lcg: LCG, s: int, t: int, q: int, rest: int)
    requires
        q > 0,
        rest > 0,
        (two16() * q) * rest == two48(),
        s % (two16() * q) == t % (two16() * q),
    ensures
        upper(lcg, s) % q == upper(lcg, t) % q,
{
    let m = lcg.multiplier as int;
    let a = lcg.addend as int;
    let wide = two16() * q;
    assert(wide > 0);
    lemma_mul_congruent(m, m, s, t, wide);
    lemma_add_congruent(m * s, m * t, a, a, wide);
    lemma_mod_mod(m * s + a, wide, rest);
    lemma_mod_mod(m * t + a, wide, rest);
    let ms = mapped(lcg, s);
    let mt = mapped(lcg, t);
    assert(ms % wide == mt % wide);
    lemma_mod_breakdown(ms, two16(), q);
    lemma_mod_breakdown(mt, two16(), q);
    assert(two16() * ((ms / two16()) % q) + ms % two16() == two16() * ((mt / two16()) % q) + mt
        % two16());
    lemma_mod_mod(ms, two16(), q);
    lemma_mod_mod(mt, two16(), q);
}

/// Making odd keeps congruences modulo a power of two: for `q` that is 1 or
/// even, values that are congruent modulo `q` are so when made odd.
pub proof fn lemma_make_odd_depends(u: int, v: int, q: int, half: int)
    requires
        q == 1 || (q == 2 * half && half > 0),
        u % q == v % q,
    ensures
        make_odd(u) % q == make_odd(v) % q,
{
    if q != 1 {
        lemma_mod_mod(u, 2, half);
        lemma_mod_mod(v, 2, half);
        assert(u % 2 == v % 2);
        lemma_add_congruent(u, v, 1, 1, q);
    }
}

/// The low bits of the coordinate term depend on the low bits of the state
/// alone, 16 bits more of them.
pub proof fn lemma_term_depends(s: int, t: int, x: i32, z: i32, q: int, half: int, rest: int)
    requires
        q == 1 || (q == 2 * half && half > 0),
        rest > 0,
        (two16() * q) * rest == two48(),
        s % (two16() * q) == t % (two16() * q),
    ensures
        coordinate_term(s, x, z) % q == coordinate_term(t, x, z) % q,
{
    let second = spec_forward(2);
    let fourth = spec_forward(4);
    lemma_upper_depends(second, s, t, q, rest);
    lemma_upper_depends(fourth, s, t, q, rest);
    lemma_make_odd_depends(upper(second, s), upper(second, t), q, half);
    lemma_make_odd_depends(upper(fourth, s), upper(fourth, t), q, half);
    lemma_mul_congruent(
        x as int,
        x as int,
        make_odd(upper(second, s)),
        make_odd(upper(second, t)),
        q,
    );
    lemma_mul_congruent(
        z as int,
        z as int,
        make_odd(upper(fourth, s)),
        make_odd(upper(fourth, t)),
        q,
    );
    lemma_add_congruent(
        x * make_odd(upper(second, s)),
        x * make_odd(upper(second, t)),
        z * make_odd(upper(fourth, s)),
        z * make_odd(upper(fourth, t)),
        q,
    );
}

} // verus!
